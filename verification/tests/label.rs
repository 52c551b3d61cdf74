//! What a path is shown as.

use porpoise::label::{file_label, is_pdf};

#[test]
fn a_path_shows_as_its_file_name() {
    assert_eq!(file_label("plans/2026/sheet.pdf"), "sheet.pdf");
    assert_eq!(file_label("sheet.pdf"), "sheet.pdf");
}

#[test]
fn a_windows_path_shows_as_its_file_name() {
    assert_eq!(
        file_label(r"C:\Users\me\Desktop\ROLT14_GDOT-U_6.pdf"),
        "ROLT14_GDOT-U_6.pdf"
    );
}

#[test]
fn a_path_with_no_file_name_falls_back_to_the_whole_thing() {
    for odd in ["..", "/", ""] {
        let shown = file_label(odd);
        assert_eq!(shown, odd, "{odd:?} did not fall back to itself");
    }
}

#[test]
fn a_bare_drive_falls_back_to_the_whole_thing() {
    for drive in ["C:", r"C:\", "d:/", r"C:\."] {
        assert_eq!(file_label(drive), drive);
        assert!(!is_pdf(drive));
    }
    assert_eq!(file_label(r"C:\sheet.pdf"), "sheet.pdf");
    assert_eq!(file_label("1:/"), "1:");
}

#[test]
fn a_directory_shows_as_its_last_component() {
    assert_eq!(file_label("plans/gdot/"), "gdot");
}

#[test]
fn a_non_ascii_name_survives() {
    let path = "café/naïve plan.pdf";
    assert_eq!(file_label(path), "naïve plan.pdf");
}

#[test]
fn an_extension_is_read_without_case() {
    for name in ["sheet.pdf", "sheet.PDF", "plans/sheet.pDf", r"C:\plans\a.b.Pdf"] {
        assert!(is_pdf(name), "{name} was not taken for a PDF");
    }
    for name in ["sheet.pdf.txt", "pdf", ".pdf", "sheet", "plans.pdf/sheet", ""] {
        assert!(!is_pdf(name), "{name} was taken for a PDF");
    }
}
