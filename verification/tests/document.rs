//! An open document and the files that contribute to it.

use porpoise::document::{examined, DocumentError, OpenDocument, PageEdit, Parsing};
use porpoise::order::Source;
use porpoise::stage::StageId;

fn open(pages: usize) -> OpenDocument {
    OpenDocument::new(String::from("primary.pdf"), pages)
}

fn shown(document: &OpenDocument) -> Vec<(usize, usize)> {
    document.order().as_slice().iter().map(|source| (source.document, source.page)).collect()
}

#[test]
fn a_file_that_cannot_be_read_names_the_path_it_tried() {
    let error = examined("definitely-not-here-9f3a.pdf", Err(String::from("no such file")))
        .expect_err("should be refused");
    assert!(matches!(error, DocumentError::Io { .. }), "unexpected error: {error:?}");
    assert_eq!(error.message(), "could not read definitely-not-here-9f3a.pdf");
}

#[test]
fn what_the_parser_makes_of_a_file_is_passed_on() {
    assert_eq!(examined("a.pdf", Ok(Parsing::Pages(3))), Ok(3));
    let refused = examined("a.pdf", Ok(Parsing::Refused(String::from("no header"))));
    assert_eq!(refused, Err(DocumentError::Parse { detail: String::from("no header") }));
    let panicked = examined("a.pdf", Ok(Parsing::Panicked)).expect_err("should be refused");
    assert_eq!(panicked, DocumentError::ParserPanicked);
    assert!(!panicked.message().is_empty());
}

#[test]
fn an_edit_that_changes_nothing_says_so() {
    let mut document = open(3);
    assert!(!document.edit(&PageEdit::Undo));
    assert!(document.edit(&PageEdit::Move { positions: vec![0], to: 2 }));
    assert_eq!(shown(&document), [(0, 1), (0, 2), (0, 0)]);
    assert!(!document.edit(&PageEdit::Remove { positions: vec![0, 1, 2] }));
    assert!(document.edit(&PageEdit::Remove { positions: vec![1] }));
    assert!(document.edit(&PageEdit::Undo));
    assert!(document.edit(&PageEdit::Undo));
    assert_eq!(shown(&document), [(0, 0), (0, 1), (0, 2)]);
}

#[test]
fn staged_pages_are_found_by_their_stage() {
    let mut document = open(2);
    let first = document.stage(String::from("a.pdf"), 3);
    let second = document.stage(String::from("b.pdf"), 1);
    assert_eq!((first.get(), second.get()), (1, 2));
    assert_eq!(document.stages(), 2);
    assert_eq!(document.stage_at(1), (second, "b.pdf"));
    assert_eq!(document.staged_document(first), Some(1));
    assert_eq!(document.staged_page_count(first), 3);
    assert_eq!(
        document.staged_sources(second),
        Some(vec![Source { document: 2, page: 0 }])
    );
    assert_eq!(document.stage_for_document(2), Some(second));
    assert_eq!(document.stage_for_document(0), None);
    assert_eq!(document.staged_from("a.pdf"), Some(first));
    assert_eq!(document.staged_from("c.pdf"), None);
    assert_eq!(document.latest(), Some(second));
    assert_eq!(document.source_paths(), ["primary.pdf", "a.pdf", "b.pdf"]);

    assert!(document.edit(&PageEdit::Insert { document: 1, pages: vec![2, 0], at: 1 }));
    assert_eq!(shown(&document), [(0, 0), (1, 2), (1, 0), (0, 1)]);
    assert!(document.unstage(first));
    assert!(!document.unstage(first));
    assert_eq!(document.staged_document(first), None);
    assert_eq!(document.staged_page_count(first), 0);
    assert_eq!(document.latest(), Some(second));
    assert_eq!(shown(&document).len(), 4);
    assert_eq!(document.stage(String::from("a.pdf"), 3), StageId::new(3).expect("not zero"));
}

#[test]
fn a_saved_document_is_where_it_was_saved() {
    let mut document = open(3);
    assert!(document.insert_file(String::from("a.pdf"), 1));
    assert_eq!(document.primary_path(), "primary.pdf");
    let written = document.order().as_slice().to_vec();
    document.mark_saved(String::from("out.pdf"), &written);
    assert_eq!(document.primary_path(), "out.pdf");
    assert!(document.order().is_unedited());
}
