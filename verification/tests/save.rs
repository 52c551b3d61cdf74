//! What a save does to the page tree itself.

use lopdf::{Dictionary, Document as LoDocument, Object, ObjectId, Stream};
use porpoise::order::{PageOrder, Source};
use porpoise::save::{
    check_request, files_needed, page_ids_by_source, save_reordered, Overwrite, SaveError,
};

const PAGES: usize = 4;

fn dictionary(entries: Vec<(&str, Object)>) -> Dictionary {
    let mut dictionary = Dictionary::new();
    for (key, value) in entries {
        dictionary.set(key, value);
    }
    dictionary
}

fn name(text: &str) -> Object {
    Object::Name(text.as_bytes().to_vec())
}

fn media_box(width: i64, height: i64) -> Object {
    Object::Array([0, 0, width, height].map(Object::Integer).to_vec())
}

/// A page whose contents say which one it is.
fn leaf(document: &mut LoDocument, mark: &str, mut own: Dictionary) -> ObjectId {
    let contents = document.add_object(Stream::new(Dictionary::new(), mark.as_bytes().to_vec()));
    own.set("Type", name("Page"));
    own.set("Contents", Object::Reference(contents));
    document.add_object(own)
}

fn branch(document: &mut LoDocument, kids: &[ObjectId], count: i64, mut own: Dictionary) -> ObjectId {
    own.set("Type", name("Pages"));
    own.set("Kids", Object::Array(kids.iter().copied().map(Object::Reference).collect()));
    own.set("Count", Object::Integer(count));
    let id = document.add_object(own);
    for kid in kids {
        let kid = document.get_dictionary_mut(*kid).expect("a kid is a dictionary");
        kid.set("Parent", Object::Reference(id));
    }
    id
}

fn finished(mut document: LoDocument, root: ObjectId) -> Vec<u8> {
    let catalog = document.add_object(dictionary(vec![
        ("Type", name("Catalog")),
        ("Pages", Object::Reference(root)),
    ]));
    document.trailer.set("Root", Object::Reference(catalog));
    let mut bytes = Vec::new();
    document.save_to(&mut bytes).expect("should write the fixture");
    bytes
}

/// Two branches of two pages each, with sizes and rotations of their own.
fn nested_page_tree_pdf() -> Vec<u8> {
    let mut document = LoDocument::with_version("1.5");
    let pages: Vec<ObjectId> =
        (0..PAGES).map(|page| leaf(&mut document, &format!("nested {page}"), Dictionary::new())).collect();
    let left = branch(
        &mut document,
        &pages[..2],
        2,
        dictionary(vec![("MediaBox", media_box(200, 100)), ("Rotate", Object::Integer(90))]),
    );
    let right = branch(
        &mut document,
        &pages[2..],
        2,
        dictionary(vec![("MediaBox", media_box(300, 400)), ("Rotate", Object::Integer(180))]),
    );
    let root = branch(
        &mut document,
        &[left, right],
        4,
        dictionary(vec![("Resources", Object::Dictionary(Dictionary::new()))]),
    );
    finished(document, root)
}

/// Pages directly under the root, each with its own size.
fn multi_page_pdf(pages: usize, width: i64, height: i64, mark: &str) -> Vec<u8> {
    let mut document = LoDocument::with_version("1.5");
    let kids: Vec<ObjectId> = (0..pages)
        .map(|page| {
            let own = dictionary(vec![("MediaBox", media_box(width, height))]);
            leaf(&mut document, &format!("{mark} {page}"), own)
        })
        .collect();
    let root = branch(&mut document, &kids, pages as i64, Dictionary::new());
    finished(document, root)
}

fn reversed() -> PageOrder {
    let mut order = PageOrder::identity(PAGES);
    for step in 0..PAGES {
        order.move_page(PAGES - 1, step);
    }
    assert_eq!(order.as_slice(), [3, 2, 1, 0].map(|page| Source { document: 0, page }));
    order
}

fn root_kids(document: &LoDocument) -> Vec<ObjectId> {
    let root = document
        .catalog()
        .expect("should have a catalog")
        .get(b"Pages")
        .expect("should name a page tree")
        .as_reference()
        .expect("should be a reference");
    document
        .get_dictionary(root)
        .expect("should be a dictionary")
        .get(b"Kids")
        .expect("should have kids")
        .as_array()
        .expect("should be an array")
        .iter()
        .map(|kid| kid.as_reference().expect("should be a reference"))
        .collect()
}

/// What the pages of a file say, in order.
fn marks(bytes: &[u8]) -> Vec<String> {
    let document = LoDocument::load_mem(bytes).expect("the saved file should parse");
    root_kids(&document)
        .into_iter()
        .map(|kid| {
            let contents = document
                .get_dictionary(kid)
                .expect("should be a dictionary")
                .get(b"Contents")
                .expect("should have contents")
                .as_reference()
                .expect("should be a reference");
            let stream = document.get_object(contents).expect("should be there");
            let stream = stream.as_stream().expect("should be a stream");
            String::from_utf8_lossy(&stream.content).into_owned()
        })
        .collect()
}

fn sources(paths: &[&str]) -> Vec<String> {
    paths.iter().map(|path| String::from(*path)).collect()
}

fn saved(source: Vec<u8>, order: &PageOrder) -> LoDocument {
    let bytes = save_reordered(
        &sources(&["source.pdf"]),
        &[Ok(source)],
        order,
        "out.pdf",
        false,
        Overwrite::Refuse,
    )
    .expect("should save");
    LoDocument::load_mem(&bytes).expect("the saved file should parse")
}

#[test]
fn the_saved_page_tree_has_no_branches_left() {
    let document = saved(nested_page_tree_pdf(), &reversed());
    let kids = root_kids(&document);
    assert_eq!(kids.len(), PAGES, "the root should hold every page directly");
    for kid in kids {
        let dictionary = document.get_dictionary(kid).expect("should be a dictionary");
        assert!(
            dictionary.has_type(b"Page"),
            "a branch survived the flatten: {dictionary:?}"
        );
    }
}

#[test]
fn every_saved_page_defines_the_attributes_it_used_to_inherit() {
    let document = saved(nested_page_tree_pdf(), &reversed());
    for kid in root_kids(&document) {
        let dictionary = document.get_dictionary(kid).expect("should be a dictionary");
        for key in [b"MediaBox".as_slice(), b"Rotate", b"Resources"] {
            assert!(
                dictionary.has(key),
                "page is missing {}, which it used to inherit: {dictionary:?}",
                String::from_utf8_lossy(key)
            );
        }
    }
}

#[test]
fn the_two_branches_geometry_survives_as_two_different_page_sizes() {
    let document = saved(nested_page_tree_pdf(), &reversed());
    let boxes: Vec<Object> = root_kids(&document)
        .into_iter()
        .map(|kid| {
            document
                .get_dictionary(kid)
                .expect("should be a dictionary")
                .get(b"MediaBox")
                .expect("should define a media box")
                .clone()
        })
        .collect();

    assert_eq!(format!("{:?}", boxes[0]), format!("{:?}", boxes[1]));
    assert_eq!(format!("{:?}", boxes[2]), format!("{:?}", boxes[3]));
    assert_ne!(
        format!("{:?}", boxes[0]),
        format!("{:?}", boxes[2]),
        "both branches ended up the same size"
    );
    assert_eq!(boxes[0], media_box(300, 400));
}

#[test]
fn a_flat_document_is_not_given_attributes_it_never_had() {
    let source = multi_page_pdf(PAGES, 200, 100, "flat");
    let before = LoDocument::load_mem(&source).expect("the fixture should parse");
    let before_rotate: Vec<bool> = root_kids(&before)
        .into_iter()
        .map(|kid| {
            before
                .get_dictionary(kid)
                .expect("should be a dictionary")
                .has(b"Rotate")
        })
        .collect();
    assert_eq!(before_rotate, vec![false; PAGES], "fixture changed shape");

    let document = saved(source, &reversed());
    for kid in root_kids(&document) {
        let dictionary = document.get_dictionary(kid).expect("should be a dictionary");
        assert!(
            !dictionary.has(b"Rotate"),
            "a rotation was invented for a page that had none: {dictionary:?}"
        );
    }
}

#[test]
fn the_pages_come_out_in_the_order_asked_for() {
    let file = save_reordered(
        &sources(&["source.pdf"]),
        &[Ok(nested_page_tree_pdf())],
        &reversed(),
        "out.pdf",
        false,
        Overwrite::Refuse,
    )
    .expect("should save");
    assert_eq!(marks(&file), ["nested 3", "nested 2", "nested 1", "nested 0"]);
}

#[test]
fn a_deleted_page_leaves_nothing_behind() {
    let mut order = PageOrder::identity(PAGES);
    assert!(order.remove_pages(&[0, 2]));
    let file = save_reordered(
        &sources(&["source.pdf"]),
        &[Ok(nested_page_tree_pdf())],
        &order,
        "out.pdf",
        true,
        Overwrite::Allow,
    )
    .expect("should save");
    assert_eq!(marks(&file), ["nested 1", "nested 3"]);
    let text = String::from_utf8_lossy(&file).into_owned();
    assert!(!text.contains("nested 0"), "a deleted page's contents were kept");
}

#[test]
fn pages_of_two_files_are_put_together() {
    let mut order = PageOrder::identity(2);
    assert!(order.append(1, 3));
    assert!(order.move_page(4, 0));
    let file = save_reordered(
        &sources(&["first.pdf", "second.pdf"]),
        &[Ok(multi_page_pdf(2, 200, 100, "first")), Ok(multi_page_pdf(3, 300, 400, "second"))],
        &order,
        "out.pdf",
        false,
        Overwrite::Refuse,
    )
    .expect("should save");
    assert_eq!(marks(&file), ["second 2", "first 0", "first 1", "second 0", "second 1"]);
}

#[test]
fn the_root_counts_its_pages_and_every_page_names_it() {
    let document = saved(nested_page_tree_pdf(), &reversed());
    let kids = root_kids(&document);
    let root = document
        .catalog()
        .and_then(|catalog| catalog.get(b"Pages"))
        .and_then(Object::as_reference)
        .expect("should name a page tree");
    let tree = document.get_dictionary(root).expect("should be a dictionary");
    assert_eq!(tree.get(b"Count").and_then(Object::as_i64).ok(), Some(PAGES as i64));
    for kid in kids {
        let page = document.get_dictionary(kid).expect("should be a dictionary");
        assert_eq!(page.get(b"Parent").and_then(Object::as_reference).ok(), Some(root));
    }
}

#[test]
fn pages_of_three_files_keep_what_they_say() {
    let mut order = PageOrder::identity(1);
    assert!(order.append(1, 2));
    assert!(order.append(2, 1));
    assert!(order.move_pages(&[1, 3], 0));
    let file = save_reordered(
        &sources(&["a.pdf", "b.pdf", "c.pdf"]),
        &[
            Ok(multi_page_pdf(1, 200, 100, "a")),
            Ok(nested_pair()),
            Ok(multi_page_pdf(1, 300, 400, "c")),
        ],
        &order,
        "out.pdf",
        false,
        Overwrite::Refuse,
    )
    .expect("should save");
    assert_eq!(marks(&file), ["pair 0", "c 0", "a 0", "pair 1"]);
}

/// Two pages below one branch, which gives them their size.
fn nested_pair() -> Vec<u8> {
    let mut document = LoDocument::with_version("1.5");
    let pages: Vec<ObjectId> =
        (0..2).map(|page| leaf(&mut document, &format!("pair {page}"), Dictionary::new())).collect();
    let inner = branch(
        &mut document,
        &pages,
        2,
        dictionary(vec![("MediaBox", media_box(100, 100))]),
    );
    let root = branch(&mut document, &[inner], 2, Dictionary::new());
    finished(document, root)
}

#[test]
fn a_file_that_no_page_comes_from_is_not_needed() {
    let mut order = PageOrder::identity(2);
    assert!(order.stage(1, 3));
    assert_eq!(files_needed(&order), [true, false]);
    let file = save_reordered(
        &sources(&["first.pdf", "second.pdf"]),
        &[Ok(multi_page_pdf(2, 200, 100, "first")), Err(String::from("gone"))],
        &order,
        "out.pdf",
        false,
        Overwrite::Refuse,
    )
    .expect("should save");
    assert_eq!(marks(&file), ["first 0", "first 1"]);
}

#[test]
fn a_saved_file_can_be_saved_again() {
    let mut order = reversed();
    let file = save_reordered(
        &sources(&["source.pdf"]),
        &[Ok(nested_page_tree_pdf())],
        &order,
        "source.pdf",
        true,
        Overwrite::Allow,
    )
    .expect("should save");
    let written = order.as_slice().to_vec();
    order.mark_saved(0, &written);
    assert!(order.move_page(0, 3));
    let again = save_reordered(
        &sources(&["source.pdf"]),
        &[Ok(file)],
        &order,
        "source.pdf",
        true,
        Overwrite::Allow,
    )
    .expect("should save");
    assert_eq!(marks(&again), ["nested 2", "nested 1", "nested 0", "nested 3"]);
}

fn refused(files: &[Result<Vec<u8>, String>], order: &PageOrder, exists: bool) -> SaveError {
    save_reordered(&sources(&["source.pdf"]), files, order, "out.pdf", exists, Overwrite::Refuse)
        .expect_err("should be refused")
}

#[test]
fn each_refusal_says_what_is_wrong() {
    let order = PageOrder::identity(3);
    let error = refused(&[Err(String::from("no such file"))], &order, false);
    assert_eq!(error.message(), "could not read source.pdf for saving: no such file");

    let error = refused(&[Ok(b"not a PDF".to_vec())], &order, false);
    assert!(matches!(error, SaveError::Source { .. }), "got {error:?}");

    let error = refused(&[Ok(multi_page_pdf(2, 200, 100, "short"))], &order, false);
    assert_eq!(
        error.message(),
        "cannot edit source.pdf safely: its page tree was expected to hold 3 page(s) but reads as \
         2 for writing"
    );

    let error = refused(&[Err(String::from("unread"))], &order, true);
    assert_eq!(error, SaveError::WouldOverwrite { path: String::from("out.pdf") });
    assert_eq!(error.message(), "out.pdf already exists");

    assert_eq!(
        check_request(2, &order, "out.pdf", false, Overwrite::Refuse)
            .expect_err("should be refused")
            .message(),
        "could not read the page tree of out.pdf: given 2 source path(s) for an order spanning 1 \
         document(s)"
    );
    let written = SaveError::Write { path: String::from("out.pdf"), detail: String::from("full") };
    assert_eq!(written.message(), "could not write out.pdf: full");
}

#[test]
fn pages_are_found_by_where_they_came_from() {
    let document = LoDocument::load_mem(&multi_page_pdf(2, 200, 100, "flat")).expect("should parse");
    let kids = root_kids(&document);
    let on_disk = [Source { document: 0, page: 5 }, Source { document: 0, page: 2 }];
    let file = page_ids_by_source(&document, "source.pdf", &on_disk).expect("should match");
    assert_eq!(file.object(on_disk[0]), Some(kids[0]));
    assert_eq!(file.object(on_disk[1]), Some(kids[1]));
    assert_eq!(file.object(Source { document: 0, page: 0 }), None);
}

/// A file whose object stream says that its length is held by an object inside that very
/// stream.
fn entangled_pdf() -> Vec<u8> {
    let mut bytes = b"%PDF-1.5\n".to_vec();
    let mut offsets = Vec::new();
    for body in [
        "1 0 obj\n<</Type/Catalog/Pages 2 0 R>>\nendobj\n",
        "2 0 obj\n<</Type/Pages/Kids[3 0 R]/Count 1>>\nendobj\n",
        "3 0 obj\n<</Type/Page/Parent 2 0 R/MediaBox[0 0 10 10]>>\nendobj\n",
        "4 0 obj\n<</Type/ObjStm/N 1/First 4/Length 5 0 R>>\nstream\n5 0 6\nendstream\nendobj\n",
    ] {
        offsets.push(bytes.len());
        bytes.extend_from_slice(body.as_bytes());
    }
    let start = bytes.len();
    let mut table = vec![0u8, 0, 0, 0];
    for offset in offsets {
        table.extend_from_slice(&[1, (offset >> 8) as u8, (offset & 0xff) as u8, 0]);
    }
    table.extend_from_slice(&[2, 0, 4, 0]);
    table.extend_from_slice(&[1, (start >> 8) as u8, (start & 0xff) as u8, 0]);
    bytes.extend_from_slice(
        format!(
            "6 0 obj\n<</Type/XRef/Size 7/W[1 2 1]/Root 1 0 R/Length {}>>\nstream\n",
            table.len()
        )
        .as_bytes(),
    );
    bytes.extend_from_slice(&table);
    bytes.extend_from_slice(b"\nendstream\nendobj\n");
    bytes.extend_from_slice(format!("startxref\n{start}\n%%EOF").as_bytes());
    bytes
}

#[test]
fn a_stream_that_holds_its_own_length_does_not_stop_a_save() {
    let file = save_reordered(
        &sources(&["entangled.pdf"]),
        &[Ok(entangled_pdf())],
        &PageOrder::identity(1),
        "out.pdf",
        false,
        Overwrite::Refuse,
    )
    .expect("the page does not need that stream");
    assert_eq!(root_kids(&LoDocument::load_mem(&file).expect("a PDF")).len(), 1);
}

#[test]
fn a_page_of_an_added_file_keeps_what_it_inherited_there() {
    let mut order = PageOrder::identity(1);
    assert!(order.append(1, 2));
    assert!(order.move_page(2, 0));
    let file = save_reordered(
        &sources(&["first.pdf", "second.pdf"]),
        &[Ok(multi_page_pdf(1, 50, 60, "first")), Ok(nested_pair())],
        &order,
        "out.pdf",
        false,
        Overwrite::Refuse,
    )
    .expect("should save");
    let after = LoDocument::load_mem(&file).expect("a PDF");
    let kids = root_kids(&after);
    assert_eq!(kids.len(), 3);
    let sizes: Vec<Object> = kids
        .iter()
        .map(|kid| {
            let page = after.get_dictionary(*kid).expect("a page");
            page.get(b"MediaBox").expect("a size of its own").clone()
        })
        .collect();
    assert_eq!(sizes, [media_box(100, 100), media_box(50, 60), media_box(100, 100)]);
}

/// Two pages whose objects are numbered the other way round, with references to nothing in one
/// of them and in the catalog.
fn frayed_pair() -> Vec<u8> {
    let mut document = LoDocument::with_version("1.5");
    let own = dictionary(vec![("Thumb", Object::Reference((900, 0)))]);
    let later = leaf(&mut document, "frayed 1", own);
    let sooner = leaf(&mut document, "frayed 0", Dictionary::new());
    let size = dictionary(vec![("MediaBox", media_box(70, 80))]);
    let root = branch(&mut document, &[sooner, later], 2, size);
    let catalog = document.add_object(dictionary(vec![
        ("Type", name("Catalog")),
        ("Pages", Object::Reference(root)),
        ("Outlines", Object::Reference((901, 0))),
    ]));
    document.trailer.set("Root", Object::Reference(catalog));
    let mut bytes = Vec::new();
    document.save_to(&mut bytes).expect("should write the fixture");
    bytes
}

#[test]
fn references_to_nothing_do_not_keep_an_added_page_from_being_itself() {
    let mut order = PageOrder::identity(1);
    assert!(order.append(1, 2));
    let file = save_reordered(
        &sources(&["first.pdf", "frayed.pdf"]),
        &[Ok(multi_page_pdf(1, 50, 60, "first")), Ok(frayed_pair())],
        &order,
        "out.pdf",
        false,
        Overwrite::Refuse,
    )
    .expect("should save");
    assert_eq!(marks(&file), ["first 0", "frayed 0", "frayed 1"]);
    let after = LoDocument::load_mem(&file).expect("a PDF");
    for kid in &root_kids(&after)[1..] {
        let page = after.get_dictionary(*kid).expect("a page");
        assert_eq!(page.get(b"MediaBox").expect("a size of its own"), &media_box(70, 80));
    }
}

#[test]
fn a_merged_file_can_be_saved_again_over_the_first() {
    let mut order = PageOrder::identity(2);
    assert!(order.append(1, 2));
    assert!(order.move_page(3, 0));
    let paths = sources(&["first.pdf", "frayed.pdf"]);
    let first = multi_page_pdf(2, 50, 60, "first");
    let save = |file: Vec<u8>, order: &PageOrder| {
        let files = [Ok(file), Ok(frayed_pair())];
        save_reordered(&paths, &files, order, "first.pdf", true, Overwrite::Allow)
            .expect("should save")
    };
    let file = save(first, &order);
    assert_eq!(marks(&file), ["frayed 1", "first 0", "first 1", "frayed 0"]);
    let written = order.as_slice().to_vec();
    order.mark_saved(0, &written);
    assert!(order.remove(1));
    assert!(order.move_page(0, 2));
    let again = save(file, &order);
    assert_eq!(marks(&again), ["first 1", "frayed 0", "frayed 1"]);
}
