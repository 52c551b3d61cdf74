//! Attributes that pages inherit from the page tree.

use lopdf::{Dictionary, Document as LoDocument, Object, ObjectId};
use porpoise::inherit::{push_down, InheritError, Inheritable, MAX_DEPTH};

const INHERITABLE: [&[u8]; 4] = [b"Resources", b"MediaBox", b"CropBox", b"Rotate"];

fn dictionary(entries: Vec<(&str, Object)>) -> Dictionary {
    let mut dictionary = Dictionary::new();
    for (key, value) in entries {
        dictionary.set(key, value);
    }
    dictionary
}

fn name(text: &str) -> Object {
    Object::Name(text.as_bytes().to_vec())
}

fn rotated(degrees: i64) -> Dictionary {
    dictionary(vec![("Rotate", Object::Integer(degrees))])
}

fn page(document: &mut LoDocument, own: Dictionary) -> ObjectId {
    let mut leaf = dictionary(vec![("Type", name("Page"))]);
    for (key, value) in own.iter() {
        leaf.set(key.clone(), value.clone());
    }
    document.add_object(leaf)
}

fn branch(document: &mut LoDocument, kids: &[ObjectId], own: Dictionary) -> ObjectId {
    let mut node = dictionary(vec![
        ("Type", name("Pages")),
        ("Kids", Object::Array(kids.iter().copied().map(Object::Reference).collect())),
        ("Count", Object::Integer(kids.len() as i64)),
    ]);
    for (key, value) in own.iter() {
        node.set(key.clone(), value.clone());
    }
    document.add_object(node)
}

fn rotate(document: &LoDocument, page: ObjectId) -> Option<i64> {
    document
        .get_dictionary(page)
        .ok()?
        .get(b"Rotate")
        .ok()?
        .as_i64()
        .ok()
}

fn defines(document: &LoDocument, page: ObjectId, key: &[u8]) -> bool {
    document
        .get_dictionary(page)
        .is_ok_and(|dictionary| dictionary.has(key))
}

#[test]
fn a_page_takes_the_root_value_it_was_inheriting() {
    let mut document = LoDocument::new();
    let leaf = page(&mut document, Dictionary::new());
    let root = branch(&mut document, &[leaf], rotated(90));

    push_down(&mut document, root).unwrap();

    assert_eq!(rotate(&document, leaf), Some(90));
}

#[test]
fn a_page_takes_the_nearest_definition_above_it() {
    let mut document = LoDocument::new();
    let leaf = page(&mut document, Dictionary::new());
    let middle = branch(&mut document, &[leaf], rotated(180));
    let root = branch(&mut document, &[middle], rotated(90));

    push_down(&mut document, root).unwrap();

    assert_eq!(rotate(&document, leaf), Some(180));
}

#[test]
fn a_page_keeps_the_value_it_defines_itself() {
    let mut document = LoDocument::new();
    let leaf = page(&mut document, rotated(270));
    let middle = branch(&mut document, &[leaf], rotated(180));
    let root = branch(&mut document, &[middle], rotated(90));

    push_down(&mut document, root).unwrap();

    assert_eq!(rotate(&document, leaf), Some(270));
}

#[test]
fn siblings_under_different_branches_keep_different_values() {
    let mut document = LoDocument::new();
    let left_page = page(&mut document, Dictionary::new());
    let right_page = page(&mut document, Dictionary::new());
    let left = branch(&mut document, &[left_page], rotated(90));
    let right = branch(
        &mut document,
        &[right_page],
        rotated(180),
    );
    let root = branch(&mut document, &[left, right], Dictionary::new());

    push_down(&mut document, root).unwrap();

    assert_eq!(rotate(&document, left_page), Some(90));
    assert_eq!(rotate(&document, right_page), Some(180));
}

#[test]
fn three_levels_resolve_to_the_innermost_definition() {
    let mut document = LoDocument::new();
    let leaf = page(&mut document, Dictionary::new());
    let inner = branch(&mut document, &[leaf], rotated(270));
    let middle = branch(&mut document, &[inner], rotated(180));
    let root = branch(&mut document, &[middle], rotated(90));

    push_down(&mut document, root).unwrap();

    assert_eq!(rotate(&document, leaf), Some(270));
}

#[test]
fn all_four_inheritable_attributes_are_pushed_down() {
    let mut document = LoDocument::new();
    let leaf = page(&mut document, Dictionary::new());
    let root = branch(
        &mut document,
        &[leaf],
        dictionary(vec![
            ("Resources", Object::Dictionary(Dictionary::new())),
            ("MediaBox", Object::Array(vec![
                Object::Integer(0),
                Object::Integer(0),
                Object::Integer(400),
                Object::Integer(400),
            ])),
            ("CropBox", Object::Array(vec![
                Object::Integer(0),
                Object::Integer(0),
                Object::Integer(200),
                Object::Integer(200),
            ])),
            ("Rotate", Object::Integer(90)),
        ]),
    );

    push_down(&mut document, root).unwrap();

    for key in INHERITABLE {
        assert!(
            defines(&document, leaf, key),
            "{} was not pushed down",
            String::from_utf8_lossy(key)
        );
    }
}

#[test]
fn nothing_is_invented_for_attributes_nobody_defined() {
    let mut document = LoDocument::new();
    let leaf = page(&mut document, Dictionary::new());
    let root = branch(&mut document, &[leaf], Dictionary::new());

    push_down(&mut document, root).unwrap();

    for key in INHERITABLE {
        assert!(
            !defines(&document, leaf, key),
            "{} was invented",
            String::from_utf8_lossy(key)
        );
    }
}

#[test]
fn a_cycle_in_the_page_tree_is_refused() {
    let mut document = LoDocument::new();
    let leaf = page(&mut document, Dictionary::new());
    let inner = branch(&mut document, &[leaf], Dictionary::new());
    let root = branch(&mut document, &[inner], Dictionary::new());
    document
        .get_dictionary_mut(inner)
        .unwrap()
        .set("Kids", Object::Array(vec![Object::Reference(root)]));

    let error = push_down(&mut document, root).unwrap_err();

    assert!(matches!(error, InheritError::Repeated(_)), "got {error:?}");
}

#[test]
fn a_tree_deeper_than_the_limit_is_refused() {
    let mut document = LoDocument::new();
    let leaf = page(&mut document, Dictionary::new());
    let mut current = branch(&mut document, &[leaf], Dictionary::new());
    for _ in 0..=MAX_DEPTH {
        current = branch(&mut document, &[current], Dictionary::new());
    }

    let error = push_down(&mut document, current).unwrap_err();

    assert!(matches!(error, InheritError::TooDeep), "got {error:?}");
}

#[test]
fn a_tree_at_the_limit_is_still_walked() {
    let mut document = LoDocument::new();
    let leaf = page(&mut document, Dictionary::new());
    let mut current = branch(&mut document, &[leaf], rotated(90));
    for _ in 0..MAX_DEPTH - 1 {
        current = branch(&mut document, &[current], Dictionary::new());
    }

    push_down(&mut document, current).unwrap();

    assert_eq!(rotate(&document, leaf), Some(90));
}

#[test]
fn a_page_listed_twice_is_allowed() {
    let mut document = LoDocument::new();
    let leaf = page(&mut document, Dictionary::new());
    let root = branch(&mut document, &[leaf, leaf], rotated(90));

    push_down(&mut document, root).unwrap();

    assert_eq!(rotate(&document, leaf), Some(90));
}

#[test]
fn a_branch_without_kids_is_refused() {
    let mut document = LoDocument::new();
    let root = document.add_object(dictionary(vec![("Type", name("Pages"))]));

    let error = push_down(&mut document, root).unwrap_err();

    assert!(matches!(error, InheritError::Malformed(_)), "got {error:?}");
}

#[test]
fn an_untyped_kid_is_skipped_rather_than_treated_as_a_page() {
    let mut document = LoDocument::new();
    let stray = document.add_object(dictionary(vec![("Contents", Object::Null)]));
    let leaf = page(&mut document, Dictionary::new());
    let root = branch(
        &mut document,
        &[stray, leaf],
        rotated(90),
    );

    push_down(&mut document, root).unwrap();

    assert!(!defines(&document, stray, b"Rotate"));
    assert_eq!(rotate(&document, leaf), Some(90));
}

#[test]
fn the_four_attributes_are_named_as_the_format_names_them() {
    let keys = [
        Inheritable::Resources,
        Inheritable::MediaBox,
        Inheritable::CropBox,
        Inheritable::Rotate,
    ]
    .map(|attribute| attribute.key().as_bytes());
    assert_eq!(keys, INHERITABLE);
}

#[test]
fn a_refused_tree_is_left_as_it_was() {
    let mut document = LoDocument::new();
    let leaf = page(&mut document, Dictionary::new());
    let good = branch(&mut document, &[leaf], rotated(90));
    let bad = document.add_object(dictionary(vec![("Type", name("Pages"))]));
    let root = branch(&mut document, &[good, bad], Dictionary::new());

    let error = push_down(&mut document, root).unwrap_err();

    assert!(matches!(error, InheritError::Malformed(_)), "got {error:?}");
    assert!(!defines(&document, leaf, b"Rotate"));
}

#[test]
fn the_errors_read_as_written() {
    assert_eq!(
        InheritError::Repeated((7, 0)).message(),
        "the page tree reaches node (7, 0) twice, so it is not a tree"
    );
    assert_eq!(
        InheritError::TooDeep.message(),
        "the page tree nests more than 256 levels deep"
    );
    assert_eq!(InheritError::Malformed(String::from("odd")).message(), "odd");
}
