//! What dropping unused objects leaves of a page tree: all of it.

use vstd::prelude::*;
use vstd::string::*;

use crate::pdf;
use crate::pdf::ObjectId;

verus! {

/// Whether `kept` is `whole` without objects that its trailer does not lead to.
pub open spec fn keeps_what_is_used(whole: lopdf::Document, kept: lopdf::Document) -> bool {
    &&& pdf::trailer_in(kept) == pdf::trailer_in(whole)
    &&& pdf::objects_in(kept).submap_of(pdf::objects_in(whole))
    &&& forall|id: ObjectId, steps: nat|
        #[trigger] pdf::in_use(whole, id, steps) && pdf::objects_in(whole).contains_key(id)
            ==> pdf::objects_in(kept).contains_key(id)
}

/// Whether the trailer of a document leads to `id`.
pub open spec fn used(document: lopdf::Document, id: ObjectId) -> bool {
    exists|steps: nat| #[trigger] pdf::in_use(document, id, steps)
}

/// What an object that is used refers to is used.
pub proof fn lemma_mentioned_is_used(
    document: lopdf::Document,
    at: ObjectId,
    id: ObjectId,
    depth: nat,
)
    requires
        used(document, at),
        pdf::objects_in(document).contains_key(at),
        pdf::mentions(pdf::objects_in(document)[at], id, depth),
    ensures
        used(document, id),
{
    let steps = choose|steps: nat| #[trigger] pdf::in_use(document, at, steps);
    assert(pdf::in_use(document, id, steps + 1)) by {
        assert(pdf::in_use(document, at, ((steps + 1) - 1) as nat));
        assert(pdf::mentions(pdf::objects_in(document)[at], id, depth));
    }
}

/// A chain of references that starts at an object in use ends where it did, at an object in
/// use.
pub proof fn lemma_chain_is_kept(
    whole: lopdf::Document,
    kept: lopdf::Document,
    id: ObjectId,
    hops: nat,
)
    requires
        keeps_what_is_used(whole, kept),
        used(whole, id),
    ensures
        pdf::chain_end(pdf::objects_in(kept), id, hops) == pdf::chain_end(
            pdf::objects_in(whole),
            id,
            hops,
        ),
        pdf::chain_end(pdf::objects_in(whole), id, hops) matches Some(home) ==> used(whole, home)
            && pdf::objects_in(whole).contains_key(home) && pdf::objects_in(kept).contains_key(home)
            && pdf::objects_in(kept)[home] == pdf::objects_in(whole)[home],
    decreases hops,
{
    let steps = choose|steps: nat| #[trigger] pdf::in_use(whole, id, steps);
    let before = pdf::objects_in(whole);
    let after = pdf::objects_in(kept);
    if before.contains_key(id) {
        assert(after.contains_key(id));
        assert(after.dom().contains(id));
        assert(after[id] == before[id]);
        match pdf::target_of(before[id]) {
            Some(next) => {
                assert(pdf::mentions(before[id], next, 0));
                lemma_mentioned_is_used(whole, id, next, 0);
                if hops > 0 {
                    lemma_chain_is_kept(whole, kept, next, (hops - 1) as nat);
                }
            },
            None => {},
        }
    } else {
        if after.contains_key(id) {
            assert(after.dom().contains(id));
            assert(before.dom().contains(id));
        }
    }
}

/// A dictionary in use keeps its entries.
pub proof fn lemma_dictionary_is_kept(
    whole: lopdf::Document,
    kept: lopdf::Document,
    id: ObjectId,
)
    requires
        keeps_what_is_used(whole, kept),
        used(whole, id),
    ensures
        pdf::dictionary_at(pdf::objects_in(kept), id) == pdf::dictionary_at(
            pdf::objects_in(whole),
            id,
        ),
        forall|key: Seq<u8>|
            #[trigger] pdf::entry_at(pdf::objects_in(kept), id, key) == pdf::entry_at(
                pdf::objects_in(whole),
                id,
                key,
            ),
{
    lemma_chain_is_kept(whole, kept, id, pdf::DEREF_LIMIT as nat);
}

/// What an entry of a dictionary in use refers to is used.
pub proof fn lemma_entry_is_used(
    document: lopdf::Document,
    id: ObjectId,
    key: Seq<u8>,
    other: ObjectId,
    depth: nat,
)
    requires
        used(document, id),
        pdf::entry_at(pdf::objects_in(document), id, key) is Some,
        pdf::mentions(pdf::entry_at(pdf::objects_in(document), id, key)->0, other, depth),
    ensures
        used(document, other),
{
    let objects = pdf::objects_in(document);
    assert(keeps_what_is_used(document, document));
    lemma_chain_is_kept(document, document, id, pdf::DEREF_LIMIT as nat);
    let home = pdf::chain_end(objects, id, pdf::DEREF_LIMIT as nat)->0;
    let entries = pdf::entries_of(objects[home])->0;
    assert(entries.contains_key(key) && pdf::mentions(entries[key], other, depth));
    assert(pdf::mentions(objects[home], other, depth + 1));
    lemma_mentioned_is_used(document, home, other, depth + 1);
}

/// The root of the page tree is used.
pub proof fn lemma_root_is_used(document: lopdf::Document)
    requires
        pdf::page_tree_of(document) is Some,
    ensures
        used(document, pdf::page_tree_of(document)->0),
        used(document, pdf::target_of(pdf::trailer_in(document)["Root".spec_bytes()])->0),
{
    let root = pdf::page_tree_of(document)->0;
    let value = pdf::trailer_in(document)["Root".spec_bytes()];
    let catalog = pdf::target_of(value)->0;
    assert(pdf::mentions(value, catalog, 0));
    assert(pdf::in_use(document, catalog, 0)) by {
        assert(pdf::trailer_in(document).contains_key("Root".spec_bytes()));
        assert(pdf::mentions(pdf::trailer_in(document)["Root".spec_bytes()], catalog, 0));
    }
    let pages = pdf::entry_at(pdf::objects_in(document), catalog, "Pages".spec_bytes())->0;
    assert(pdf::mentions(pages, root, 0));
    lemma_entry_is_used(document, catalog, "Pages".spec_bytes(), root, 0);
}

/// The kids of a node in use are used.
pub proof fn lemma_kids_are_used(document: lopdf::Document, node: ObjectId, i: int)
    requires
        used(document, node),
        pdf::kids_at(pdf::objects_in(document), node) is Some,
        0 <= i < pdf::kids_at(pdf::objects_in(document), node)->0.len(),
        pdf::kids_at(pdf::objects_in(document), node)->0[i] is Some,
    ensures
        used(document, pdf::kids_at(pdf::objects_in(document), node)->0[i]->0),
{
    let objects = pdf::objects_in(document);
    let kid = pdf::kids_at(objects, node)->0[i]->0;
    let value = pdf::entry_at(objects, node, "Kids".spec_bytes())->0;
    let items = pdf::items_behind(objects, value)->0;
    assert(pdf::mentions(items[i], kid, 0));
    match pdf::target_of(value) {
        None => {
            assert(pdf::mentions(value, kid, 1));
            lemma_entry_is_used(document, node, "Kids".spec_bytes(), kid, 1);
        },
        Some(next) => {
            assert(pdf::mentions(value, next, 0));
            lemma_entry_is_used(document, node, "Kids".spec_bytes(), next, 0);
            assert(keeps_what_is_used(document, document));
            lemma_chain_is_kept(document, document, next, (pdf::DEREF_LIMIT - 1) as nat);
            let home = pdf::chain_end(objects, next, (pdf::DEREF_LIMIT - 1) as nat)->0;
            assert(pdf::mentions(objects[home], kid, 1));
            lemma_mentioned_is_used(document, home, kid, 1);
        },
    }
}

/// Dropping unused objects keeps the page tree: its root, the root's kids and entries, and
/// every entry of each kid.
pub proof fn law_pruning_keeps_the_page_tree(whole: lopdf::Document, kept: lopdf::Document)
    requires
        keeps_what_is_used(whole, kept),
        pdf::page_tree_of(whole) is Some,
    ensures
        pdf::page_tree_of(kept) == pdf::page_tree_of(whole),
        ({
            let root = pdf::page_tree_of(whole)->0;
            &&& pdf::kids_at(pdf::objects_in(kept), root) == pdf::kids_at(
                pdf::objects_in(whole),
                root,
            )
            &&& forall|key: Seq<u8>|
                #[trigger] pdf::entry_at(pdf::objects_in(kept), root, key) == pdf::entry_at(
                    pdf::objects_in(whole),
                    root,
                    key,
                )
            &&& pdf::kids_at(pdf::objects_in(whole), root) matches Some(kids) ==> forall|
                i: int,
                key: Seq<u8>,
            |
                0 <= i < kids.len() && kids[i] is Some ==> #[trigger] pdf::entry_at(
                    pdf::objects_in(kept),
                    kids[i]->0,
                    key,
                ) == pdf::entry_at(pdf::objects_in(whole), kids[i]->0, key)
        }),
{
    let root = pdf::page_tree_of(whole)->0;
    let before = pdf::objects_in(whole);
    let after = pdf::objects_in(kept);
    lemma_root_is_used(whole);
    let catalog = pdf::target_of(pdf::trailer_in(whole)["Root".spec_bytes()])->0;
    lemma_dictionary_is_kept(whole, kept, catalog);
    assert(pdf::entry_at(after, catalog, "Pages".spec_bytes()) == pdf::entry_at(
        before,
        catalog,
        "Pages".spec_bytes(),
    ));
    lemma_dictionary_is_kept(whole, kept, root);
    assert(pdf::entry_at(after, root, "Kids".spec_bytes()) == pdf::entry_at(
        before,
        root,
        "Kids".spec_bytes(),
    ));
    if let Some(value) = pdf::entry_at(before, root, "Kids".spec_bytes()) {
        if let Some(next) = pdf::target_of(value) {
            assert(pdf::mentions(value, next, 0));
            lemma_entry_is_used(whole, root, "Kids".spec_bytes(), next, 0);
            lemma_chain_is_kept(whole, kept, next, (pdf::DEREF_LIMIT - 1) as nat);
        }
    }
    if let Some(kids) = pdf::kids_at(before, root) {
        assert forall|i: int, key: Seq<u8>|
            0 <= i < kids.len() && kids[i] is Some implies #[trigger] pdf::entry_at(
            after,
            kids[i]->0,
            key,
        ) == pdf::entry_at(before, kids[i]->0, key) by {
            lemma_kids_are_used(whole, root, i);
            lemma_dictionary_is_kept(whole, kept, kids[i]->0);
        }
    }
}

} // verus!
