//! What numbering a document anew keeps: its page tree, and what each page inherits in it.

use vstd::prelude::*;
use vstd::string::*;

use crate::inherit;
use crate::inherit::{Inheritable, InheritErrorView, Walk};
use crate::pdf;
use crate::pdf::ObjectId;
use crate::prune;

verus! {

/// Whether two values are alike at every depth, or both missing.
pub open spec fn same_value(
    before: Option<lopdf::Object>,
    after: Option<lopdf::Object>,
    names: Map<ObjectId, ObjectId>,
) -> bool {
    match (before, after) {
        (Some(left), Some(right)) => forall|depth: nat|
            #[trigger] pdf::alike(left, right, names, depth),
        (None, None) => true,
        _ => false,
    }
}

/// Whether a document whose page tree holds together was renumbered.
pub open spec fn renumbered_well(
    before: lopdf::Document,
    after: lopdf::Document,
    names: Map<ObjectId, ObjectId>,
) -> bool {
    pdf::tree_holds_together(before) && pdf::renames(before, after, names)
}

/// An object in use is there, and there again under its new id.
proof fn lemma_object(
    before: lopdf::Document,
    after: lopdf::Document,
    names: Map<ObjectId, ObjectId>,
    id: ObjectId,
    depth: nat,
)
    requires
        renumbered_well(before, after, names),
        prune::used(before, id),
        pdf::objects_in(before).contains_key(id),
    ensures
        names.contains_key(id),
        pdf::objects_in(after).contains_key(names[id]),
        pdf::alike(
            pdf::objects_in(before)[id],
            pdf::objects_in(after)[names[id]],
            names,
            depth,
        ),
{
    let steps = choose|steps: nat| #[trigger] pdf::in_use(before, id, steps);
    assert(pdf::in_use(before, id, steps));
    assert(pdf::objects_in(before).dom().contains(id));
    assert(names.dom().contains(id));
    assert(pdf::alike(
        pdf::objects_in(before)[id],
        pdf::objects_in(after)[names[id]],
        names,
        depth,
    ));
}

/// A chain of references ends at the new id of the object where it ended.
proof fn lemma_chain(
    before: lopdf::Document,
    after: lopdf::Document,
    names: Map<ObjectId, ObjectId>,
    id: ObjectId,
    hops: nat,
)
    requires
        renumbered_well(before, after, names),
        prune::used(before, id),
        pdf::chain_end(pdf::objects_in(before), id, hops) is Some,
    ensures
        ({
            let home = pdf::chain_end(pdf::objects_in(before), id, hops)->0;
            &&& pdf::chain_end(pdf::objects_in(after), names[id], hops) == Some(names[home])
            &&& prune::used(before, home)
            &&& pdf::objects_in(before).contains_key(home)
            &&& names.contains_key(home)
            &&& names.contains_key(id)
        }),
    decreases hops,
{
    lemma_object(before, after, names, id, 1);
    let object = pdf::objects_in(before)[id];
    if let Some(next) = pdf::target_of(object) {
        assert(pdf::mentions(object, next, 0));
        prune::lemma_mentioned_is_used(before, id, next, 0);
        lemma_chain(before, after, names, next, (hops - 1) as nat);
    }
}

/// A dictionary in use has alike entries.
proof fn lemma_entry(
    before: lopdf::Document,
    after: lopdf::Document,
    names: Map<ObjectId, ObjectId>,
    id: ObjectId,
    key: Seq<u8>,
)
    requires
        renumbered_well(before, after, names),
        prune::used(before, id),
        pdf::chain_end(pdf::objects_in(before), id, pdf::DEREF_LIMIT as nat) is Some,
    ensures
        pdf::dictionary_at(pdf::objects_in(after), names[id]) is Some == pdf::dictionary_at(
            pdf::objects_in(before),
            id,
        ) is Some,
        same_value(
            pdf::entry_at(pdf::objects_in(before), id, key),
            pdf::entry_at(pdf::objects_in(after), names[id], key),
            names,
        ),
{
    lemma_chain(before, after, names, id, pdf::DEREF_LIMIT as nat);
    if let Some(home) = pdf::chain_end(pdf::objects_in(before), id, pdf::DEREF_LIMIT as nat) {
        lemma_object(before, after, names, home, 1);
        if let Some(entries) = pdf::entries_of(pdf::objects_in(before)[home]) {
            let others = pdf::entries_of(pdf::objects_in(after)[names[home]])->0;
            assert(entries.dom().contains(key) == others.dom().contains(key));
            assert(entries.contains_key(key) == others.contains_key(key));
            if entries.contains_key(key) {
                assert forall|depth: nat| #[trigger] pdf::alike(
                    entries[key],
                    others[key],
                    names,
                    depth,
                ) by {
                    lemma_object(before, after, names, home, depth + 1);
                    assert(((depth + 1) - 1) as nat == depth);
                }
            }
        }
    }
}

/// What a node says it is stays the same.
proof fn lemma_type(
    before: lopdf::Document,
    after: lopdf::Document,
    names: Map<ObjectId, ObjectId>,
    id: ObjectId,
    name: Seq<u8>,
)
    requires
        renumbered_well(before, after, names),
        prune::used(before, id),
        pdf::chain_end(pdf::objects_in(before), id, pdf::DEREF_LIMIT as nat) is Some,
    ensures
        pdf::has_type_at(pdf::objects_in(after), names[id], name) == pdf::has_type_at(
            pdf::objects_in(before),
            id,
            name,
        ),
{
    lemma_entry(before, after, names, id, "Type".spec_bytes());
    let left = pdf::entry_at(pdf::objects_in(before), id, "Type".spec_bytes());
    let right = pdf::entry_at(pdf::objects_in(after), names[id], "Type".spec_bytes());
    if left is Some {
        assert(pdf::alike(left->0, right->0, names, 1));
    }
}

/// The new ids of kids.
pub open spec fn renamed_kids(
    kids: Seq<Option<ObjectId>>,
    names: Map<ObjectId, ObjectId>,
) -> Seq<Option<ObjectId>> {
    kids.map_values(
        |kid: Option<ObjectId>|
            match kid {
                Some(id) => Some(names[id]),
                None => None,
            },
    )
}

/// A node in use has the same kids, under their new ids.
proof fn lemma_kids(
    before: lopdf::Document,
    after: lopdf::Document,
    names: Map<ObjectId, ObjectId>,
    node: ObjectId,
)
    requires
        renumbered_well(before, after, names),
        prune::used(before, node),
        pdf::lists_kids(pdf::objects_in(before), node),
    ensures
        pdf::kids_at(pdf::objects_in(after), names[node]) == Some(
            renamed_kids(pdf::kids_at(pdf::objects_in(before), node)->0, names),
        ),
{
    let old = pdf::objects_in(before);
    let new = pdf::objects_in(after);
    let key = "Kids".spec_bytes();
    lemma_entry(before, after, names, node, key);
    if let Some(value) = pdf::entry_at(old, node, key) {
        let other = pdf::entry_at(new, names[node], key)->0;
        assert(pdf::alike(value, other, names, 1));
        assert(pdf::alike(value, other, names, 2));
        let (list, listed) = match pdf::target_of(value) {
            None => (value, other),
            Some(next) => {
                assert(pdf::mentions(value, next, 0));
                prune::lemma_entry_is_used(before, node, key, next, 0);
                lemma_chain(before, after, names, next, (pdf::DEREF_LIMIT - 1) as nat);
                let home = pdf::chain_end(old, next, (pdf::DEREF_LIMIT - 1) as nat)->0;
                lemma_object(before, after, names, home, 1);
                lemma_object(before, after, names, home, 2);
                (old[home], new[names[home]])
            },
        };
        if let Some(kids) = pdf::kids_at(old, node) {
            let items = pdf::items_of(list)->0;
            let others = pdf::items_of(listed)->0;
            assert(pdf::items_behind(old, value) == Some(items));
            assert(pdf::items_behind(new, other) == Some(others));
            assert forall|i: int| 0 <= i < items.len() implies pdf::target_of(
                #[trigger] others[i],
            ) == renamed_kids(kids, names)[i] by {
                assert(pdf::alike(items[i], others[i], names, 1));
                assert(kids[i] == pdf::target_of(items[i]));
                if kids[i] is Some {
                    prune::lemma_kids_are_used(before, node, i);
                    lemma_object(before, after, names, kids[i]->0, 0);
                }
            }
            assert(pdf::kids_at(new, names[node])->0 =~= renamed_kids(kids, names));
        }
    }
}

/// Whether two lists give alike values to the same attributes.
pub open spec fn same_attributes(
    before: Seq<(Inheritable, lopdf::Object)>,
    after: Seq<(Inheritable, lopdf::Object)>,
    names: Map<ObjectId, ObjectId>,
) -> bool {
    &&& after.len() == before.len()
    &&& forall|i: int|
        #![trigger before[i]]
        #![trigger after[i]]
        0 <= i < before.len() ==> {
            &&& after[i].0 == before[i].0
            &&& same_value(Some(before[i].1), Some(after[i].1), names)
        }
}

proof fn lemma_without(
    before: Seq<(Inheritable, lopdf::Object)>,
    after: Seq<(Inheritable, lopdf::Object)>,
    names: Map<ObjectId, ObjectId>,
    which: Inheritable,
)
    requires
        same_attributes(before, after, names),
    ensures
        same_attributes(
            inherit::without(before, which),
            inherit::without(after, which),
            names,
        ),
    decreases before.len(),
{
    if before.len() > 0 {
        let front = before.drop_last();
        let others = after.drop_last();
        assert forall|i: int|
            #![trigger front[i]]
            #![trigger others[i]]
            0 <= i < front.len() implies {
            &&& others[i].0 == front[i].0
            &&& same_value(Some(front[i].1), Some(others[i].1), names)
        } by {
            assert(front[i] == before[i]);
            assert(others[i] == after[i]);
        }
        lemma_without(front, others, names, which);
        assert(before.last() == before[before.len() - 1]);
        assert(after.last() == after[after.len() - 1]);
    }
}

proof fn lemma_redefined(
    before: lopdf::Document,
    after: lopdf::Document,
    names: Map<ObjectId, ObjectId>,
    node: ObjectId,
    given: Seq<(Inheritable, lopdf::Object)>,
    others: Seq<(Inheritable, lopdf::Object)>,
    which: Inheritable,
)
    requires
        renumbered_well(before, after, names),
        prune::used(before, node),
        pdf::chain_end(pdf::objects_in(before), node, pdf::DEREF_LIMIT as nat) is Some,
        same_attributes(given, others, names),
    ensures
        same_attributes(
            inherit::redefined(given, pdf::objects_in(before), node, which),
            inherit::redefined(others, pdf::objects_in(after), names[node], which),
            names,
        ),
{
    lemma_entry(before, after, names, node, which.spec_key());
    lemma_without(given, others, names, which);
}

/// What is in force below a node in use is alike.
proof fn lemma_in_force(
    before: lopdf::Document,
    after: lopdf::Document,
    names: Map<ObjectId, ObjectId>,
    node: ObjectId,
    given: Seq<(Inheritable, lopdf::Object)>,
    others: Seq<(Inheritable, lopdf::Object)>,
)
    requires
        renumbered_well(before, after, names),
        prune::used(before, node),
        pdf::chain_end(pdf::objects_in(before), node, pdf::DEREF_LIMIT as nat) is Some,
        same_attributes(given, others, names),
    ensures
        same_attributes(
            inherit::in_force(given, pdf::objects_in(before), node),
            inherit::in_force(others, pdf::objects_in(after), names[node]),
            names,
        ),
{
    let old = pdf::objects_in(before);
    let new = pdf::objects_in(after);
    let to = names[node];
    let g1 = inherit::redefined(given, old, node, Inheritable::Resources);
    let o1 = inherit::redefined(others, new, to, Inheritable::Resources);
    lemma_redefined(before, after, names, node, given, others, Inheritable::Resources);
    let g2 = inherit::redefined(g1, old, node, Inheritable::MediaBox);
    let o2 = inherit::redefined(o1, new, to, Inheritable::MediaBox);
    lemma_redefined(before, after, names, node, g1, o1, Inheritable::MediaBox);
    let g3 = inherit::redefined(g2, old, node, Inheritable::CropBox);
    let o3 = inherit::redefined(o2, new, to, Inheritable::CropBox);
    lemma_redefined(before, after, names, node, g2, o2, Inheritable::CropBox);
    lemma_redefined(before, after, names, node, g3, o3, Inheritable::Rotate);
}

/// Alike attributes have alike values.
pub proof fn lemma_value_in(
    before: Seq<(Inheritable, lopdf::Object)>,
    after: Seq<(Inheritable, lopdf::Object)>,
    names: Map<ObjectId, ObjectId>,
    which: Inheritable,
)
    requires
        same_attributes(before, after, names),
    ensures
        same_value(
            inherit::value_in(before, which),
            inherit::value_in(after, which),
            names,
        ),
    decreases before.len(),
{
    if before.len() > 0 {
        let front = before.drop_last();
        let others = after.drop_last();
        assert forall|i: int|
            #![trigger front[i]]
            #![trigger others[i]]
            0 <= i < front.len() implies {
            &&& others[i].0 == front[i].0
            &&& same_value(Some(front[i].1), Some(others[i].1), names)
        } by {
            assert(front[i] == before[i]);
            assert(others[i] == after[i]);
        }
        lemma_value_in(front, others, names, which);
        assert(before.last() == before[before.len() - 1]);
        assert(after.last() == after[after.len() - 1]);
    }
}

/// Whether two walks found the same pages with alike attributes, and went through the same
/// branches.
pub open spec fn same_walk(before: Walk, after: Walk, names: Map<ObjectId, ObjectId>) -> bool {
    &&& after.pages.len() == before.pages.len()
    &&& forall|i: int|
        #![trigger before.pages[i]]
        #![trigger after.pages[i]]
        0 <= i < before.pages.len() ==> {
            &&& names.contains_key(before.pages[i].0)
            &&& after.pages[i].0 == names[before.pages[i].0]
            &&& same_attributes(before.pages[i].1, after.pages[i].1, names)
        }
    &&& forall|id: ObjectId|
        names.contains_key(id) ==> (#[trigger] before.visited.contains(id) <==> after.visited.contains(
            names[id],
        ))
}

/// Whether two walks both came to an end, and alike, or both failed.
pub open spec fn same_outcome(
    before: Result<Walk, InheritErrorView>,
    after: Result<Walk, InheritErrorView>,
    names: Map<ObjectId, ObjectId>,
) -> bool {
    match (before, after) {
        (Ok(left), Ok(right)) => same_walk(left, right, names),
        (Err(_), Err(_)) => true,
        _ => false,
    }
}

/// Walking a branch comes to the same.
proof fn lemma_walk(
    before: lopdf::Document,
    after: lopdf::Document,
    names: Map<ObjectId, ObjectId>,
    node: ObjectId,
    given: Seq<(Inheritable, lopdf::Object)>,
    others: Seq<(Inheritable, lopdf::Object)>,
    depth: nat,
    left: Walk,
    right: Walk,
)
    requires
        renumbered_well(before, after, names),
        prune::used(before, node),
        pdf::is_branch(before, node),
        same_attributes(given, others, names),
        same_walk(left, right, names),
    ensures
        same_outcome(
            inherit::walk(before, node, given, depth, left),
            inherit::walk(after, names[node], others, depth, right),
            names,
        ),
    decreases inherit::MAX_DEPTH + 1 - depth, 1nat, 0nat,
{
    let steps = choose|steps: nat| #[trigger] pdf::in_use(before, node, steps);
    assert(pdf::in_use(before, node, steps));
    assert(pdf::lists_kids(pdf::objects_in(before), node));
    lemma_kids(before, after, names, node);
    lemma_chain(before, after, names, node, pdf::DEREF_LIMIT as nat);
    if depth <= inherit::MAX_DEPTH && !left.visited.contains(node) {
        if let Some(kids) = pdf::kids_at(pdf::objects_in(before), node) {
            let mine = Walk { visited: left.visited.insert(node), ..left };
            let theirs = Walk { visited: right.visited.insert(names[node]), ..right };
            lemma_in_force(before, after, names, node, given, others);
            assert forall|id: ObjectId| names.contains_key(id) implies (
            #[trigger] mine.visited.contains(id) <==> theirs.visited.contains(names[id])) by {
                assert(left.visited.contains(id) <==> right.visited.contains(names[id]));
                if names[id] == names[node] {
                    assert(id == node);
                }
            }
            assert forall|i: int| 0 <= i < kids.len() && (
            #[trigger] kids[i]) is Some implies prune::used(before, kids[i]->0) && pdf::chain_end(
                pdf::objects_in(before),
                kids[i]->0,
                pdf::DEREF_LIMIT as nat,
            ) is Some by {
                prune::lemma_kids_are_used(before, node, i);
            }
            lemma_walk_kids(
                before,
                after,
                names,
                kids,
                inherit::in_force(given, pdf::objects_in(before), node),
                inherit::in_force(others, pdf::objects_in(after), names[node]),
                depth,
                mine,
                theirs,
            );
        }
    }
}

/// Walking kids comes to the same.
proof fn lemma_walk_kids(
    before: lopdf::Document,
    after: lopdf::Document,
    names: Map<ObjectId, ObjectId>,
    kids: Seq<Option<ObjectId>>,
    given: Seq<(Inheritable, lopdf::Object)>,
    others: Seq<(Inheritable, lopdf::Object)>,
    depth: nat,
    left: Walk,
    right: Walk,
)
    requires
        renumbered_well(before, after, names),
        depth <= inherit::MAX_DEPTH,
        forall|i: int|
            0 <= i < kids.len() && (#[trigger] kids[i]) is Some ==> prune::used(before, kids[i]->0)
                && pdf::chain_end(
                pdf::objects_in(before),
                kids[i]->0,
                pdf::DEREF_LIMIT as nat,
            ) is Some,
        same_attributes(given, others, names),
        same_walk(left, right, names),
    ensures
        same_outcome(
            inherit::walk_kids(before, kids, given, depth, left),
            inherit::walk_kids(after, renamed_kids(kids, names), others, depth, right),
            names,
        ),
    decreases inherit::MAX_DEPTH + 1 - depth, 0nat, kids.len(),
{
    if kids.len() > 0 {
        let front = kids.drop_last();
        let renamed = renamed_kids(kids, names);
        assert(renamed.drop_last() =~= renamed_kids(front, names));
        assert forall|i: int| 0 <= i < front.len() && (
        #[trigger] front[i]) is Some implies prune::used(before, front[i]->0) && pdf::chain_end(
            pdf::objects_in(before),
            front[i]->0,
            pdf::DEREF_LIMIT as nat,
        ) is Some by {
            assert(front[i] == kids[i]);
        }
        lemma_walk_kids(before, after, names, front, given, others, depth, left, right);
        let mine = inherit::walk_kids(before, front, given, depth, left);
        let theirs = inherit::walk_kids(after, renamed_kids(front, names), others, depth, right);
        if let Ok(walked) = mine {
            let also = theirs->Ok_0;
            assert(kids.last() == kids[kids.len() - 1]);
            if let Some(id) = kids.last() {
                assert(renamed.last() == Some(names[id]));
                lemma_chain(before, after, names, id, pdf::DEREF_LIMIT as nat);
                lemma_type(before, after, names, id, "Page".spec_bytes());
                lemma_type(before, after, names, id, "Pages".spec_bytes());
                if pdf::has_type_at(pdf::objects_in(before), id, "Page".spec_bytes()) {
                    let more = Walk { pages: walked.pages.push((id, given)), ..walked };
                    let others_more = Walk {
                        pages: also.pages.push((names[id], others)),
                        ..also
                    };
                    assert forall|i: int|
                        #![trigger more.pages[i]]
                        #![trigger others_more.pages[i]]
                        0 <= i < more.pages.len() implies {
                        &&& names.contains_key(more.pages[i].0)
                        &&& others_more.pages[i].0 == names[more.pages[i].0]
                        &&& same_attributes(more.pages[i].1, others_more.pages[i].1, names)
                    } by {
                        if i < walked.pages.len() {
                            assert(more.pages[i] == walked.pages[i]);
                            assert(others_more.pages[i] == also.pages[i]);
                        }
                    }
                    assert(same_walk(more, others_more, names));
                } else if pdf::has_type_at(pdf::objects_in(before), id, "Pages".spec_bytes())
                    && depth < inherit::MAX_DEPTH {
                    lemma_walk(
                        before,
                        after,
                        names,
                        id,
                        given,
                        others,
                        depth + 1,
                        walked,
                        also,
                    );
                }
            }
        }
    }
}

/// Renumbering keeps the page tree: it starts at the new id of its root, and the same pages
/// hang below it, with alike attributes to inherit.
pub proof fn law_renumbering_keeps_the_page_tree(
    before: lopdf::Document,
    after: lopdf::Document,
    names: Map<ObjectId, ObjectId>,
)
    requires
        renumbered_well(before, after, names),
    ensures
        pdf::page_tree_of(after) == Some(names[pdf::page_tree_of(before)->0]),
        same_outcome(
            inherit::pages_below(before, pdf::page_tree_of(before)->0),
            inherit::pages_below(after, pdf::page_tree_of(after)->0),
            names,
        ),
{
    let root = pdf::page_tree_of(before)->0;
    let key = "Root".spec_bytes();
    prune::lemma_root_is_used(before);
    let value = pdf::trailer_in(before)[key];
    let catalog = pdf::target_of(value)->0;
    assert(pdf::trailer_in(before).contains_key(key));
    assert(pdf::alike(value, pdf::trailer_in(after)[key], names, 1));
    assert(pdf::trailer_in(after).dom().contains(key));
    lemma_chain(before, after, names, catalog, pdf::DEREF_LIMIT as nat);
    let steps = choose|steps: nat| #[trigger] pdf::in_use(before, root, steps);
    assert(pdf::in_use(before, root, steps));
    assert(pdf::lists_kids(pdf::objects_in(before), root));
    lemma_chain(before, after, names, root, pdf::DEREF_LIMIT as nat);
    lemma_entry(before, after, names, catalog, "Pages".spec_bytes());
    let pages = pdf::entry_at(pdf::objects_in(before), catalog, "Pages".spec_bytes())->0;
    let others = pdf::entry_at(
        pdf::objects_in(after),
        names[catalog],
        "Pages".spec_bytes(),
    )->0;
    assert(pdf::alike(pages, others, names, 1));
    let none = Seq::<(Inheritable, lopdf::Object)>::empty();
    let nothing = Walk { pages: Seq::empty(), visited: Set::empty() };
    lemma_walk(before, after, names, root, none, none, 0, nothing, nothing);
}

/// Whether every page found is in use, and says that it is a page.
pub open spec fn all_used(document: lopdf::Document, walked: Walk) -> bool {
    forall|i: int|
        0 <= i < walked.pages.len() ==> {
            let page = (#[trigger] walked.pages[i]).0;
            &&& prune::used(document, page)
            &&& pdf::has_type_at(pdf::objects_in(document), page, "Page".spec_bytes())
        }
}

/// The pages below a branch in use are in use.
proof fn lemma_walk_is_used(
    document: lopdf::Document,
    node: ObjectId,
    given: Seq<(Inheritable, lopdf::Object)>,
    depth: nat,
    walked: Walk,
)
    requires
        prune::used(document, node),
        all_used(document, walked),
    ensures
        inherit::walk(document, node, given, depth, walked) matches Ok(after) ==> all_used(
            document,
            after,
        ),
    decreases inherit::MAX_DEPTH + 1 - depth, 1nat, 0nat,
{
    if depth <= inherit::MAX_DEPTH && !walked.visited.contains(node) {
        if let Some(kids) = pdf::kids_at(pdf::objects_in(document), node) {
            assert forall|i: int| 0 <= i < kids.len() && (
            #[trigger] kids[i]) is Some implies prune::used(document, kids[i]->0) by {
                prune::lemma_kids_are_used(document, node, i);
            }
            lemma_walk_kids_are_used(
                document,
                kids,
                inherit::in_force(given, pdf::objects_in(document), node),
                depth,
                Walk { visited: walked.visited.insert(node), ..walked },
            );
        }
    }
}

/// The pages among kids in use, or below them, are in use.
proof fn lemma_walk_kids_are_used(
    document: lopdf::Document,
    kids: Seq<Option<ObjectId>>,
    given: Seq<(Inheritable, lopdf::Object)>,
    depth: nat,
    walked: Walk,
)
    requires
        depth <= inherit::MAX_DEPTH,
        forall|i: int|
            0 <= i < kids.len() && (#[trigger] kids[i]) is Some ==> prune::used(
                document,
                kids[i]->0,
            ),
        all_used(document, walked),
    ensures
        inherit::walk_kids(document, kids, given, depth, walked) matches Ok(after) ==> all_used(
            document,
            after,
        ),
    decreases inherit::MAX_DEPTH + 1 - depth, 0nat, kids.len(),
{
    if kids.len() > 0 {
        let front = kids.drop_last();
        assert forall|i: int| 0 <= i < front.len() && (
        #[trigger] front[i]) is Some implies prune::used(document, front[i]->0) by {
            assert(front[i] == kids[i]);
        }
        lemma_walk_kids_are_used(document, front, given, depth, walked);
        if let Ok(so_far) = inherit::walk_kids(document, front, given, depth, walked) {
            assert(kids.last() == kids[kids.len() - 1]);
            if let Some(id) = kids.last() {
                if pdf::has_type_at(pdf::objects_in(document), id, "Page".spec_bytes()) {
                    let more = so_far.pages.push((id, given));
                    assert forall|i: int| 0 <= i < more.len() implies {
                        let page = (#[trigger] more[i]).0;
                        &&& prune::used(document, page)
                        &&& pdf::has_type_at(pdf::objects_in(document), page, "Page".spec_bytes())
                    } by {
                        if i < so_far.pages.len() {
                            assert(more[i] == so_far.pages[i]);
                        }
                    }
                } else if pdf::has_type_at(pdf::objects_in(document), id, "Pages".spec_bytes())
                    && depth < inherit::MAX_DEPTH {
                    lemma_walk_is_used(document, id, given, depth + 1, so_far);
                }
            }
        }
    }
}

/// Whether no other page found leads where page `i` of `pages` leads.
pub open spec fn listed_once(
    objects: Map<ObjectId, lopdf::Object>,
    pages: Seq<(ObjectId, Seq<(Inheritable, lopdf::Object)>)>,
    i: int,
) -> bool {
    forall|j: int|
        0 <= j < pages.len() && j != i ==> pdf::chain_end(
            objects,
            (#[trigger] pages[j]).0,
            pdf::DEREF_LIMIT as nat,
        ) != pdf::chain_end(objects, pages[i].0, pdf::DEREF_LIMIT as nat)
}

/// What page `i` of those found below `root` shows of an attribute: its own value, or the one
/// in force where it is listed.
pub open spec fn attribute_of(
    document: lopdf::Document,
    root: ObjectId,
    i: int,
    which: Inheritable,
) -> Option<lopdf::Object> {
    let page = inherit::pages_below(document, root)->Ok_0.pages[i];
    match pdf::entry_at(pdf::objects_in(document), page.0, which.spec_key()) {
        Some(own) => Some(own),
        None => inherit::value_in(page.1, which),
    }
}

/// Renumbering keeps what each page is: it is found at the same place, it has alike entries,
/// and it shows alike attributes, of its own or inherited.
pub proof fn law_renumbering_keeps_each_page(
    before: lopdf::Document,
    after: lopdf::Document,
    names: Map<ObjectId, ObjectId>,
    i: int,
)
    requires
        renumbered_well(before, after, names),
        inherit::pages_below(before, pdf::page_tree_of(before)->0) is Ok,
        0 <= i < inherit::pages_below(before, pdf::page_tree_of(before)->0)->Ok_0.pages.len(),
    ensures
        ({
            let root = pdf::page_tree_of(before)->0;
            let found = inherit::pages_below(before, root)->Ok_0.pages;
            let again = inherit::pages_below(after, names[root]);
            &&& again is Ok
            &&& again->Ok_0.pages.len() == found.len()
            &&& again->Ok_0.pages[i].0 == names[found[i].0]
            &&& prune::used(before, found[i].0)
            &&& pdf::dictionary_at(pdf::objects_in(after), names[found[i].0]) is Some
                == pdf::dictionary_at(pdf::objects_in(before), found[i].0) is Some
            &&& listed_once(pdf::objects_in(before), found, i) ==> listed_once(
                pdf::objects_in(after),
                again->Ok_0.pages,
                i,
            )
            &&& forall|which: Inheritable|
                same_value(
                    #[trigger] attribute_of(before, root, i, which),
                    attribute_of(after, names[root], i, which),
                    names,
                )
        }),
{
    let root = pdf::page_tree_of(before)->0;
    law_renumbering_keeps_the_page_tree(before, after, names);
    prune::lemma_root_is_used(before);
    lemma_walk_is_used(
        before,
        root,
        Seq::empty(),
        0,
        Walk { pages: Seq::empty(), visited: Set::empty() },
    );
    let found = inherit::pages_below(before, root)->Ok_0.pages;
    let again = inherit::pages_below(after, names[root])->Ok_0.pages;
    assert(again[i].0 == names[found[i].0]);
    assert(prune::used(before, found[i].0));
    lemma_entry(before, after, names, found[i].0, Inheritable::Rotate.spec_key());
    let limit = pdf::DEREF_LIMIT as nat;
    if listed_once(pdf::objects_in(before), found, i) {
        assert forall|j: int| 0 <= j < again.len() && j != i implies pdf::chain_end(
            pdf::objects_in(after),
            (#[trigger] again[j]).0,
            limit,
        ) != pdf::chain_end(pdf::objects_in(after), again[i].0, limit) by {
            assert(again[j].0 == names[found[j].0]);
            assert(prune::used(before, found[j].0));
            lemma_chain(before, after, names, found[j].0, limit);
            lemma_chain(before, after, names, found[i].0, limit);
            assert(pdf::chain_end(pdf::objects_in(before), found[j].0, limit)
                != pdf::chain_end(pdf::objects_in(before), found[i].0, limit));
        }
    }
    assert forall|which: Inheritable|
        same_value(
            #[trigger] attribute_of(before, root, i, which),
            attribute_of(after, names[root], i, which),
            names,
        ) by {
        lemma_entry(before, after, names, found[i].0, which.spec_key());
        lemma_value_in(found[i].1, again[i].1, names, which);
    }
}

/// Renumbering keeps the entries of whatever the trailer leads to.
pub proof fn law_renumbering_keeps_entries(
    before: lopdf::Document,
    after: lopdf::Document,
    names: Map<ObjectId, ObjectId>,
    id: ObjectId,
    key: Seq<u8>,
)
    requires
        renumbered_well(before, after, names),
        prune::used(before, id),
        pdf::dictionary_at(pdf::objects_in(before), id) is Some,
    ensures
        same_value(
            pdf::entry_at(pdf::objects_in(before), id, key),
            pdf::entry_at(pdf::objects_in(after), names[id], key),
            names,
        ),
{
    lemma_entry(before, after, names, id, key);
}

} // verus!
