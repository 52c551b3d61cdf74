//! What holds of inherited attributes, said of the way down from the root to a page.

use vstd::prelude::*;
use vstd::string::*;

use crate::inherit;
use crate::inherit::{Inheritable, Walk};
use crate::pdf;
use crate::pdf::ObjectId;

verus! {

/// Whether `id` is among the kids that `node` lists.
pub open spec fn is_kid(
    objects: Map<ObjectId, lopdf::Object>,
    node: ObjectId,
    id: ObjectId,
) -> bool {
    pdf::kids_at(objects, node) matches Some(kids) && kids.contains(Some(id))
}

/// Whether `chain` goes down from `root`, from each node to a branch that is its kid.
pub open spec fn is_chain(
    objects: Map<ObjectId, lopdf::Object>,
    root: ObjectId,
    chain: Seq<ObjectId>,
) -> bool {
    &&& chain.len() > 0
    &&& chain[0] == root
    &&& forall|i: int|
        0 < i < chain.len() ==> is_kid(objects, chain[i - 1], #[trigger] chain[i])
            && pdf::has_type_at(objects, chain[i], "Pages".spec_bytes())
}

/// Whether `chain` goes down from `root` to a branch that lists the page `page`.
pub open spec fn leads_to_page(
    objects: Map<ObjectId, lopdf::Object>,
    root: ObjectId,
    chain: Seq<ObjectId>,
    page: ObjectId,
) -> bool {
    &&& is_chain(objects, root, chain)
    &&& is_kid(objects, chain.last(), page)
    &&& pdf::has_type_at(objects, page, "Page".spec_bytes())
}

/// Whether `value` is what the last node of `chain` that has anything under `key` has there,
/// or is nothing because none of them has.
pub open spec fn is_nearest(
    objects: Map<ObjectId, lopdf::Object>,
    chain: Seq<ObjectId>,
    key: Seq<u8>,
    value: Option<lopdf::Object>,
) -> bool {
    match value {
        Some(_) => exists|i: int|
            {
                &&& 0 <= i < chain.len()
                &&& pdf::entry_at(objects, #[trigger] chain[i], key) == value
                &&& forall|j: int|
                    i < j < chain.len() ==> pdf::entry_at(objects, #[trigger] chain[j], key) is None
            },
        None => forall|i: int|
            0 <= i < chain.len() ==> pdf::entry_at(objects, #[trigger] chain[i], key) is None,
    }
}

/// Whether a page was found with what is nearest to it on `chain`.
pub open spec fn found_on(
    objects: Map<ObjectId, lopdf::Object>,
    chain: Seq<ObjectId>,
    found: (ObjectId, Seq<(Inheritable, lopdf::Object)>),
) -> bool {
    forall|which: Inheritable|
        is_nearest(
            objects,
            chain,
            #[trigger] which.spec_key(),
            inherit::value_in(found.1, which),
        )
}

/// Each attribute goes by its own key, and they are these four.
pub proof fn law_the_attributes_go_by_their_own_keys(which: Inheritable)
    ensures
        which.spec_key() == (if which == Inheritable::MediaBox {
            "MediaBox".spec_bytes()
        } else if which == Inheritable::CropBox {
            "CropBox".spec_bytes()
        } else if which == Inheritable::Rotate {
            "Rotate".spec_bytes()
        } else {
            "Resources".spec_bytes()
        }),
{
}

/// One node further down, what is nearest is what that node has, or else what was nearest.
proof fn lemma_nearest_below(
    objects: Map<ObjectId, lopdf::Object>,
    chain: Seq<ObjectId>,
    node: ObjectId,
    key: Seq<u8>,
    value: Option<lopdf::Object>,
)
    requires
        is_nearest(objects, chain, key, value),
    ensures
        is_nearest(
            objects,
            chain.push(node),
            key,
            match pdf::entry_at(objects, node, key) {
                Some(own) => Some(own),
                None => value,
            },
        ),
{
    let longer = chain.push(node);
    match pdf::entry_at(objects, node, key) {
        Some(_) => {
            assert(longer[chain.len() as int] == node);
        },
        None => {
            if value is Some {
                let i = choose|i: int|
                    {
                        &&& 0 <= i < chain.len()
                        &&& pdf::entry_at(objects, #[trigger] chain[i], key) == value
                        &&& forall|j: int|
                            i < j < chain.len() ==> pdf::entry_at(
                                objects,
                                #[trigger] chain[j],
                                key,
                            ) is None
                    };
                assert(longer[i] == chain[i]);
                assert forall|j: int| i < j < longer.len() implies pdf::entry_at(
                    objects,
                    #[trigger] longer[j],
                    key,
                ) is None by {
                    if j < chain.len() {
                        assert(longer[j] == chain[j]);
                    }
                }
            } else {
                assert forall|j: int| 0 <= j < longer.len() implies pdf::entry_at(
                    objects,
                    #[trigger] longer[j],
                    key,
                ) is None by {
                    if j < chain.len() {
                        assert(longer[j] == chain[j]);
                    }
                }
            }
        },
    }
}

/// There is one nearest value.
proof fn lemma_nearest_is_one(
    objects: Map<ObjectId, lopdf::Object>,
    chain: Seq<ObjectId>,
    key: Seq<u8>,
    left: Option<lopdf::Object>,
    right: Option<lopdf::Object>,
)
    requires
        is_nearest(objects, chain, key, left),
        is_nearest(objects, chain, key, right),
    ensures
        left == right,
{
    if left is Some && right is Some {
        let i = choose|i: int|
            {
                &&& 0 <= i < chain.len()
                &&& pdf::entry_at(objects, #[trigger] chain[i], key) == left
                &&& forall|j: int|
                    i < j < chain.len() ==> pdf::entry_at(objects, #[trigger] chain[j], key) is None
            };
        let k = choose|i: int|
            {
                &&& 0 <= i < chain.len()
                &&& pdf::entry_at(objects, #[trigger] chain[i], key) == right
                &&& forall|j: int|
                    i < j < chain.len() ==> pdf::entry_at(objects, #[trigger] chain[j], key) is None
            };
        assert(i == k) by {
            if i < k {
                assert(pdf::entry_at(objects, chain[k], key) is None);
            }
            if k < i {
                assert(pdf::entry_at(objects, chain[i], key) is None);
            }
        }
    }
}

/// Whether `attributes` are what is nearest on `chain`.
spec fn in_force_on(
    objects: Map<ObjectId, lopdf::Object>,
    chain: Seq<ObjectId>,
    attributes: Seq<(Inheritable, lopdf::Object)>,
) -> bool {
    forall|which: Inheritable|
        is_nearest(
            objects,
            chain,
            #[trigger] which.spec_key(),
            inherit::value_in(attributes, which),
        )
}

proof fn lemma_in_force_below(
    objects: Map<ObjectId, lopdf::Object>,
    chain: Seq<ObjectId>,
    node: ObjectId,
    inherited: Seq<(Inheritable, lopdf::Object)>,
)
    requires
        in_force_on(objects, chain, inherited),
    ensures
        in_force_on(objects, chain.push(node), inherit::in_force(inherited, objects, node)),
{
    assert forall|which: Inheritable|
        is_nearest(
            objects,
            chain.push(node),
            #[trigger] which.spec_key(),
            inherit::value_in(inherit::in_force(inherited, objects, node), which),
        ) by {
        inherit::law_the_nearest_definition_wins(inherited, objects, node, which);
        lemma_nearest_below(
            objects,
            chain,
            node,
            which.spec_key(),
            inherit::value_in(inherited, which),
        );
    }
}

/// Whether every page found was found on a way down from `root`.
spec fn all_found(
    objects: Map<ObjectId, lopdf::Object>,
    root: ObjectId,
    walked: Walk,
) -> bool {
    forall|i: int|
        0 <= i < walked.pages.len() ==> found_somewhere(objects, root, #[trigger] walked.pages[i])
}

spec fn found_somewhere(
    objects: Map<ObjectId, lopdf::Object>,
    root: ObjectId,
    found: (ObjectId, Seq<(Inheritable, lopdf::Object)>),
) -> bool {
    exists|chain: Seq<ObjectId>|
        #[trigger] leads_to_page(objects, root, chain, found.0) && found_on(objects, chain, found)
}

/// Walking a branch finds pages on ways down through it. `above` is the way down to it.
proof fn lemma_walk_finds(
    document: lopdf::Document,
    root: ObjectId,
    above: Seq<ObjectId>,
    node: ObjectId,
    inherited: Seq<(Inheritable, lopdf::Object)>,
    depth: nat,
    before: Walk,
)
    requires
        is_chain(pdf::objects_in(document), root, above.push(node)),
        in_force_on(pdf::objects_in(document), above, inherited),
        all_found(pdf::objects_in(document), root, before),
    ensures
        inherit::walk(document, node, inherited, depth, before) matches Ok(after) ==> all_found(
            pdf::objects_in(document),
            root,
            after,
        ),
    decreases inherit::MAX_DEPTH + 1 - depth, 1nat, 0nat,
{
    let objects = pdf::objects_in(document);
    if depth <= inherit::MAX_DEPTH && !before.visited.contains(node) {
        if let Some(kids) = pdf::kids_at(objects, node) {
            lemma_in_force_below(objects, above, node, inherited);
            lemma_walk_kids_finds(
                document,
                root,
                above.push(node),
                kids,
                inherit::in_force(inherited, objects, node),
                depth,
                Walk { visited: before.visited.insert(node), ..before },
            );
        }
    }
}

proof fn lemma_walk_kids_finds(
    document: lopdf::Document,
    root: ObjectId,
    chain: Seq<ObjectId>,
    kids: Seq<Option<ObjectId>>,
    given: Seq<(Inheritable, lopdf::Object)>,
    depth: nat,
    before: Walk,
)
    requires
        depth <= inherit::MAX_DEPTH,
        is_chain(pdf::objects_in(document), root, chain),
        in_force_on(pdf::objects_in(document), chain, given),
        pdf::kids_at(pdf::objects_in(document), chain.last()) is Some,
        forall|i: int|
            0 <= i < kids.len() ==> pdf::kids_at(
                pdf::objects_in(document),
                chain.last(),
            )->0.contains(#[trigger] kids[i]),
        all_found(pdf::objects_in(document), root, before),
    ensures
        inherit::walk_kids(document, kids, given, depth, before) matches Ok(after) ==> all_found(
            pdf::objects_in(document),
            root,
            after,
        ),
    decreases inherit::MAX_DEPTH + 1 - depth, 0nat, kids.len(),
{
    let objects = pdf::objects_in(document);
    if kids.len() > 0 {
        let front = kids.drop_last();
        assert forall|i: int| 0 <= i < front.len() implies pdf::kids_at(
            objects,
            chain.last(),
        )->0.contains(#[trigger] front[i]) by {
            assert(front[i] == kids[i]);
        }
        lemma_walk_kids_finds(document, root, chain, front, given, depth, before);
        if let Ok(walked) = inherit::walk_kids(document, front, given, depth, before) {
            assert(kids.last() == kids[kids.len() - 1]);
            if let Some(id) = kids.last() {
                assert(is_kid(objects, chain.last(), id));
                if pdf::has_type_at(objects, id, "Page".spec_bytes()) {
                    assert(leads_to_page(objects, root, chain, id));
                    let more = walked.pages.push((id, given));
                    let entry = (id, given);
                    assert(leads_to_page(objects, root, chain, entry.0));
                    assert(found_on(objects, chain, entry));
                    assert(found_somewhere(objects, root, entry));
                    assert forall|i: int| 0 <= i < more.len() implies found_somewhere(
                        objects,
                        root,
                        #[trigger] more[i],
                    ) by {
                        if i < walked.pages.len() {
                            assert(more[i] == walked.pages[i]);
                        }
                    }
                } else if pdf::has_type_at(objects, id, "Pages".spec_bytes())
                    && depth < inherit::MAX_DEPTH {
                    lemma_chain_grows(objects, root, chain, id);
                    lemma_walk_finds(document, root, chain, id, given, depth + 1, walked);
                }
            }
        }
    }
}

proof fn lemma_chain_grows(
    objects: Map<ObjectId, lopdf::Object>,
    root: ObjectId,
    chain: Seq<ObjectId>,
    id: ObjectId,
)
    requires
        is_chain(objects, root, chain),
        is_kid(objects, chain.last(), id),
        pdf::has_type_at(objects, id, "Pages".spec_bytes()),
    ensures
        is_chain(objects, root, chain.push(id)),
{
    let longer = chain.push(id);
    assert forall|i: int| 0 < i < longer.len() implies is_kid(
        objects,
        longer[i - 1],
        #[trigger] longer[i],
    ) && pdf::has_type_at(objects, longer[i], "Pages".spec_bytes()) by {
        if i < chain.len() {
            assert(longer[i] == chain[i]);
            assert(longer[i - 1] == chain[i - 1]);
        }
    }
}

/// Every page that is found lies on a way down from the root, and what is recorded for it is,
/// for each attribute, what the nearest node above it on that way has, however long the way is;
/// it is nothing only where no node of the way has any.
pub proof fn law_a_page_inherits_from_the_nearest_node_above_it(
    document: lopdf::Document,
    root: ObjectId,
    i: int,
)
    requires
        inherit::pages_below(document, root) is Ok,
        0 <= i < inherit::pages_below(document, root)->Ok_0.pages.len(),
    ensures
        ({
            let objects = pdf::objects_in(document);
            let found = inherit::pages_below(document, root)->Ok_0.pages[i];
            exists|chain: Seq<ObjectId>|
                #[trigger] leads_to_page(objects, root, chain, found.0) && found_on(
                    objects,
                    chain,
                    found,
                )
        }),
{
    let objects = pdf::objects_in(document);
    let none = Seq::<(Inheritable, lopdf::Object)>::empty();
    let nothing = Walk { pages: Seq::empty(), visited: Set::empty() };
    assert(Seq::<ObjectId>::empty().push(root)[0] == root);
    lemma_walk_finds(document, root, Seq::empty(), root, none, 0, nothing);
    let found = inherit::pages_below(document, root)->Ok_0.pages[i];
    assert(found_somewhere(objects, root, found));
}

/// A walk only adds pages to those found before.
proof fn lemma_walk_adds(
    document: lopdf::Document,
    node: ObjectId,
    inherited: Seq<(Inheritable, lopdf::Object)>,
    depth: nat,
    before: Walk,
)
    ensures
        inherit::walk(document, node, inherited, depth, before) matches Ok(after)
            ==> before.pages.is_prefix_of(after.pages),
    decreases inherit::MAX_DEPTH + 1 - depth, 1nat, 0nat,
{
    if depth <= inherit::MAX_DEPTH && !before.visited.contains(node) {
        if let Some(kids) = pdf::kids_at(pdf::objects_in(document), node) {
            lemma_walk_kids_adds(
                document,
                kids,
                inherit::in_force(inherited, pdf::objects_in(document), node),
                depth,
                Walk { visited: before.visited.insert(node), ..before },
            );
        }
    }
}

proof fn lemma_walk_kids_adds(
    document: lopdf::Document,
    kids: Seq<Option<ObjectId>>,
    given: Seq<(Inheritable, lopdf::Object)>,
    depth: nat,
    before: Walk,
)
    requires
        depth <= inherit::MAX_DEPTH,
    ensures
        inherit::walk_kids(document, kids, given, depth, before) matches Ok(after)
            ==> before.pages.is_prefix_of(after.pages),
    decreases inherit::MAX_DEPTH + 1 - depth, 0nat, kids.len(),
{
    if kids.len() > 0 {
        lemma_walk_kids_adds(document, kids.drop_last(), given, depth, before);
        if let Ok(walked) = inherit::walk_kids(document, kids.drop_last(), given, depth, before) {
            if let Some(id) = kids.last() {
                let objects = pdf::objects_in(document);
                if pdf::has_type_at(objects, id, "Page".spec_bytes()) {
                    let more = walked.pages.push((id, given));
                    assert(before.pages =~= more.subrange(0, before.pages.len() as int)) by {
                        assert(before.pages =~= walked.pages.subrange(
                            0,
                            before.pages.len() as int,
                        ));
                    }
                } else if pdf::has_type_at(objects, id, "Pages".spec_bytes()) && depth
                    < inherit::MAX_DEPTH {
                    lemma_walk_adds(document, id, given, depth + 1, walked);
                    if let Ok(after) = inherit::walk(document, id, given, depth + 1, walked) {
                        assert(before.pages =~= after.pages.subrange(
                            0,
                            before.pages.len() as int,
                        )) by {
                            assert(before.pages =~= walked.pages.subrange(
                                0,
                                before.pages.len() as int,
                            ));
                            assert(walked.pages =~= after.pages.subrange(
                                0,
                                walked.pages.len() as int,
                            ));
                        }
                    }
                }
            }
        }
    }
}

/// Whether `page` is among the pages found, with what is nearest to it on `chain`.
pub open spec fn has_found(
    objects: Map<ObjectId, lopdf::Object>,
    pages: Seq<(ObjectId, Seq<(Inheritable, lopdf::Object)>)>,
    chain: Seq<ObjectId>,
    page: ObjectId,
) -> bool {
    exists|i: int|
        0 <= i < pages.len() && (#[trigger] pages[i]).0 == page && found_on(
            objects,
            chain,
            pages[i],
        )
}

proof fn lemma_still_found(
    objects: Map<ObjectId, lopdf::Object>,
    pages: Seq<(ObjectId, Seq<(Inheritable, lopdf::Object)>)>,
    more: Seq<(ObjectId, Seq<(Inheritable, lopdf::Object)>)>,
    chain: Seq<ObjectId>,
    page: ObjectId,
)
    requires
        pages.is_prefix_of(more),
        has_found(objects, pages, chain, page),
    ensures
        has_found(objects, more, chain, page),
{
    let i = choose|i: int|
        0 <= i < pages.len() && (#[trigger] pages[i]).0 == page && found_on(
            objects,
            chain,
            pages[i],
        );
    assert(more.subrange(0, pages.len() as int)[i] == more[i]);
    assert(more[i] == pages[i]);
}

/// Nothing says both that it is a page and that it is a branch.
proof fn lemma_a_page_is_no_branch(objects: Map<ObjectId, lopdf::Object>, id: ObjectId)
    ensures
        !(pdf::has_type_at(objects, id, "Page".spec_bytes()) && pdf::has_type_at(
            objects,
            id,
            "Pages".spec_bytes(),
        )),
{
    reveal_strlit("Page");
    reveal_strlit("Pages");
    assert("Page".is_ascii());
    assert("Pages".is_ascii());
    assert("Page".spec_bytes().len() == 4);
    assert("Pages".spec_bytes().len() == 5);
}

/// Walking a branch that is on a way down to a page finds the page.
proof fn lemma_walk_misses_none(
    document: lopdf::Document,
    root: ObjectId,
    chain: Seq<ObjectId>,
    page: ObjectId,
    at: int,
    inherited: Seq<(Inheritable, lopdf::Object)>,
    depth: nat,
    before: Walk,
)
    requires
        leads_to_page(pdf::objects_in(document), root, chain, page),
        0 <= at < chain.len(),
        in_force_on(pdf::objects_in(document), chain.take(at), inherited),
        inherit::walk(document, chain[at], inherited, depth, before) is Ok,
    ensures
        has_found(
            pdf::objects_in(document),
            inherit::walk(document, chain[at], inherited, depth, before)->Ok_0.pages,
            chain,
            page,
        ),
    decreases inherit::MAX_DEPTH + 1 - depth, 1nat, 0nat,
{
    let objects = pdf::objects_in(document);
    let node = chain[at];
    let kids = pdf::kids_at(objects, node)->0;
    lemma_in_force_below(objects, chain.take(at), node, inherited);
    assert(chain.take(at).push(node) =~= chain.take(at + 1));
    let next = if at + 1 < chain.len() {
        chain[at + 1]
    } else {
        page
    };
    assert(is_kid(objects, node, next)) by {
        if at + 1 < chain.len() {
            assert(is_kid(objects, chain[at + 1 - 1], chain[at + 1]));
        } else {
            assert(chain.last() == node);
        }
    }
    let j = choose|j: int| 0 <= j < kids.len() && kids[j] == Some(next);
    lemma_walk_kids_misses_none(
        document,
        root,
        chain,
        page,
        at,
        kids,
        j,
        inherit::in_force(inherited, objects, node),
        depth,
        Walk { visited: before.visited.insert(node), ..before },
    );
}

proof fn lemma_walk_kids_misses_none(
    document: lopdf::Document,
    root: ObjectId,
    chain: Seq<ObjectId>,
    page: ObjectId,
    at: int,
    kids: Seq<Option<ObjectId>>,
    j: int,
    given: Seq<(Inheritable, lopdf::Object)>,
    depth: nat,
    before: Walk,
)
    requires
        depth <= inherit::MAX_DEPTH,
        leads_to_page(pdf::objects_in(document), root, chain, page),
        0 <= at < chain.len(),
        in_force_on(pdf::objects_in(document), chain.take(at + 1), given),
        0 <= j < kids.len(),
        kids[j] == Some(
            if at + 1 < chain.len() {
                chain[at + 1]
            } else {
                page
            },
        ),
        inherit::walk_kids(document, kids, given, depth, before) is Ok,
    ensures
        has_found(
            pdf::objects_in(document),
            inherit::walk_kids(document, kids, given, depth, before)->Ok_0.pages,
            chain,
            page,
        ),
    decreases inherit::MAX_DEPTH + 1 - depth, 0nat, kids.len(),
{
    let objects = pdf::objects_in(document);
    let front = kids.drop_last();
    let walked = inherit::walk_kids(document, front, given, depth, before)->Ok_0;
    let after = inherit::walk_kids(document, kids, given, depth, before)->Ok_0;
    if j < front.len() {
        assert(front[j] == kids[j]);
        lemma_walk_kids_misses_none(
            document,
            root,
            chain,
            page,
            at,
            front,
            j,
            given,
            depth,
            before,
        );
        let grown = walked.pages.is_prefix_of(after.pages);
        assert(grown) by {
            if let Some(id) = kids.last() {
                if pdf::has_type_at(objects, id, "Page".spec_bytes()) {
                    assert(walked.pages =~= after.pages.subrange(0, walked.pages.len() as int));
                } else if pdf::has_type_at(objects, id, "Pages".spec_bytes()) {
                    lemma_walk_adds(document, id, given, depth + 1, walked);
                } else {
                    assert(walked.pages =~= after.pages.subrange(0, walked.pages.len() as int));
                }
            } else {
                assert(walked.pages =~= after.pages.subrange(0, walked.pages.len() as int));
            }
        }
        lemma_still_found(objects, walked.pages, after.pages, chain, page);
    } else {
        assert(kids.last() == kids[j]);
        let id = kids[j]->0;
        lemma_a_page_is_no_branch(objects, id);
        if at + 1 < chain.len() {
            assert(pdf::has_type_at(objects, chain[at + 1], "Pages".spec_bytes()));
            lemma_walk_misses_none(
                document,
                root,
                chain,
                page,
                at + 1,
                given,
                depth + 1,
                walked,
            );
        } else {
            assert(chain.take(at + 1) =~= chain);
            assert(after.pages[walked.pages.len() as int] == (page, given));
            assert(found_on(objects, chain, (page, given)));
        }
    }
}

/// No page is missed: each that a way down from the root leads to is found, with what is
/// nearest to it on that way.
pub proof fn law_no_page_below_the_root_is_missed(
    document: lopdf::Document,
    root: ObjectId,
    chain: Seq<ObjectId>,
    page: ObjectId,
)
    requires
        inherit::pages_below(document, root) is Ok,
        leads_to_page(pdf::objects_in(document), root, chain, page),
    ensures
        has_found(
            pdf::objects_in(document),
            inherit::pages_below(document, root)->Ok_0.pages,
            chain,
            page,
        ),
{
    assert(chain.take(0) =~= Seq::empty());
    lemma_walk_misses_none(
        document,
        root,
        chain,
        page,
        0,
        Seq::empty(),
        0,
        Walk { pages: Seq::empty(), visited: Set::empty() },
    );
}

/// Where everything that leads to `home` has the same to offer under a key, that is what is
/// offered.
proof fn lemma_offered_by_all(
    objects: Map<ObjectId, lopdf::Object>,
    pages: Seq<(ObjectId, Seq<(Inheritable, lopdf::Object)>)>,
    home: ObjectId,
    which: Inheritable,
    value: Option<lopdf::Object>,
)
    requires
        forall|j: int|
            0 <= j < pages.len() && pdf::chain_end(
                objects,
                (#[trigger] pages[j]).0,
                pdf::DEREF_LIMIT as nat,
            ) == Some(home) ==> inherit::value_in(pages[j].1, which) == value,
    ensures
        inherit::offered(objects, pages, home).contains_key(which.spec_key()) ==> value == Some(
            inherit::offered(objects, pages, home)[which.spec_key()],
        ),
        !inherit::offered(objects, pages, home).contains_key(which.spec_key()) ==> value is None
            || forall|j: int|
            0 <= j < pages.len() ==> pdf::chain_end(
                objects,
                (#[trigger] pages[j]).0,
                pdf::DEREF_LIMIT as nat,
            ) != Some(home),
    decreases pages.len(),
{
    if pages.len() > 0 {
        let earlier = pages.drop_last();
        assert forall|j: int|
            0 <= j < earlier.len() && pdf::chain_end(
                objects,
                (#[trigger] earlier[j]).0,
                pdf::DEREF_LIMIT as nat,
            ) == Some(home) implies inherit::value_in(earlier[j].1, which) == value by {
            assert(earlier[j] == pages[j]);
        }
        lemma_offered_by_all(objects, earlier, home, which, value);
        assert(pages.last() == pages[pages.len() - 1]);
        inherit::lemma_offer_is_the_value(pages.last().1, which);
        if !inherit::offered(objects, pages, home).contains_key(which.spec_key()) && value is Some {
            assert forall|j: int| 0 <= j < pages.len() implies pdf::chain_end(
                objects,
                (#[trigger] pages[j]).0,
                pdf::DEREF_LIMIT as nat,
            ) != Some(home) by {
                if j < earlier.len() {
                    assert(earlier[j] == pages[j]);
                }
            }
        }
    }
}

/// After everything inherited was written onto the pages, a page that one way leads down to has
/// its own value of each attribute, and where it had none the one of the nearest node above it
/// that has any, however far up that is.
pub proof fn law_a_page_ends_with_its_own_or_the_nearest_value(
    document: lopdf::Document,
    after: lopdf::Document,
    root: ObjectId,
    chain: Seq<ObjectId>,
    page: ObjectId,
    which: Inheritable,
)
    requires
        inherit::pages_below(document, root) is Ok,
        inherit::gaps_filled(
            pdf::objects_in(document),
            pdf::objects_in(after),
            |id: ObjectId|
                inherit::offered(
                    pdf::objects_in(document),
                    inherit::pages_below(document, root)->Ok_0.pages,
                    id,
                ),
        ),
        leads_to_page(pdf::objects_in(document), root, chain, page),
        forall|other: Seq<ObjectId>, id: ObjectId|
            #[trigger] leads_to_page(pdf::objects_in(document), root, other, id)
                && pdf::chain_end(pdf::objects_in(document), id, pdf::DEREF_LIMIT as nat)
                == pdf::chain_end(pdf::objects_in(document), page, pdf::DEREF_LIMIT as nat)
                ==> other == chain,
    ensures
        ({
            let own = pdf::entry_at(pdf::objects_in(document), page, which.spec_key());
            let value = pdf::entry_at(pdf::objects_in(after), page, which.spec_key());
            if own is Some {
                value == own
            } else {
                is_nearest(pdf::objects_in(document), chain, which.spec_key(), value)
            }
        }),
{
    let objects = pdf::objects_in(document);
    let pages = inherit::pages_below(document, root)->Ok_0.pages;
    let extra = |id: ObjectId| inherit::offered(objects, pages, id);
    let key = which.spec_key();
    if pdf::entry_at(objects, page, key) is Some {
        inherit::law_a_value_of_its_own_is_kept(objects, pdf::objects_in(after), extra, page, key);
    } else {
        law_no_page_below_the_root_is_missed(document, root, chain, page);
        let i = choose|i: int|
            0 <= i < pages.len() && (#[trigger] pages[i]).0 == page && found_on(
                objects,
                chain,
                pages[i],
            );
        let home = pdf::chain_end(objects, page, pdf::DEREF_LIMIT as nat)->0;
        let value = inherit::value_in(pages[i].1, which);
        assert(is_nearest(objects, chain, which.spec_key(), value));
        assert forall|j: int|
            0 <= j < pages.len() && pdf::chain_end(
                objects,
                (#[trigger] pages[j]).0,
                pdf::DEREF_LIMIT as nat,
            ) == Some(home) implies inherit::value_in(pages[j].1, which) == value by {
            law_a_page_inherits_from_the_nearest_node_above_it(document, root, j);
            let other = choose|other: Seq<ObjectId>|
                #[trigger] leads_to_page(objects, root, other, pages[j].0) && found_on(
                    objects,
                    other,
                    pages[j],
                );
            assert(other == chain);
            assert(is_nearest(
                objects,
                chain,
                which.spec_key(),
                inherit::value_in(pages[j].1, which),
            ));
            lemma_nearest_is_one(
                objects,
                chain,
                key,
                value,
                inherit::value_in(pages[j].1, which),
            );
        }
        lemma_offered_by_all(objects, pages, home, which, value);
        inherit::law_nothing_is_invented(objects, pdf::objects_in(after), extra, page, key);
        assert(pages[i].0 == page);
    }
}

/// Whether the branches below `root` form a tree that is not too deep: each lists its kids, no
/// branch twice, no two ways lead to one branch, and no way goes down more than two hundred and
/// fifty-six levels.
pub open spec fn is_tree(objects: Map<ObjectId, lopdf::Object>, root: ObjectId) -> bool {
    &&& forall|chain: Seq<ObjectId>| #[trigger]
        is_chain(objects, root, chain) ==> {
            &&& chain.len() <= 257
            &&& pdf::kids_at(objects, chain.last()) is Some
            &&& lists_no_branch_twice(objects, pdf::kids_at(objects, chain.last())->0)
        }
    &&& forall|left: Seq<ObjectId>, right: Seq<ObjectId>| #[trigger]
        is_chain(objects, root, left) && #[trigger] is_chain(objects, root, right) && left.last()
            == right.last() ==> left == right
}

/// Whether no branch is twice among `kids`.
pub open spec fn lists_no_branch_twice(
    objects: Map<ObjectId, lopdf::Object>,
    kids: Seq<Option<ObjectId>>,
) -> bool {
    forall|i: int, j: int|
        0 <= i < j < kids.len() && (#[trigger] kids[i]) is Some && kids[i] == #[trigger] kids[j]
            ==> !pdf::has_type_at(objects, kids[i]->0, "Pages".spec_bytes())
}

/// A way down to `id`.
spec fn way_to(
    objects: Map<ObjectId, lopdf::Object>,
    root: ObjectId,
    id: ObjectId,
) -> Seq<ObjectId> {
    choose|chain: Seq<ObjectId>| #[trigger] is_chain(objects, root, chain) && chain.last() == id
}

/// Whether every branch gone through is one that some way leads to, and not through `chain`.
spec fn elsewhere(
    objects: Map<ObjectId, lopdf::Object>,
    root: ObjectId,
    visited: Set<ObjectId>,
    chain: Seq<ObjectId>,
) -> bool {
    forall|id: ObjectId| #[trigger]
        visited.contains(id) ==> {
            &&& is_chain(objects, root, way_to(objects, root, id))
            &&& way_to(objects, root, id).last() == id
            &&& !chain.is_prefix_of(way_to(objects, root, id))
        }
}

/// Whether every branch gone through since is one that a way through `chain` leads to.
spec fn only_through(
    objects: Map<ObjectId, lopdf::Object>,
    root: ObjectId,
    before: Set<ObjectId>,
    after: Set<ObjectId>,
    chain: Seq<ObjectId>,
) -> bool {
    forall|id: ObjectId| #[trigger]
        after.contains(id) ==> before.contains(id) || {
            &&& is_chain(objects, root, way_to(objects, root, id))
            &&& way_to(objects, root, id).last() == id
            &&& chain.is_prefix_of(way_to(objects, root, id))
        }
}

proof fn lemma_walk_succeeds(
    document: lopdf::Document,
    root: ObjectId,
    above: Seq<ObjectId>,
    node: ObjectId,
    inherited: Seq<(Inheritable, lopdf::Object)>,
    before: Walk,
)
    requires
        is_tree(pdf::objects_in(document), root),
        is_chain(pdf::objects_in(document), root, above.push(node)),
        elsewhere(pdf::objects_in(document), root, before.visited, above.push(node)),
    ensures
        ({
            let after = inherit::walk(document, node, inherited, above.len(), before);
            &&& after is Ok
            &&& only_through(
                pdf::objects_in(document),
                root,
                before.visited,
                after->Ok_0.visited,
                above.push(node),
            )
        }),
    decreases 257 - above.len(), 1nat, 0nat,
{
    let objects = pdf::objects_in(document);
    let chain = above.push(node);
    assert(chain.last() == node);
    assert(way_to(objects, root, node) == chain);
    assert(chain.is_prefix_of(chain)) by {
        assert(chain =~= chain.subrange(0, chain.len() as int));
    }
    assert(!before.visited.contains(node));
    let kids = pdf::kids_at(objects, node)->0;
    assert(kids.take(kids.len() as int) =~= kids);
    let entered = Walk { visited: before.visited.insert(node), ..before };
    lemma_walk_kids_succeeds(
        document,
        root,
        chain,
        kids,
        kids.len() as int,
        inherit::in_force(inherited, objects, node),
        before.visited,
        entered,
    );
}

proof fn lemma_walk_kids_succeeds(
    document: lopdf::Document,
    root: ObjectId,
    chain: Seq<ObjectId>,
    kids: Seq<Option<ObjectId>>,
    n: int,
    given: Seq<(Inheritable, lopdf::Object)>,
    outside: Set<ObjectId>,
    entered: Walk,
)
    requires
        is_tree(pdf::objects_in(document), root),
        is_chain(pdf::objects_in(document), root, chain),
        Some(kids) == pdf::kids_at(pdf::objects_in(document), chain.last()),
        0 <= n <= kids.len(),
        elsewhere(pdf::objects_in(document), root, outside, chain),
        entered.visited == outside.insert(chain.last()),
    ensures
        ({
            let after = inherit::walk_kids(
                document,
                kids.take(n),
                given,
                (chain.len() - 1) as nat,
                entered,
            );
            &&& after is Ok
            &&& only_through(
                pdf::objects_in(document),
                root,
                outside,
                after->Ok_0.visited,
                chain,
            )
            &&& forall|j: int|
                n <= j < kids.len() && (#[trigger] kids[j]) is Some && pdf::has_type_at(
                    pdf::objects_in(document),
                    kids[j]->0,
                    "Pages".spec_bytes(),
                ) ==> elsewhere(
                    pdf::objects_in(document),
                    root,
                    after->Ok_0.visited,
                    chain.push(kids[j]->0),
                )
        }),
    decreases 258 - chain.len(), 0nat, n,
{
    let objects = pdf::objects_in(document);
    let depth = (chain.len() - 1) as nat;
    if n == 0 {
        assert(kids.take(0).len() == 0);
        assert(way_to(objects, root, chain.last()) == chain);
        assert(chain =~= chain.subrange(0, chain.len() as int));
        assert forall|j: int|
            0 <= j < kids.len() && (#[trigger] kids[j]) is Some && pdf::has_type_at(
                objects,
                kids[j]->0,
                "Pages".spec_bytes(),
            ) implies elsewhere(objects, root, entered.visited, chain.push(kids[j]->0)) by {
            let longer = chain.push(kids[j]->0);
            assert forall|id: ObjectId| #[trigger] entered.visited.contains(id) implies {
                &&& is_chain(objects, root, way_to(objects, root, id))
                &&& way_to(objects, root, id).last() == id
                &&& !longer.is_prefix_of(way_to(objects, root, id))
            } by {
                let way = way_to(objects, root, id);
                if longer.is_prefix_of(way) {
                    lemma_prefix_of_a_prefix(chain, kids[j]->0, way);
                }
            }
        }
    } else {
        let taken = kids.take(n);
        assert(taken.drop_last() =~= kids.take(n - 1));
        assert(taken.last() == kids[n - 1]);
        lemma_walk_kids_succeeds(document, root, chain, kids, n - 1, given, outside, entered);
        let walked = inherit::walk_kids(document, kids.take(n - 1), given, depth, entered)->Ok_0;
        let after = inherit::walk_kids(document, taken, given, depth, entered)->Ok_0;
        if let Some(id) = kids[n - 1] {
            lemma_a_page_is_no_branch(objects, id);
            if pdf::has_type_at(objects, id, "Pages".spec_bytes()) {
                let longer = chain.push(id);
                assert(kids.contains(Some(id)));
                lemma_chain_grows(objects, root, chain, id);
                lemma_walk_succeeds(document, root, chain, id, given, walked);
                assert forall|other: ObjectId| #[trigger]
                    after.visited.contains(other) implies outside.contains(other) || {
                    &&& is_chain(objects, root, way_to(objects, root, other))
                    &&& way_to(objects, root, other).last() == other
                    &&& chain.is_prefix_of(way_to(objects, root, other))
                } by {
                    if !walked.visited.contains(other) {
                        lemma_prefix_of_a_prefix(chain, id, way_to(objects, root, other));
                    }
                }
                assert forall|j: int|
                    n <= j < kids.len() && (#[trigger] kids[j]) is Some && pdf::has_type_at(
                        objects,
                        kids[j]->0,
                        "Pages".spec_bytes(),
                    ) implies elsewhere(objects, root, after.visited, chain.push(kids[j]->0)) by {
                    let next = chain.push(kids[j]->0);
                    assert(kids[n - 1] != kids[j]);
                    assert(elsewhere(objects, root, walked.visited, next));
                    assert forall|other: ObjectId| #[trigger]
                        after.visited.contains(other) implies {
                        &&& is_chain(objects, root, way_to(objects, root, other))
                        &&& way_to(objects, root, other).last() == other
                        &&& !next.is_prefix_of(way_to(objects, root, other))
                    } by {
                        if !walked.visited.contains(other) {
                            let way = way_to(objects, root, other);
                            assert(longer[chain.len() as int] == way[chain.len() as int]);
                            if next.is_prefix_of(way) {
                                assert(next[chain.len() as int] == way[chain.len() as int]);
                            }
                        }
                    }
                }
            }
        }
    }
}

proof fn lemma_prefix_of_a_prefix(chain: Seq<ObjectId>, id: ObjectId, way: Seq<ObjectId>)
    requires
        chain.push(id).is_prefix_of(way),
    ensures
        chain.is_prefix_of(way),
        way != chain,
{
    assert(chain.push(id) =~= way.subrange(0, (chain.len() + 1) as int));
    assert(chain =~= way.subrange(0, chain.len() as int)) by {
        assert forall|i: int| 0 <= i < chain.len() implies chain[i] == way[i] by {
            assert(chain.push(id)[i] == way.subrange(0, (chain.len() + 1) as int)[i]);
        }
    }
}

/// A page tree is walked to the end wherever it is one and is not too deep.
pub proof fn law_a_tree_is_walked_to_the_end(document: lopdf::Document, root: ObjectId)
    requires
        is_tree(pdf::objects_in(document), root),
    ensures
        inherit::pages_below(document, root) is Ok,
{
    assert(Seq::<ObjectId>::empty().push(root)[0] == root);
    lemma_walk_succeeds(
        document,
        root,
        Seq::empty(),
        root,
        Seq::empty(),
        Walk { pages: Seq::empty(), visited: Set::empty() },
    );
}

} // verus!
