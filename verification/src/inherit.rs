//! Pushing inherited page attributes down onto the pages that inherit them.
//!
//! A PDF page tree may nest, and four attributes flow down it: `/Resources`, `/MediaBox`,
//! `/CropBox` and `/Rotate`. A page that does not define one of them uses the nearest
//! definition above it.
//!
//! Saving a reordered document flattens that tree so that every page hangs off the root,
//! which throws the structure away. If the values are not written onto the pages first, a
//! page that inherited from a branch silently changes size, changes rotation, or loses the
//! fonts it drew with. [`push_down`] runs before the flatten and makes every page
//! self-describing.

use vstd::prelude::*;
use vstd::string::*;

use crate::pdf;
use crate::pdf::ObjectId;
use crate::text;

verus! {

/// How deep the page tree may nest before it is refused. It is also how deep `lopdf` goes
/// when it lists the pages.
pub const MAX_DEPTH: usize = 256;

/// An attribute that a page inherits from the nodes above it: these four and no others.
///
/// They are inherited, never merged. A branch's `/Resources` replaces the one above it
/// wholesale, so only the nearest definition matters.
#[derive(Debug, Clone, Copy, PartialEq, Eq, Structural)]
pub enum Inheritable {
    Resources,
    MediaBox,
    CropBox,
    Rotate,
}

impl Inheritable {
    /// The key under which a dictionary holds it.
    pub open spec fn spec_key(self) -> Seq<u8> {
        match self {
            Inheritable::Resources => "Resources".spec_bytes(),
            Inheritable::MediaBox => "MediaBox".spec_bytes(),
            Inheritable::CropBox => "CropBox".spec_bytes(),
            Inheritable::Rotate => "Rotate".spec_bytes(),
        }
    }

    /// The key under which a dictionary holds it.
    pub fn key(self) -> (key: &'static str)
        ensures
            key.spec_bytes() == self.spec_key(),
    {
        match self {
            Inheritable::Resources => "Resources",
            Inheritable::MediaBox => "MediaBox",
            Inheritable::CropBox => "CropBox",
            Inheritable::Rotate => "Rotate",
        }
    }
}

/// Why the inherited attributes could not be resolved. Nothing was changed.
#[derive(Debug)]
pub enum InheritError {
    /// A branch is reachable from itself, so the tree is not a tree.
    Repeated(ObjectId),
    /// The tree nests deeper than [`MAX_DEPTH`].
    TooDeep,
    /// A node could not be read.
    Malformed(String),
}

/// What an [`InheritError`] says.
pub enum InheritErrorView {
    Repeated(ObjectId),
    TooDeep,
    Malformed(Seq<char>),
}

impl View for InheritError {
    type V = InheritErrorView;

    open spec fn view(&self) -> InheritErrorView {
        match self {
            InheritError::Repeated(id) => InheritErrorView::Repeated(*id),
            InheritError::TooDeep => InheritErrorView::TooDeep,
            InheritError::Malformed(text) => InheritErrorView::Malformed(text@),
        }
    }
}

impl InheritErrorView {
    /// The error in words.
    pub open spec fn message(self) -> Seq<char> {
        match self {
            InheritErrorView::Repeated(id) => "the page tree reaches node ("@ + text::decimal_text(
                id.0 as nat,
            ) + ", "@ + text::decimal_text(id.1 as nat) + ") twice, so it is not a tree"@,
            InheritErrorView::TooDeep => "the page tree nests more than 256 levels deep"@,
            InheritErrorView::Malformed(text) => text,
        }
    }
}

impl InheritError {
    /// The error in words.
    pub fn message(&self) -> (message: String)
        ensures
            message@ == self@.message(),
    {
        match self {
            InheritError::Repeated(id) => {
                let mut message = String::from_str("the page tree reaches node (");
                message.append(text::decimal(id.0 as usize).as_str());
                message.append(", ");
                message.append(text::decimal(id.1 as usize).as_str());
                message.append(") twice, so it is not a tree");
                message
            },
            InheritError::TooDeep => String::from_str(
                "the page tree nests more than 256 levels deep",
            ),
            InheritError::Malformed(text) => text.clone(),
        }
    }
}

/// Attributes and their values, as they are in force at some point of the tree.
pub type Attributes = Vec<(Inheritable, lopdf::Object)>;

/// `attributes` without any value for `which`.
pub open spec fn without(
    attributes: Seq<(Inheritable, lopdf::Object)>,
    which: Inheritable,
) -> Seq<(Inheritable, lopdf::Object)>
    decreases attributes.len(),
{
    if attributes.len() == 0 {
        Seq::empty()
    } else {
        let earlier = without(attributes.drop_last(), which);
        if attributes.last().0 == which {
            earlier
        } else {
            earlier.push(attributes.last())
        }
    }
}

/// `attributes` with what `node` itself defines of `which` in place of what it was given.
pub open spec fn redefined(
    attributes: Seq<(Inheritable, lopdf::Object)>,
    objects: Map<ObjectId, lopdf::Object>,
    node: ObjectId,
    which: Inheritable,
) -> Seq<(Inheritable, lopdf::Object)> {
    match pdf::entry_at(objects, node, which.spec_key()) {
        Some(value) => without(attributes, which).push((which, value)),
        None => attributes,
    }
}

/// What is in force below `node`, when `inherited` was in force above it.
pub open spec fn in_force(
    inherited: Seq<(Inheritable, lopdf::Object)>,
    objects: Map<ObjectId, lopdf::Object>,
    node: ObjectId,
) -> Seq<(Inheritable, lopdf::Object)> {
    let first = redefined(inherited, objects, node, Inheritable::Resources);
    let second = redefined(first, objects, node, Inheritable::MediaBox);
    let third = redefined(second, objects, node, Inheritable::CropBox);
    redefined(third, objects, node, Inheritable::Rotate)
}

/// The value that `attributes` has for `which`.
pub open spec fn value_in(
    attributes: Seq<(Inheritable, lopdf::Object)>,
    which: Inheritable,
) -> Option<lopdf::Object>
    decreases attributes.len(),
{
    if attributes.len() == 0 {
        None
    } else {
        match value_in(attributes.drop_last(), which) {
            Some(value) => Some(value),
            None => if attributes.last().0 == which {
                Some(attributes.last().1)
            } else {
                None
            },
        }
    }
}

/// The pages found so far, each with what it inherits, and the branches gone through.
#[verifier::ext_equal]
pub struct Walk {
    pub pages: Seq<(ObjectId, Seq<(Inheritable, lopdf::Object)>)>,
    pub visited: Set<ObjectId>,
}

/// The pages below the branch `node`, `depth` levels down, added to those found before.
pub open spec fn walk(
    document: lopdf::Document,
    node: ObjectId,
    inherited: Seq<(Inheritable, lopdf::Object)>,
    depth: nat,
    before: Walk,
) -> Result<Walk, InheritErrorView>
    decreases MAX_DEPTH + 1 - depth, 1nat, 0nat,
{
    if depth > MAX_DEPTH {
        Err(InheritErrorView::TooDeep)
    } else if before.visited.contains(node) {
        Err(InheritErrorView::Repeated(node))
    } else {
        match pdf::kids_at(pdf::objects_in(document), node) {
            None => Err(InheritErrorView::Malformed(pdf::kids_complaint(document, node))),
            Some(kids) => walk_kids(
                document,
                kids,
                in_force(inherited, pdf::objects_in(document), node),
                depth,
                Walk { visited: before.visited.insert(node), ..before },
            ),
        }
    }
}

/// The pages that are among `kids` or below them, added to those found before. A kid that
/// is neither a page nor a branch is passed over.
pub open spec fn walk_kids(
    document: lopdf::Document,
    kids: Seq<Option<ObjectId>>,
    given: Seq<(Inheritable, lopdf::Object)>,
    depth: nat,
    before: Walk,
) -> Result<Walk, InheritErrorView>
    decreases MAX_DEPTH + 1 - depth, 0nat, kids.len(),
{
    if kids.len() == 0 {
        Ok(before)
    } else {
        match walk_kids(document, kids.drop_last(), given, depth, before) {
            Err(error) => Err(error),
            Ok(walked) => match kids.last() {
                None => Ok(walked),
                Some(id) => if pdf::has_type_at(
                    pdf::objects_in(document),
                    id,
                    "Page".spec_bytes(),
                ) {
                    Ok(Walk { pages: walked.pages.push((id, given)), ..walked })
                } else if pdf::has_type_at(
                    pdf::objects_in(document),
                    id,
                    "Pages".spec_bytes(),
                ) {
                    if depth >= MAX_DEPTH {
                        Err(InheritErrorView::TooDeep)
                    } else {
                        walk(document, id, given, depth + 1, walked)
                    }
                } else {
                    Ok(walked)
                },
            },
        }
    }
}

/// The pages below `root`, each with what it inherits.
pub open spec fn pages_below(document: lopdf::Document, root: ObjectId) -> Result<
    Walk,
    InheritErrorView,
> {
    walk(document, root, Seq::empty(), 0, Walk { pages: Seq::empty(), visited: Set::empty() })
}

/// `document` with one attribute written onto `page`, unless the page has it.
pub open spec fn filled_one(
    document: lopdf::Document,
    page: ObjectId,
    attribute: (Inheritable, lopdf::Object),
) -> lopdf::Document {
    let objects = pdf::objects_in(document);
    let key = attribute.0.spec_key();
    if pdf::dictionary_at(objects, page) is Some && pdf::entry_at(objects, page, key) is None {
        pdf::entry_set(document, page, key, attribute.1)
    } else {
        document
    }
}

/// `document` with each attribute written onto `page` that the page lacks.
pub open spec fn filled(
    document: lopdf::Document,
    page: ObjectId,
    attributes: Seq<(Inheritable, lopdf::Object)>,
) -> lopdf::Document
    decreases attributes.len(),
{
    if attributes.len() == 0 {
        document
    } else {
        filled_one(filled(document, page, attributes.drop_last()), page, attributes.last())
    }
}

/// `document` with what each page inherits written onto it.
pub open spec fn filled_all(
    document: lopdf::Document,
    pages: Seq<(ObjectId, Seq<(Inheritable, lopdf::Object)>)>,
) -> lopdf::Document
    decreases pages.len(),
{
    if pages.len() == 0 {
        document
    } else {
        let earlier = filled_all(document, pages.drop_last());
        filled(earlier, pages.last().0, pages.last().1)
    }
}

/// The pages found so far and the branches gone through.
struct Walked {
    pages: Vec<(ObjectId, Attributes)>,
    visited: Vec<ObjectId>,
}

impl View for Walked {
    type V = Walk;

    closed spec fn view(&self) -> Walk {
        Walk {
            pages: self.pages@.map_values(
                |page: (ObjectId, Attributes)| (page.0, page.1@),
            ),
            visited: self.visited@.to_set(),
        }
    }
}

/// Whether `ids` holds `wanted`.
fn holds(ids: &[ObjectId], wanted: ObjectId) -> (held: bool)
    ensures
        held == ids@.contains(wanted),
{
    let mut i: usize = 0;
    while i < ids.len()
        invariant
            i <= ids.len(),
            forall|j: int| 0 <= j < i ==> ids@[j] != wanted,
        decreases ids.len() - i,
    {
        if ids[i].0 == wanted.0 && ids[i].1 == wanted.1 {
            return true;
        }
        i += 1;
    }
    false
}

/// A copy of `attributes`.
fn copied(attributes: &Attributes) -> (copy: Attributes)
    ensures
        copy@ == attributes@,
{
    let mut copy: Attributes = Vec::new();
    let mut i: usize = 0;
    while i < attributes.len()
        invariant
            i <= attributes.len(),
            copy@ == attributes@.take(i as int),
        decreases attributes.len() - i,
    {
        copy.push((attributes[i].0, pdf::duplicate(&attributes[i].1)));
        i += 1;
        proof {
            assert(copy@ =~= attributes@.take(i as int));
        }
    }
    proof {
        assert(attributes@.take(i as int) =~= attributes@);
    }
    copy
}

/// What `node` defines of `which` in place of what it was given.
fn redefine(
    document: &lopdf::Document,
    node: ObjectId,
    attributes: Attributes,
    which: Inheritable,
) -> (after: Attributes)
    ensures
        after@ == redefined(attributes@, pdf::objects_in(*document), node, which),
{
    let value = match pdf::entry(document, node, which.key()) {
        Some(value) => value,
        None => {
            return attributes;
        },
    };
    let mut kept: Attributes = Vec::new();
    let mut i: usize = 0;
    while i < attributes.len()
        invariant
            i <= attributes.len(),
            kept@ == without(attributes@.take(i as int), which),
        decreases attributes.len() - i,
    {
        proof {
            let next = attributes@.take(i + 1);
            assert(next.drop_last() =~= attributes@.take(i as int));
            assert(next.last() == attributes@[i as int]);
        }
        if attributes[i].0 != which {
            kept.push((attributes[i].0, pdf::duplicate(&attributes[i].1)));
        }
        i += 1;
    }
    proof {
        assert(attributes@.take(i as int) =~= attributes@);
    }
    kept.push((which, value));
    kept
}

/// What is in force below `node`.
fn enforce(document: &lopdf::Document, node: ObjectId, inherited: &Attributes) -> (after:
    Attributes)
    ensures
        after@ == in_force(inherited@, pdf::objects_in(*document), node),
{
    let first = redefine(document, node, copied(inherited), Inheritable::Resources);
    let second = redefine(document, node, first, Inheritable::MediaBox);
    let third = redefine(document, node, second, Inheritable::CropBox);
    redefine(document, node, third, Inheritable::Rotate)
}

/// Walks one branch, recording what each page below it should inherit.
///
/// Only branches are guarded against being reached twice: a page reached twice is malformed
/// but harmless, while a branch reached twice is a cycle.
fn collect(
    document: &lopdf::Document,
    node: ObjectId,
    inherited: &Attributes,
    depth: usize,
    walked: &mut Walked,
) -> (done: Result<(), InheritError>)
    requires
        depth <= MAX_DEPTH + 1,
    ensures
        match done {
            Ok(()) => walk(*document, node, inherited@, depth as nat, old(walked)@) == Ok::<
                Walk,
                InheritErrorView,
            >(final(walked)@),
            Err(error) => walk(*document, node, inherited@, depth as nat, old(walked)@) == Err::<
                Walk,
                InheritErrorView,
            >(error@),
        },
    decreases MAX_DEPTH + 1 - depth,
{
    if depth > MAX_DEPTH {
        return Err(InheritError::TooDeep);
    }
    if holds(walked.visited.as_slice(), node) {
        return Err(InheritError::Repeated(node));
    }
    let ghost before = walked@;
    walked.visited.push(node);
    proof {
        assert(walked@.visited =~= before.visited.insert(node)) by {
            broadcast use vstd::seq_lib::group_seq_properties;

        }
    }
    let ghost entered = walked@;
    let kids = match pdf::kids(document, node) {
        Ok(kids) => kids,
        Err(text) => {
            return Err(InheritError::Malformed(text));
        },
    };
    let given = enforce(document, node, inherited);
    let mut i: usize = 0;
    while i < kids.len()
        invariant
            i <= kids.len(),
            depth <= MAX_DEPTH,
            walk_kids(*document, kids@.take(i as int), given@, depth as nat, entered) == Ok::<
                Walk,
                InheritErrorView,
            >(walked@),
            walk(*document, node, inherited@, depth as nat, before) == walk_kids(
                *document,
                kids@,
                given@,
                depth as nat,
                entered,
            ),
            before == old(walked)@,
        decreases kids.len() - i,
    {
        let ghost so_far = walked@;
        let ghost next = kids@.take(i + 1);
        proof {
            assert(next.drop_last() =~= kids@.take(i as int));
            assert(next.last() == kids@[i as int]);
        }
        if let Some(id) = kids[i] {
            if pdf::has_type(document, id, "Page") {
                walked.pages.push((id, copied(&given)));
                proof {
                    assert(walked@.pages =~= so_far.pages.push((id, given@)));
                }
            } else if pdf::has_type(document, id, "Pages") {
                match collect(document, id, &given, depth + 1, walked) {
                    Ok(()) => {},
                    Err(error) => {
                        proof {
                            lemma_walk_kids_fails(
                                *document,
                                kids@,
                                given@,
                                depth as nat,
                                entered,
                                i + 1,
                            );
                        }
                        return Err(error);
                    },
                }
            }
        }
        i += 1;
    }
    proof {
        assert(kids@.take(i as int) =~= kids@);
    }
    Ok(())
}

/// Where the walk fails among the first kids it fails among all of them, in the same way.
proof fn lemma_walk_kids_fails(
    document: lopdf::Document,
    kids: Seq<Option<ObjectId>>,
    given: Seq<(Inheritable, lopdf::Object)>,
    depth: nat,
    before: Walk,
    n: int,
)
    requires
        0 <= n <= kids.len(),
        walk_kids(document, kids.take(n), given, depth, before) is Err,
    ensures
        walk_kids(document, kids, given, depth, before) == walk_kids(
            document,
            kids.take(n),
            given,
            depth,
            before,
        ),
    decreases kids.len(),
{
    if n == kids.len() {
        assert(kids.take(n) =~= kids);
    } else {
        assert(kids.drop_last().take(n) =~= kids.take(n));
        lemma_walk_kids_fails(document, kids.drop_last(), given, depth, before, n);
    }
}

/// What `attributes` offer a dictionary that lacks them.
pub open spec fn offer_of(attributes: Seq<(Inheritable, lopdf::Object)>) -> Map<
    Seq<u8>,
    lopdf::Object,
>
    decreases attributes.len(),
{
    if attributes.len() == 0 {
        Map::empty()
    } else {
        let last = attributes.last();
        let earlier = offer_of(attributes.drop_last());
        if earlier.contains_key(last.0.spec_key()) {
            earlier
        } else {
            earlier.insert(last.0.spec_key(), last.1)
        }
    }
}

/// What the pages that lead to `home` offer it, the first that offers a key being the one
/// that counts.
pub open spec fn offered(
    objects: Map<ObjectId, lopdf::Object>,
    pages: Seq<(ObjectId, Seq<(Inheritable, lopdf::Object)>)>,
    home: ObjectId,
) -> Map<Seq<u8>, lopdf::Object>
    decreases pages.len(),
{
    if pages.len() == 0 {
        Map::empty()
    } else {
        let earlier = offered(objects, pages.drop_last(), home);
        if pdf::chain_end(objects, pages.last().0, pdf::DEREF_LIMIT as nat) == Some(home) {
            offer_of(pages.last().1).union_prefer_right(earlier)
        } else {
            earlier
        }
    }
}

/// Whether `after` is `before` with `extra` filled into the dictionary at each id: what a
/// dictionary had it keeps, what it lacked it gets, and nothing else changes.
pub open spec fn gaps_filled(
    before: Map<ObjectId, lopdf::Object>,
    after: Map<ObjectId, lopdf::Object>,
    extra: spec_fn(ObjectId) -> Map<Seq<u8>, lopdf::Object>,
) -> bool {
    &&& before.dom() == after.dom()
    &&& forall|id: ObjectId|
        #![trigger after[id]]
        before.contains_key(id) ==> {
            &&& pdf::target_of(after[id]) == pdf::target_of(before[id])
            &&& match pdf::entries_of(before[id]) {
                Some(entries) => pdf::entries_of(after[id]) == Some(
                    extra(id).union_prefer_right(entries),
                ),
                None => after[id] == before[id],
            }
        }
}

/// Chains of references end where they did while no reference changes.
pub proof fn lemma_chain_end_stable(
    before: Map<ObjectId, lopdf::Object>,
    after: Map<ObjectId, lopdf::Object>,
    id: ObjectId,
    hops: nat,
)
    requires
        before.dom() == after.dom(),
        forall|other: ObjectId|
            #![trigger after[other]]
            before.contains_key(other) ==> pdf::target_of(after[other]) == pdf::target_of(
                before[other],
            ),
    ensures
        pdf::chain_end(after, id, hops) == pdf::chain_end(before, id, hops),
    decreases hops,
{
    assert(before.contains_key(id) == after.contains_key(id)) by {
        assert(before.dom().contains(id) == after.dom().contains(id));
    }
    if before.contains_key(id) {
        assert(pdf::target_of(after[id]) == pdf::target_of(before[id]));
        match pdf::target_of(before[id]) {
            Some(next) => {
                if hops > 0 {
                    lemma_chain_end_stable(before, after, next, (hops - 1) as nat);
                }
            },
            None => {},
        }
    }
}

/// A chain of references ends at an object of the table that is no reference.
pub proof fn lemma_chain_end_is_an_object(
    objects: Map<ObjectId, lopdf::Object>,
    id: ObjectId,
    hops: nat,
)
    ensures
        pdf::chain_end(objects, id, hops) matches Some(home) ==> objects.contains_key(home)
            && pdf::target_of(objects[home]) is None,
    decreases hops,
{
    if objects.contains_key(id) {
        match pdf::target_of(objects[id]) {
            Some(next) => {
                if hops > 0 {
                    lemma_chain_end_is_an_object(objects, next, (hops - 1) as nat);
                }
            },
            None => {},
        }
    }
}

/// Writes onto `page` each of `attributes` that it lacks.
fn fill(document: &mut lopdf::Document, page: ObjectId, attributes: &Attributes)
    ensures
        *final(document) == filled(*old(document), page, attributes@),
        gaps_filled(
            pdf::objects_in(*old(document)),
            pdf::objects_in(*final(document)),
            |id: ObjectId|
                if pdf::chain_end(pdf::objects_in(*old(document)), page, pdf::DEREF_LIMIT as nat)
                    == Some(id) {
                    offer_of(attributes@)
                } else {
                    Map::empty()
                },
        ),
        pdf::trailer_in(*final(document)) == pdf::trailer_in(*old(document)),
        pdf::max_id_in(*final(document)) == pdf::max_id_in(*old(document)),
        pdf::binary_mark_in(*final(document)) == pdf::binary_mark_in(*old(document)),
{
    let ghost before = pdf::objects_in(*document);
    let ghost home = pdf::chain_end(before, page, pdf::DEREF_LIMIT as nat);
    let mut i: usize = 0;
    proof {
        lemma_chain_end_is_an_object(before, page, pdf::DEREF_LIMIT as nat);
        assert forall|id: ObjectId|
            #![trigger before[id]]
            before.contains_key(id) implies match pdf::entries_of(before[id]) {
            Some(entries) => entries == Map::<Seq<u8>, lopdf::Object>::empty().union_prefer_right(
                entries,
            ),
            None => true,
        } by {
            if let Some(entries) = pdf::entries_of(before[id]) {
                assert(entries =~= Map::<Seq<u8>, lopdf::Object>::empty().union_prefer_right(
                    entries,
                ));
            }
        }
        assert(attributes@.take(0) =~= Seq::empty());
    }
    while i < attributes.len()
        invariant
            i <= attributes.len(),
            before == pdf::objects_in(*old(document)),
            home == pdf::chain_end(before, page, pdf::DEREF_LIMIT as nat),
            home matches Some(home) ==> before.contains_key(home) && pdf::target_of(
                before[home],
            ) is None,
            *document == filled(*old(document), page, attributes@.take(i as int)),
            gaps_filled(
                before,
                pdf::objects_in(*document),
                |id: ObjectId|
                    if home == Some(id) {
                        offer_of(attributes@.take(i as int))
                    } else {
                        Map::empty()
                    },
            ),
            pdf::trailer_in(*document) == pdf::trailer_in(*old(document)),
            pdf::max_id_in(*document) == pdf::max_id_in(*old(document)),
            pdf::binary_mark_in(*document) == pdf::binary_mark_in(*old(document)),
        decreases attributes.len() - i,
    {
        let ghost now = pdf::objects_in(*document);
        let ghost taken = attributes@.take(i as int);
        let ghost next = attributes@.take(i + 1);
        let ghost which = attributes@[i as int].0;
        let ghost value = attributes@[i as int].1;
        proof {
            assert(next.drop_last() =~= taken);
            assert(next.last() == attributes@[i as int]);
            lemma_chain_end_stable(before, now, page, pdf::DEREF_LIMIT as nat);
        }
        if pdf::entry(document, page, attributes[i].0.key()).is_none() {
            let copy = pdf::duplicate(&attributes[i].1);
            let done = pdf::set_entry(document, page, attributes[i].0.key(), copy);
            proof {
                if done is Ok {
                    let after = pdf::objects_in(*document);
                    let at = home->0;
                    let entries = pdf::entries_of(before[at])->0;
                    let filled_before = pdf::entries_of(now[at])->0;
                    assert(now.dom().contains(at));
                    assert(after.dom() =~= before.dom());
                    assert(filled_before == offer_of(taken).union_prefer_right(entries));
                    assert(!filled_before.contains_key(which.spec_key()));
                    assert(offer_of(next) == offer_of(taken).insert(which.spec_key(), value));
                    assert(filled_before.insert(which.spec_key(), value) =~= offer_of(
                        next,
                    ).union_prefer_right(entries));
                    assert forall|id: ObjectId|
                        #![trigger after[id]]
                        before.contains_key(id) && id != at implies after[id] == now[id] by {}
                } else {
                    assert(pdf::dictionary_at(now, page) is None);
                    if home is Some {
                        assert(pdf::entries_of(now[home->0]) is None);
                        assert(pdf::entries_of(before[home->0]) is None);
                    }
                }
            }
        } else {
            proof {
                let at = home->0;
                let entries = pdf::entries_of(before[at])->0;
                assert(pdf::entries_of(now[at]) == Some(
                    offer_of(taken).union_prefer_right(entries),
                ));
                assert(offer_of(next).union_prefer_right(entries) =~= offer_of(
                    taken,
                ).union_prefer_right(entries));
            }
        }
        i += 1;
    }
    proof {
        assert(attributes@.take(i as int) =~= attributes@);
    }
}

/// Writes every inherited attribute onto the page that inherits it.
///
/// Afterwards each page defines all the attributes it uses, so moving it anywhere in the
/// document cannot change how it renders. A page's own value wins over anything above it,
/// and nothing is removed from the nodes above. On an error nothing has changed.
pub fn push_down(document: &mut lopdf::Document, root: ObjectId) -> (done: Result<
    (),
    InheritError,
>)
    ensures
        match done {
            Ok(()) => {
                let found = pages_below(*old(document), root)->Ok_0;
                let before = pdf::objects_in(*old(document));
                &&& pages_below(*old(document), root) is Ok
                &&& *final(document) == filled_all(*old(document), found.pages)
                &&& gaps_filled(
                    before,
                    pdf::objects_in(*final(document)),
                    |id: ObjectId| offered(before, found.pages, id),
                )
                &&& pdf::trailer_in(*final(document)) == pdf::trailer_in(*old(document))
                &&& pdf::max_id_in(*final(document)) == pdf::max_id_in(*old(document))
                &&& pdf::binary_mark_in(*final(document)) == pdf::binary_mark_in(*old(document))
            },
            Err(error) => {
                &&& pages_below(*old(document), root) == Err::<Walk, InheritErrorView>(error@)
                &&& *final(document) == *old(document)
            },
        },
{
    let mut walked = Walked { pages: Vec::new(), visited: Vec::new() };
    proof {
        assert(walked@ =~= Walk { pages: Seq::empty(), visited: Set::empty() });
    }
    let none: Attributes = Vec::new();
    proof {
        assert(none@ =~= Seq::empty());
    }
    match collect(document, root, &none, 0, &mut walked) {
        Ok(()) => {},
        Err(error) => {
            return Err(error);
        },
    }
    let ghost before = pdf::objects_in(*document);
    let ghost found = walked@.pages;
    let mut i: usize = 0;
    proof {
        assert(found.take(0) =~= Seq::empty());
        assert forall|id: ObjectId|
            #![trigger before[id]]
            before.contains_key(id) implies match pdf::entries_of(before[id]) {
            Some(entries) => entries == Map::<Seq<u8>, lopdf::Object>::empty().union_prefer_right(
                entries,
            ),
            None => true,
        } by {
            if let Some(entries) = pdf::entries_of(before[id]) {
                assert(entries =~= Map::<Seq<u8>, lopdf::Object>::empty().union_prefer_right(
                    entries,
                ));
            }
        }
    }
    while i < walked.pages.len()
        invariant
            i <= walked.pages.len(),
            found == walked@.pages,
            found.len() == walked.pages.len(),
            before == pdf::objects_in(*old(document)),
            *document == filled_all(*old(document), found.take(i as int)),
            gaps_filled(
                before,
                pdf::objects_in(*document),
                |id: ObjectId| offered(before, found.take(i as int), id),
            ),
            pdf::trailer_in(*document) == pdf::trailer_in(*old(document)),
            pdf::max_id_in(*document) == pdf::max_id_in(*old(document)),
            pdf::binary_mark_in(*document) == pdf::binary_mark_in(*old(document)),
        decreases walked.pages.len() - i,
    {
        let ghost now = pdf::objects_in(*document);
        let ghost taken = found.take(i as int);
        let ghost next = found.take(i + 1);
        let ghost page = found[i as int].0;
        let ghost attributes = found[i as int].1;
        proof {
            assert(next.drop_last() =~= taken);
            assert(next.last() == found[i as int]);
            lemma_chain_end_stable(before, now, page, pdf::DEREF_LIMIT as nat);
        }
        fill(document, walked.pages[i].0, &walked.pages[i].1);
        i += 1;
        proof {
            let after = pdf::objects_in(*document);
            assert(next =~= taken.push((page, attributes)));
            lemma_gaps_filled_twice(before, now, after, taken, page, attributes);
        }
    }
    proof {
        assert(found.take(i as int) =~= found);
    }
    Ok(())
}

/// Gaps filled from the first pages and then from the next one are filled from all of them.
proof fn lemma_gaps_filled_twice(
    before: Map<ObjectId, lopdf::Object>,
    now: Map<ObjectId, lopdf::Object>,
    after: Map<ObjectId, lopdf::Object>,
    taken: Seq<(ObjectId, Seq<(Inheritable, lopdf::Object)>)>,
    page: ObjectId,
    attributes: Seq<(Inheritable, lopdf::Object)>,
)
    requires
        gaps_filled(before, now, |id: ObjectId| offered(before, taken, id)),
        gaps_filled(
            now,
            after,
            |id: ObjectId|
                if pdf::chain_end(now, page, pdf::DEREF_LIMIT as nat) == Some(id) {
                    offer_of(attributes)
                } else {
                    Map::empty()
                },
        ),
        pdf::chain_end(now, page, pdf::DEREF_LIMIT as nat) == pdf::chain_end(
            before,
            page,
            pdf::DEREF_LIMIT as nat,
        ),
    ensures
        gaps_filled(
            before,
            after,
            |id: ObjectId| offered(before, taken.push((page, attributes)), id),
        ),
{
    let all = taken.push((page, attributes));
    assert(all.drop_last() =~= taken);
    assert forall|id: ObjectId| #![trigger after[id]] before.contains_key(id) implies {
        &&& pdf::target_of(after[id]) == pdf::target_of(before[id])
        &&& match pdf::entries_of(before[id]) {
            Some(entries) => pdf::entries_of(after[id]) == Some(
                offered(before, all, id).union_prefer_right(entries),
            ),
            None => after[id] == before[id],
        }
    } by {
        assert(before.dom().contains(id));
        assert(now.contains_key(id));
        assert(pdf::target_of(now[id]) == pdf::target_of(before[id]));
        match pdf::entries_of(before[id]) {
            Some(entries) => {
                let earlier = offered(before, taken, id);
                let middle = earlier.union_prefer_right(entries);
                assert(pdf::entries_of(now[id]) == Some(middle));
                if pdf::chain_end(before, page, pdf::DEREF_LIMIT as nat) == Some(id) {
                    assert(offer_of(attributes).union_prefer_right(middle) =~= offered(
                        before,
                        all,
                        id,
                    ).union_prefer_right(entries));
                } else {
                    assert(Map::<Seq<u8>, lopdf::Object>::empty().union_prefer_right(middle)
                        =~= middle);
                }
            },
            None => {
                assert(now[id] == before[id]);
            },
        }
    }
}

/// Below a node, what the node itself defines is in force, and what it does not define is
/// whatever was in force above it: the nearest definition wins.
pub proof fn law_the_nearest_definition_wins(
    inherited: Seq<(Inheritable, lopdf::Object)>,
    objects: Map<ObjectId, lopdf::Object>,
    node: ObjectId,
    which: Inheritable,
)
    ensures
        value_in(in_force(inherited, objects, node), which) == (match pdf::entry_at(
            objects,
            node,
            which.spec_key(),
        ) {
            Some(value) => Some(value),
            None => value_in(inherited, which),
        }),
{
    let first = redefined(inherited, objects, node, Inheritable::Resources);
    let second = redefined(first, objects, node, Inheritable::MediaBox);
    let third = redefined(second, objects, node, Inheritable::CropBox);
    lemma_redefined_value(inherited, objects, node, Inheritable::Resources, which);
    lemma_redefined_value(first, objects, node, Inheritable::MediaBox, which);
    lemma_redefined_value(second, objects, node, Inheritable::CropBox, which);
    lemma_redefined_value(third, objects, node, Inheritable::Rotate, which);
}

proof fn lemma_redefined_value(
    attributes: Seq<(Inheritable, lopdf::Object)>,
    objects: Map<ObjectId, lopdf::Object>,
    node: ObjectId,
    which: Inheritable,
    asked: Inheritable,
)
    ensures
        value_in(redefined(attributes, objects, node, which), asked) == (if asked == which
            && pdf::entry_at(objects, node, which.spec_key()) is Some {
            pdf::entry_at(objects, node, which.spec_key())
        } else {
            value_in(attributes, asked)
        }),
{
    lemma_without_value(attributes, which, asked);
    if let Some(value) = pdf::entry_at(objects, node, which.spec_key()) {
        let kept = without(attributes, which);
        assert(kept.push((which, value)).drop_last() =~= kept);
    }
}

proof fn lemma_without_value(
    attributes: Seq<(Inheritable, lopdf::Object)>,
    which: Inheritable,
    asked: Inheritable,
)
    ensures
        value_in(without(attributes, which), asked) == (if asked == which {
            None
        } else {
            value_in(attributes, asked)
        }),
    decreases attributes.len(),
{
    if attributes.len() > 0 {
        let earlier = without(attributes.drop_last(), which);
        lemma_without_value(attributes.drop_last(), which, asked);
        if attributes.last().0 != which {
            assert(earlier.push(attributes.last()).drop_last() =~= earlier);
        }
    }
}

/// After gaps were filled, every dictionary keeps each value it had: a page's own value
/// wins.
pub proof fn law_a_value_of_its_own_is_kept(
    before: Map<ObjectId, lopdf::Object>,
    after: Map<ObjectId, lopdf::Object>,
    extra: spec_fn(ObjectId) -> Map<Seq<u8>, lopdf::Object>,
    id: ObjectId,
    key: Seq<u8>,
)
    requires
        gaps_filled(before, after, extra),
        pdf::entry_at(before, id, key) is Some,
    ensures
        pdf::entry_at(after, id, key) == pdf::entry_at(before, id, key),
{
    lemma_chain_end_stable(before, after, id, pdf::DEREF_LIMIT as nat);
    lemma_chain_end_is_an_object(before, id, pdf::DEREF_LIMIT as nat);
    let home = pdf::chain_end(before, id, pdf::DEREF_LIMIT as nat)->0;
    assert(pdf::target_of(after[home]) == pdf::target_of(before[home]));
}

/// After gaps were filled, a dictionary has a value it lacked only where one was offered:
/// nothing is invented.
pub proof fn law_nothing_is_invented(
    before: Map<ObjectId, lopdf::Object>,
    after: Map<ObjectId, lopdf::Object>,
    extra: spec_fn(ObjectId) -> Map<Seq<u8>, lopdf::Object>,
    id: ObjectId,
    key: Seq<u8>,
)
    requires
        gaps_filled(before, after, extra),
        pdf::dictionary_at(before, id) is Some,
        pdf::entry_at(before, id, key) is None,
    ensures
        ({
            let home = pdf::chain_end(before, id, pdf::DEREF_LIMIT as nat)->0;
            pdf::entry_at(after, id, key) == (if extra(home).contains_key(key) {
                Some(extra(home)[key])
            } else {
                None
            })
        }),
{
    lemma_chain_end_stable(before, after, id, pdf::DEREF_LIMIT as nat);
    lemma_chain_end_is_an_object(before, id, pdf::DEREF_LIMIT as nat);
    let home = pdf::chain_end(before, id, pdf::DEREF_LIMIT as nat)->0;
    assert(pdf::target_of(after[home]) == pdf::target_of(before[home]));
}

/// What attributes offer under a key is the value they have for it.
pub proof fn lemma_offer_is_the_value(
    attributes: Seq<(Inheritable, lopdf::Object)>,
    which: Inheritable,
)
    ensures
        offer_of(attributes).contains_key(which.spec_key()) == (value_in(
            attributes,
            which,
        ) is Some),
        value_in(attributes, which) matches Some(value) ==> offer_of(
            attributes,
        )[which.spec_key()] == value,
    decreases attributes.len(),
{
    if attributes.len() > 0 {
        lemma_offer_is_the_value(attributes.drop_last(), which);
        lemma_keys_differ(which, attributes.last().0);
    }
}

/// The four keys are different.
proof fn lemma_keys_differ(left: Inheritable, right: Inheritable)
    ensures
        (left.spec_key() == right.spec_key()) == (left == right),
{
    reveal_strlit("Resources");
    reveal_strlit("MediaBox");
    reveal_strlit("CropBox");
    reveal_strlit("Rotate");
    assert("Resources".is_ascii());
    assert("MediaBox".is_ascii());
    assert("CropBox".is_ascii());
    assert("Rotate".is_ascii());
    assert("Resources".spec_bytes().len() == 9);
    assert("MediaBox".spec_bytes().len() == 8);
    assert("CropBox".spec_bytes().len() == 7);
    assert("Rotate".spec_bytes().len() == 6);
}

/// A page that is listed once gets exactly what it inherits: where it has no value of its
/// own it ends with the value in force where it is listed, or with none where none is.
pub proof fn law_a_page_gets_what_it_inherits(
    before: Map<ObjectId, lopdf::Object>,
    after: Map<ObjectId, lopdf::Object>,
    pages: Seq<(ObjectId, Seq<(Inheritable, lopdf::Object)>)>,
    i: int,
    which: Inheritable,
)
    requires
        gaps_filled(before, after, |id: ObjectId| offered(before, pages, id)),
        0 <= i < pages.len(),
        pdf::dictionary_at(before, pages[i].0) is Some,
        forall|j: int|
            0 <= j < pages.len() && j != i ==> pdf::chain_end(
                before,
                (#[trigger] pages[j]).0,
                pdf::DEREF_LIMIT as nat,
            ) != pdf::chain_end(before, pages[i].0, pdf::DEREF_LIMIT as nat),
    ensures
        pdf::entry_at(after, pages[i].0, which.spec_key()) == (match pdf::entry_at(
            before,
            pages[i].0,
            which.spec_key(),
        ) {
            Some(own) => Some(own),
            None => value_in(pages[i].1, which),
        }),
{
    let extra = |id: ObjectId| offered(before, pages, id);
    let id = pages[i].0;
    let home = pdf::chain_end(before, id, pdf::DEREF_LIMIT as nat)->0;
    lemma_offered_once(before, pages, i);
    lemma_offer_is_the_value(pages[i].1, which);
    if pdf::entry_at(before, id, which.spec_key()) is Some {
        law_a_value_of_its_own_is_kept(before, after, extra, id, which.spec_key());
    } else {
        law_nothing_is_invented(before, after, extra, id, which.spec_key());
    }
}

proof fn lemma_offered_once(
    objects: Map<ObjectId, lopdf::Object>,
    pages: Seq<(ObjectId, Seq<(Inheritable, lopdf::Object)>)>,
    i: int,
)
    requires
        0 <= i < pages.len(),
        pdf::chain_end(objects, pages[i].0, pdf::DEREF_LIMIT as nat) is Some,
        forall|j: int|
            0 <= j < pages.len() && j != i ==> pdf::chain_end(
                objects,
                (#[trigger] pages[j]).0,
                pdf::DEREF_LIMIT as nat,
            ) != pdf::chain_end(objects, pages[i].0, pdf::DEREF_LIMIT as nat),
    ensures
        offered(
            objects,
            pages,
            pdf::chain_end(objects, pages[i].0, pdf::DEREF_LIMIT as nat)->0,
        ) == offer_of(pages[i].1),
    decreases pages.len(),
{
    let home = pdf::chain_end(objects, pages[i].0, pdf::DEREF_LIMIT as nat)->0;
    let earlier = pages.drop_last();
    if i == pages.len() - 1 {
        lemma_offered_nowhere(objects, earlier, home);
        assert(offer_of(pages[i].1).union_prefer_right(Map::empty()) =~= offer_of(pages[i].1));
    } else {
        assert(earlier[i] == pages[i]);
        assert forall|j: int| 0 <= j < earlier.len() && j != i implies pdf::chain_end(
            objects,
            (#[trigger] earlier[j]).0,
            pdf::DEREF_LIMIT as nat,
        ) != Some(home) by {
            assert(earlier[j] == pages[j]);
        }
        lemma_offered_once(objects, earlier, i);
        assert(pages.last() == pages[pages.len() - 1]);
    }
}

proof fn lemma_offered_nowhere(
    objects: Map<ObjectId, lopdf::Object>,
    pages: Seq<(ObjectId, Seq<(Inheritable, lopdf::Object)>)>,
    home: ObjectId,
)
    requires
        forall|j: int|
            0 <= j < pages.len() ==> pdf::chain_end(
                objects,
                (#[trigger] pages[j]).0,
                pdf::DEREF_LIMIT as nat,
            ) != Some(home),
    ensures
        offered(objects, pages, home) == Map::<Seq<u8>, lopdf::Object>::empty(),
    decreases pages.len(),
{
    if pages.len() > 0 {
        let earlier = pages.drop_last();
        assert forall|j: int| 0 <= j < earlier.len() implies pdf::chain_end(
            objects,
            (#[trigger] earlier[j]).0,
            pdf::DEREF_LIMIT as nat,
        ) != Some(home) by {
            assert(earlier[j] == pages[j]);
        }
        lemma_offered_nowhere(objects, earlier, home);
        assert(pages.last() == pages[pages.len() - 1]);
    }
}

} // verus!
