//! The parts of `lopdf` that saving uses, and what is known of them.
//!
//! A `lopdf::Document` is a table of numbered objects with a trailer. An object is one of
//! several kinds, of which four matter here: a reference to another object, a name, an
//! array and a dictionary. Everything in this module is a thin call into `lopdf`; what the
//! calls do is stated over the tables and kinds below and is not proved.

use vstd::prelude::*;
use vstd::string::*;

verus! {

/// The number and generation by which a document names one of its objects.
pub type ObjectId = (u32, u16);

/// How many references in a row `lopdf` follows before it gives up.
pub const DEREF_LIMIT: usize = 128;

/// A PDF document as `lopdf` holds it.
#[verifier::external_type_specification]
#[verifier::external_body]
pub struct ExDocument(lopdf::Document);

/// One object of a PDF document.
#[verifier::external_type_specification]
#[verifier::external_body]
pub struct ExObject(lopdf::Object);

/// The objects in a document's table, by id: its field `objects`.
pub uninterp spec fn objects_in(document: lopdf::Document) -> Map<ObjectId, lopdf::Object>;

/// The entries of a document's trailer: its field `trailer`.
pub uninterp spec fn trailer_in(document: lopdf::Document) -> Map<Seq<u8>, lopdf::Object>;

/// The highest object number a document says it uses: its field `max_id`.
pub uninterp spec fn max_id_in(document: lopdf::Document) -> u32;

/// The bytes that mark a document's file as binary: its field `binary_mark`.
pub uninterp spec fn binary_mark_in(document: lopdf::Document) -> Seq<u8>;

/// Whether the bytes that mark a document's file as binary are none that text has.
pub open spec fn well_marked(document: lopdf::Document) -> bool {
    forall|i: int|
        0 <= i < binary_mark_in(document).len() ==> #[trigger] binary_mark_in(document)[i] >= 128
}

/// The entries of an object that is a dictionary.
pub uninterp spec fn entries_of(object: lopdf::Object) -> Option<Map<Seq<u8>, lopdf::Object>>;

/// The items of an object that is an array.
pub uninterp spec fn items_of(object: lopdf::Object) -> Option<Seq<lopdf::Object>>;

/// The bytes of an object that is a name.
pub uninterp spec fn name_of(object: lopdf::Object) -> Option<Seq<u8>>;

/// The id that an object which is a reference refers to.
pub uninterp spec fn target_of(object: lopdf::Object) -> Option<ObjectId>;

/// The id at the end of the chain of references that starts at `id`, if the chain ends
/// after at most `hops` of them.
pub open spec fn chain_end(
    objects: Map<ObjectId, lopdf::Object>,
    id: ObjectId,
    hops: nat,
) -> Option<ObjectId>
    decreases hops,
{
    if !objects.contains_key(id) {
        None
    } else {
        match target_of(objects[id]) {
            None => Some(id),
            Some(next) => if hops == 0 {
                None
            } else {
                chain_end(objects, next, (hops - 1) as nat)
            },
        }
    }
}

/// The entries of the dictionary that `id` leads to.
pub open spec fn dictionary_at(objects: Map<ObjectId, lopdf::Object>, id: ObjectId) -> Option<
    Map<Seq<u8>, lopdf::Object>,
> {
    match chain_end(objects, id, DEREF_LIMIT as nat) {
        Some(home) => entries_of(objects[home]),
        None => None,
    }
}

/// What the dictionary that `id` leads to has under `key`.
pub open spec fn entry_at(
    objects: Map<ObjectId, lopdf::Object>,
    id: ObjectId,
    key: Seq<u8>,
) -> Option<lopdf::Object> {
    match dictionary_at(objects, id) {
        Some(entries) => if entries.contains_key(key) {
            Some(entries[key])
        } else {
            None
        },
        None => None,
    }
}

/// Whether the dictionary that `id` leads to says it is of this type.
pub open spec fn has_type_at(
    objects: Map<ObjectId, lopdf::Object>,
    id: ObjectId,
    name: Seq<u8>,
) -> bool {
    match entry_at(objects, id, "Type".spec_bytes()) {
        Some(value) => name_of(value) == Some(name),
        None => false,
    }
}

/// Whether `id` leads to a dictionary that says it is a page, or to nothing that says what it
/// is. Either way it is no branch of a page tree.
pub open spec fn stands_for_a_page(objects: Map<ObjectId, lopdf::Object>, id: ObjectId) -> bool {
    ||| has_type_at(objects, id, "Page".spec_bytes())
    ||| match entry_at(objects, id, "Type".spec_bytes()) {
        Some(value) => name_of(value) is None,
        None => true,
    }
}

/// The items of the array that `value` is, or refers to.
pub open spec fn items_behind(
    objects: Map<ObjectId, lopdf::Object>,
    value: lopdf::Object,
) -> Option<Seq<lopdf::Object>> {
    match target_of(value) {
        None => items_of(value),
        Some(next) => match chain_end(objects, next, (DEREF_LIMIT - 1) as nat) {
            Some(home) => items_of(objects[home]),
            None => None,
        },
    }
}

/// What each kid of the page tree node `id` refers to (`None` for one that is no
/// reference), if the node has a list of kids.
pub open spec fn kids_at(objects: Map<ObjectId, lopdf::Object>, id: ObjectId) -> Option<
    Seq<Option<ObjectId>>,
> {
    match entry_at(objects, id, "Kids".spec_bytes()) {
        Some(value) => match items_behind(objects, value) {
            Some(kids) => Some(kids.map_values(|kid: lopdf::Object| target_of(kid))),
            None => None,
        },
        None => None,
    }
}

/// Where a document's catalog says that its page tree starts.
pub open spec fn page_tree_of(document: lopdf::Document) -> Option<ObjectId> {
    if !trailer_in(document).contains_key("Root".spec_bytes()) {
        None
    } else {
        match target_of(trailer_in(document)["Root".spec_bytes()]) {
            Some(catalog) => match entry_at(objects_in(document), catalog, "Pages".spec_bytes()) {
                Some(value) => target_of(value),
                None => None,
            },
            None => None,
        }
    }
}

/// Whether a document says it uses no number below that of any of its objects.
pub open spec fn numbered(document: lopdf::Document) -> bool {
    forall|id: ObjectId|
        #[trigger] objects_in(document).contains_key(id) ==> id.0 <= max_id_in(document)
}

/// Whether `value` refers to `id`, itself or in what it holds down to `depth` levels of arrays
/// and dictionaries.
pub open spec fn mentions(value: lopdf::Object, id: ObjectId, depth: nat) -> bool
    decreases depth,
{
    ||| target_of(value) == Some(id)
    ||| depth > 0 && match items_of(value) {
        Some(items) => exists|i: int|
            0 <= i < items.len() && mentions(#[trigger] items[i], id, (depth - 1) as nat),
        None => false,
    }
    ||| depth > 0 && match entries_of(value) {
        Some(entries) => exists|key: Seq<u8>|
            entries.contains_key(key) && mentions(#[trigger] entries[key], id, (depth - 1) as nat),
        None => false,
    }
}

/// Whether the trailer of a document leads to `id` by way of at most `steps` objects.
pub open spec fn in_use(document: lopdf::Document, id: ObjectId, steps: nat) -> bool
    decreases steps,
{
    ||| exists|key: Seq<u8>, depth: nat|
        trailer_in(document).contains_key(key) && #[trigger] mentions(
            trailer_in(document)[key],
            id,
            depth,
        )
    ||| steps > 0 && exists|other: ObjectId, depth: nat|
        {
            &&& in_use(document, other, (steps - 1) as nat)
            &&& objects_in(document).contains_key(other)
            &&& #[trigger] mentions(objects_in(document)[other], id, depth)
        }
}

/// The ids that an object refers to, itself or anywhere in what it holds.
pub uninterp spec fn references_in(object: lopdf::Object) -> Set<ObjectId>;

/// Whether `id` is where the page tree of a document starts, or says that it is a branch of one.
pub open spec fn is_branch(document: lopdf::Document, id: ObjectId) -> bool {
    page_tree_of(document) == Some(id) || has_type_at(
        objects_in(document),
        id,
        "Pages".spec_bytes(),
    )
}

/// Whether the page tree node `id` has a list of kids, none of which leads nowhere.
pub open spec fn lists_kids(objects: Map<ObjectId, lopdf::Object>, id: ObjectId) -> bool {
    match kids_at(objects, id) {
        Some(kids) => forall|i: int|
            0 <= i < kids.len() && (#[trigger] kids[i]) is Some ==> chain_end(
                objects,
                kids[i]->0,
                DEREF_LIMIT as nat,
            ) is Some,
        None => false,
    }
}

/// Whether the page tree of a document holds together. It can be found, each branch of it that
/// the trailer leads to lists its kids, and no kid leads nowhere. No page is listed twice, none
/// leads nowhere, and none has a number that another object has too. Nothing is asked of what
/// else the document holds.
pub open spec fn tree_holds_together(document: lopdf::Document) -> bool {
    let objects = objects_in(document);
    let pages = pages_in(document);
    &&& page_tree_of(document) is Some
    &&& forall|id: ObjectId, steps: nat|
        #[trigger] in_use(document, id, steps) && is_branch(document, id) ==> lists_kids(
            objects,
            id,
        )
    &&& pages.no_duplicates()
    &&& forall|i: int|
        0 <= i < pages.len() ==> chain_end(
            objects,
            #[trigger] pages[i],
            DEREF_LIMIT as nat,
        ) is Some
    &&& forall|i: int, id: ObjectId|
        0 <= i < pages.len() && #[trigger] objects.contains_key(id) && id.0 == (
        #[trigger] pages[i]).0 ==> id == pages[i]
}

/// Whether `after` is `before` but for what references are renamed to, down to `depth` levels of
/// arrays and dictionaries. What refers to nothing is the same. A reference to nothing stays a
/// reference, of which no more is said.
pub open spec fn alike(
    before: lopdf::Object,
    after: lopdf::Object,
    names: Map<ObjectId, ObjectId>,
    depth: nat,
) -> bool
    decreases depth,
{
    depth > 0 ==> {
        &&& references_in(before) == Set::<ObjectId>::empty() ==> after == before
        &&& name_of(after) == name_of(before)
        &&& match target_of(before) {
            Some(id) => {
                &&& target_of(after) is Some
                &&& names.contains_key(id) ==> target_of(after) == Some(names[id])
            },
            None => target_of(after) is None,
        }
        &&& match items_of(before) {
            Some(items) => {
                &&& items_of(after) is Some
                &&& items_of(after)->0.len() == items.len()
                &&& forall|i: int|
                    #![trigger items[i]]
                    #![trigger items_of(after)->0[i]]
                    0 <= i < items.len() ==> alike(
                        items[i],
                        items_of(after)->0[i],
                        names,
                        (depth - 1) as nat,
                    )
            },
            None => items_of(after) is None,
        }
        &&& match entries_of(before) {
            Some(entries) => {
                &&& entries_of(after) is Some
                &&& entries_of(after)->0.dom() == entries.dom()
                &&& forall|key: Seq<u8>|
                    #![trigger entries[key]]
                    #![trigger entries_of(after)->0[key]]
                    entries.contains_key(key) ==> alike(
                        entries[key],
                        entries_of(after)->0[key],
                        names,
                        (depth - 1) as nat,
                    )
            },
            None => entries_of(after) is None,
        }
    }
}

/// Whether `after` is `before` with each object under the new id that `names` gives it: the
/// same pages, and, as far as the trailer leads, the same objects but for their references.
pub open spec fn renames(
    before: lopdf::Document,
    after: lopdf::Document,
    names: Map<ObjectId, ObjectId>,
) -> bool {
    &&& names.dom() == objects_in(before).dom()
    &&& forall|left: ObjectId, right: ObjectId|
        names.contains_key(left) && names.contains_key(right) && #[trigger] names[left]
            == #[trigger] names[right] ==> left == right
    &&& forall|id: ObjectId, steps: nat, depth: nat|
        #![trigger in_use(before, id, steps), alike(
            objects_in(before)[id],
            objects_in(after)[names[id]],
            names,
            depth,
        )]
        in_use(before, id, steps) && objects_in(before).contains_key(id) ==> {
            &&& objects_in(after).contains_key(names[id])
            &&& alike(objects_in(before)[id], objects_in(after)[names[id]], names, depth)
        }
    &&& trailer_in(after).dom() == trailer_in(before).dom()
    &&& forall|key: Seq<u8>, depth: nat|
        trailer_in(before).contains_key(key) ==> #[trigger] alike(
            trailer_in(before)[key],
            trailer_in(after)[key],
            names,
            depth,
        )
    &&& pages_in(after) == pages_in(before).map_values(|id: ObjectId| names[id])
}

/// Whether `document` is what `lopdf::Document::load_mem` made of a file that holds `bytes`.
/// There can be more than one such document: where a damaged file defines one object twice,
/// which definition is kept can depend on the order in which worker threads finish.
pub uninterp spec fn loads_as(bytes: Seq<u8>, document: lopdf::Document) -> bool;

/// What `lopdf::Document::load_mem` says of bytes that it cannot read a document from.
pub uninterp spec fn load_complaint(bytes: Seq<u8>) -> Option<Seq<char>>;

/// What `lopdf` says of a document whose page tree cannot be found.
pub uninterp spec fn root_complaint(document: lopdf::Document) -> Seq<char>;

/// What `lopdf` says of a node whose kids cannot be listed.
pub uninterp spec fn kids_complaint(document: lopdf::Document, id: ObjectId) -> Seq<char>;

/// What `lopdf` says of an id that leads to no dictionary.
pub uninterp spec fn dictionary_complaint(document: lopdf::Document, id: ObjectId) -> Seq<char>;

/// The pages that `lopdf::Document::get_pages` finds, in order.
pub uninterp spec fn pages_in(document: lopdf::Document) -> Seq<ObjectId>;

/// `lopdf::Object::Reference`.
pub uninterp spec fn reference_object(id: ObjectId) -> lopdf::Object;

/// `lopdf::Object::Array`.
pub uninterp spec fn array_object(items: Seq<lopdf::Object>) -> lopdf::Object;

/// `lopdf::Object::Integer`.
pub uninterp spec fn integer_object(value: i64) -> lopdf::Object;

/// A document after `lopdf::Dictionary::set` on the dictionary that `id` leads to.
pub uninterp spec fn entry_set(
    document: lopdf::Document,
    id: ObjectId,
    key: Seq<u8>,
    value: lopdf::Object,
) -> lopdf::Document;

/// A document after `lopdf::Document::renumber_objects_with`.
pub uninterp spec fn renumbered(document: lopdf::Document, start: u32) -> lopdf::Document;

/// A document after the objects of another were added to its table.
pub uninterp spec fn absorbed(
    document: lopdf::Document,
    other: lopdf::Document,
) -> lopdf::Document;

/// A document after its field `max_id` was written.
pub uninterp spec fn with_max_id(document: lopdf::Document, id: u32) -> lopdf::Document;

/// A document after `lopdf::Document::prune_objects`.
pub uninterp spec fn pruned(document: lopdf::Document) -> lopdf::Document;

/// The file that `lopdf::Document::save_to` writes, or its complaint.
pub uninterp spec fn written(document: lopdf::Document) -> Result<Seq<u8>, Seq<char>>;

/// `lopdf::Document::load_mem`: reads a document from the bytes of a file. No object of it
/// has a number above the highest that the document says it uses, and its binary mark has no
/// byte that text has.
///
/// What the document holds is not stated beyond that. Where the length of a stream is given by
/// another object, that object is read first, and so on along the chain, which ends with an
/// error where it comes back to an object already on it. Such a chain can be as long as the
/// file has streams, and each of its links takes up stack.
#[verifier::external_body]
pub(crate) fn load(bytes: &[u8]) -> (loaded: Result<lopdf::Document, String>)
    ensures
        match loaded {
            Ok(document) => {
                &&& loads_as(bytes@, document)
                &&& load_complaint(bytes@) is None
                &&& numbered(document)
                &&& forall|i: int|
                    0 <= i < binary_mark_in(document).len() ==> #[trigger] binary_mark_in(
                        document,
                    )[i] >= 128
            },
            Err(text) => load_complaint(bytes@) == Some(text@),
        },
{
    lopdf::Document::load_mem(bytes).map_err(|error| error.to_string())
}

/// `lopdf::Document::catalog` and `lopdf::Dictionary::get`: where the page tree starts.
#[verifier::external_body]
pub(crate) fn page_tree_root(document: &lopdf::Document) -> (root: Result<ObjectId, String>)
    ensures
        match root {
            Ok(id) => page_tree_of(*document) == Some(id),
            Err(text) => page_tree_of(*document) is None && text@ == root_complaint(*document),
        },
{
    document
        .catalog()
        .and_then(|catalog| catalog.get(b"Pages"))
        .and_then(lopdf::Object::as_reference)
        .map_err(|error| error.to_string())
}

/// `lopdf::Dictionary::get_deref` on a node's `Kids`: what each kid refers to.
#[verifier::external_body]
pub(crate) fn kids(document: &lopdf::Document, id: ObjectId) -> (kids: Result<
    Vec<Option<ObjectId>>,
    String,
>)
    ensures
        match kids {
            Ok(kids) => kids_at(objects_in(*document), id) == Some(kids@),
            Err(text) => kids_at(objects_in(*document), id) is None && text@ == kids_complaint(
                *document,
                id,
            ),
        },
{
    document
        .get_dictionary(id)
        .and_then(|node| node.get_deref(b"Kids", document))
        .and_then(lopdf::Object::as_array)
        .map(|kids| kids.iter().map(|kid| kid.as_reference().ok()).collect())
        .map_err(|error| error.to_string())
}

/// `lopdf::Dictionary::get` on the dictionary that `id` leads to: a copy of what it has
/// under `key`.
#[verifier::external_body]
pub(crate) fn entry(document: &lopdf::Document, id: ObjectId, key: &str) -> (value: Option<
    lopdf::Object,
>)
    ensures
        value == entry_at(objects_in(*document), id, key.spec_bytes()),
{
    let dictionary = document.get_dictionary(id).ok()?;
    dictionary.get(key.as_bytes()).ok().cloned()
}

/// `lopdf::Dictionary::has_type` on the dictionary that `id` leads to.
#[verifier::external_body]
pub(crate) fn has_type(document: &lopdf::Document, id: ObjectId, name: &str) -> (has: bool)
    ensures
        has == has_type_at(objects_in(*document), id, name.spec_bytes()),
        has ==> name_of(entry_at(objects_in(*document), id, "Type".spec_bytes())->0) == Some(
            name.spec_bytes(),
        ),
{
    document.get_dictionary(id).is_ok_and(|dictionary| dictionary.has_type(name.as_bytes()))
}

/// `lopdf::Document::get_pages`: the pages a document has, in order. Each is a dictionary
/// that says it is a page, or it stands for one that does not say what it is.
#[verifier::external_body]
pub(crate) fn pages(document: &lopdf::Document) -> (pages: Vec<ObjectId>)
    ensures
        pages@ == pages_in(*document),
        forall|i: int|
            0 <= i < pages@.len() ==> stands_for_a_page(
                objects_in(*document),
                #[trigger] pages@[i],
            ),
{
    document.get_pages().into_values().collect()
}

/// The field `lopdf::Document::max_id`.
#[verifier::external_body]
pub(crate) fn max_id(document: &lopdf::Document) -> (id: u32)
    ensures
        id == max_id_in(*document),
{
    document.max_id
}

/// How many objects `lopdf::Document::objects` holds.
#[verifier::external_body]
pub(crate) fn object_count(document: &lopdf::Document) -> (count: usize)
    ensures
        count == objects_in(*document).dom().len(),
{
    document.objects.len()
}

/// `lopdf::Object::clone`.
#[verifier::external_body]
pub(crate) fn duplicate(object: &lopdf::Object) -> (copy: lopdf::Object)
    ensures
        copy == *object,
{
    object.clone()
}

/// `lopdf::Object::Reference`: an object that refers to `id`.
#[verifier::external_body]
pub(crate) fn reference(id: ObjectId) -> (object: lopdf::Object)
    ensures
        object == reference_object(id),
        target_of(object) == Some(id),
        references_in(object) == set![id],
{
    lopdf::Object::Reference(id)
}

/// `lopdf::Object::Array`: an array of `items`, which refers to nothing itself.
#[verifier::external_body]
pub(crate) fn array(items: Vec<lopdf::Object>) -> (object: lopdf::Object)
    ensures
        object == array_object(items@),
        items_of(object) == Some(items@),
        target_of(object) is None,
{
    lopdf::Object::Array(items)
}

/// `lopdf::Object::Integer`: the integer `value`.
#[verifier::external_body]
pub(crate) fn integer(value: i64) -> (object: lopdf::Object)
    ensures
        object == integer_object(value),
        references_in(object) == Set::<ObjectId>::empty(),
{
    lopdf::Object::Integer(value)
}

/// `lopdf::Document::get_dictionary_mut` and `lopdf::Dictionary::set`: puts `value` under
/// `key` in the dictionary that `id` leads to. No other object changes, and the dictionary
/// keeps its other entries. Where `id` leads to no dictionary nothing changes.
#[verifier::external_body]
pub(crate) fn set_entry(
    document: &mut lopdf::Document,
    id: ObjectId,
    key: &str,
    value: lopdf::Object,
) -> (done: Result<(), String>)
    ensures
        match done {
            Ok(()) => {
                let before = objects_in(*old(document));
                let after = objects_in(*final(document));
                let home = chain_end(before, id, DEREF_LIMIT as nat)->0;
                &&& dictionary_at(before, id) is Some
                &&& *final(document) == entry_set(*old(document), id, key.spec_bytes(), value)
                &&& after == before.insert(home, after[home])
                &&& target_of(after[home]) is None
                &&& entries_of(after[home]) == Some(
                    dictionary_at(before, id)->0.insert(key.spec_bytes(), value),
                )
                &&& trailer_in(*final(document)) == trailer_in(*old(document))
                &&& max_id_in(*final(document)) == max_id_in(*old(document))
                &&& binary_mark_in(*final(document)) == binary_mark_in(*old(document))
            },
            Err(text) => {
                &&& dictionary_at(objects_in(*old(document)), id) is None
                &&& *final(document) == *old(document)
                &&& text@ == dictionary_complaint(*old(document), id)
            },
        },
{
    let dictionary = document.get_dictionary_mut(id).map_err(|error| error.to_string())?;
    dictionary.set(key, value);
    Ok(())
}

/// `lopdf::Document::renumber_objects_with`: numbers every object anew, from `start`. Where the
/// page tree holds together, the references in whatever the trailer leads to follow, so that
/// it is the same but for the ids; otherwise only the range of the numbers is stated.
#[verifier::external_body]
pub(crate) fn renumber(document: &mut lopdf::Document, start: u32)
    requires
        start > 0,
        objects_in(*old(document)).dom().len() <= 0x7fff_ffff,
        start + objects_in(*old(document)).dom().len() <= u32::MAX,
    ensures
        *final(document) == renumbered(*old(document), start),
        forall|id: ObjectId|
            #[trigger] objects_in(*final(document)).contains_key(id) ==> start <= id.0
                <= max_id_in(*final(document)),
        max_id_in(*final(document)) < start + objects_in(*old(document)).dom().len(),
        tree_holds_together(*old(document)) ==> exists|names: Map<ObjectId, ObjectId>|
            renames(*old(document), *final(document), names),
{
    document.renumber_objects_with(start);
}

/// Adds every object in `other`'s table to `document`'s, as the standard library's
/// `BTreeMap::extend` does: where both have an id, `other`'s object is kept.
#[verifier::external_body]
pub(crate) fn absorb(document: &mut lopdf::Document, other: lopdf::Document)
    ensures
        *final(document) == absorbed(*old(document), other),
        objects_in(*final(document)) == objects_in(*old(document)).union_prefer_right(
            objects_in(other),
        ),
        trailer_in(*final(document)) == trailer_in(*old(document)),
        max_id_in(*final(document)) == max_id_in(*old(document)),
        binary_mark_in(*final(document)) == binary_mark_in(*old(document)),
{
    document.objects.extend(other.objects);
}

/// Writes the field `lopdf::Document::max_id`.
#[verifier::external_body]
pub(crate) fn set_max_id(document: &mut lopdf::Document, id: u32)
    ensures
        *final(document) == with_max_id(*old(document), id),
        max_id_in(*final(document)) == id,
        objects_in(*final(document)) == objects_in(*old(document)),
        trailer_in(*final(document)) == trailer_in(*old(document)),
        binary_mark_in(*final(document)) == binary_mark_in(*old(document)),
{
    document.max_id = id;
}

/// `lopdf::Document::prune_objects`: drops objects that the trailer does not lead to. Those
/// that it leads to stay as they are.
#[verifier::external_body]
pub(crate) fn prune(document: &mut lopdf::Document)
    ensures
        *final(document) == pruned(*old(document)),
        objects_in(*final(document)).submap_of(objects_in(*old(document))),
        forall|id: ObjectId, steps: nat|
            #[trigger] in_use(*old(document), id, steps) && objects_in(
                *old(document),
            ).contains_key(id) ==> objects_in(*final(document)).contains_key(id),
        trailer_in(*final(document)) == trailer_in(*old(document)),
        max_id_in(*final(document)) == max_id_in(*old(document)),
        binary_mark_in(*final(document)) == binary_mark_in(*old(document)),
{
    document.prune_objects();
}

/// `lopdf::Document::save_to`: the bytes of a file that holds `document`. It fails where the
/// binary mark has a byte that text has, and not otherwise.
#[verifier::external_body]
pub(crate) fn write(document: &mut lopdf::Document) -> (file: Result<Vec<u8>, String>)
    requires
        max_id_in(*old(document)) + 2 <= u32::MAX,
    ensures
        match file {
            Ok(bytes) => written(*old(document)) == Ok::<Seq<u8>, Seq<char>>(bytes@),
            Err(text) => written(*old(document)) == Err::<Seq<u8>, Seq<char>>(text@),
        },
        file is Ok == well_marked(*old(document)),
{
    let mut bytes: Vec<u8> = Vec::new();
    document.save_to(&mut bytes).map_err(|error| error.to_string())?;
    Ok(bytes)
}

} // verus!
