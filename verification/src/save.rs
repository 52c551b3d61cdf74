//! Writing a reordered, and possibly merged, document back out.
//!
//! The bytes of the contributing files come in and the bytes of one file go out; reading
//! and replacing files is the caller's.
//!
//! Pages are shown by one parser and written by another, and the two have to agree on what
//! "page 3" of a given file is. A file whose page count does not match what was opened is
//! refused rather than guessed at.
//!
//! To merge, every object of a further document is renumbered so that its ids cannot
//! collide with those already there, and its objects are then folded in wholesale.
//! Pruning drops whatever the retained pages do not lead to.
//!
//! A source's page number is fixed when its document is opened, but a save rewrites the
//! file. Pages are therefore looked up through [`PageOrder::on_disk`], which names, for each
//! document, the source that each page of its file is, and not by page number.

use vstd::prelude::*;
use vstd::string::*;

use crate::inherit;
use crate::inherit::Inheritable;
use crate::order;
use crate::order::{OrderView, PageOrder, Source};
use crate::pdf;
use crate::pdf::ObjectId;
use crate::prune;
use crate::renumber;
use crate::save_laws;
use crate::text;

verus! {

/// Why a document could not be saved.
#[derive(Debug, Clone, PartialEq, Eq)]
pub enum SaveError {
    /// A contributing file could not be read or parsed.
    Source { path: String, detail: String },
    /// A contributing file holds another number of pages than it was expected to.
    PageCountMismatch { path: String, opened: usize, found: usize },
    /// A page tree could not be understood, or the request does not fit together.
    PageTree { path: String, detail: String },
    /// Writing failed.
    Write { path: String, detail: String },
    /// The destination already exists and was not to be replaced.
    WouldOverwrite { path: String },
}

/// What a [`SaveError`] says.
pub enum SaveErrorView {
    Source { path: Seq<char>, detail: Seq<char> },
    PageCountMismatch { path: Seq<char>, opened: nat, found: nat },
    PageTree { path: Seq<char>, detail: Seq<char> },
    Write { path: Seq<char>, detail: Seq<char> },
    WouldOverwrite { path: Seq<char> },
}

impl View for SaveError {
    type V = SaveErrorView;

    open spec fn view(&self) -> SaveErrorView {
        match self {
            SaveError::Source { path, detail } => SaveErrorView::Source {
                path: path@,
                detail: detail@,
            },
            SaveError::PageCountMismatch { path, opened, found } => {
                SaveErrorView::PageCountMismatch {
                    path: path@,
                    opened: *opened as nat,
                    found: *found as nat,
                }
            },
            SaveError::PageTree { path, detail } => SaveErrorView::PageTree {
                path: path@,
                detail: detail@,
            },
            SaveError::Write { path, detail } => SaveErrorView::Write {
                path: path@,
                detail: detail@,
            },
            SaveError::WouldOverwrite { path } => SaveErrorView::WouldOverwrite { path: path@ },
        }
    }
}

impl SaveErrorView {
    /// The error in words.
    pub open spec fn message(self) -> Seq<char> {
        match self {
            SaveErrorView::Source { path, detail } => "could not read "@ + path + " for saving: "@
                + detail,
            SaveErrorView::PageCountMismatch { path, opened, found } => "cannot edit "@ + path
                + " safely: its page tree was expected to hold "@ + text::decimal_text(opened)
                + " page(s) but reads as "@ + text::decimal_text(found) + " for writing"@,
            SaveErrorView::PageTree { path, detail } => "could not read the page tree of "@ + path
                + ": "@ + detail,
            SaveErrorView::Write { path, detail } => "could not write "@ + path + ": "@ + detail,
            SaveErrorView::WouldOverwrite { path } => path + " already exists"@,
        }
    }
}

impl SaveError {
    /// The error in words.
    pub fn message(&self) -> (message: String)
        ensures
            message@ == self@.message(),
    {
        match self {
            SaveError::Source { path, detail } => {
                let mut message = String::from_str("could not read ");
                message.append(path.as_str());
                message.append(" for saving: ");
                message.append(detail.as_str());
                message
            },
            SaveError::PageCountMismatch { path, opened, found } => {
                let mut message = String::from_str("cannot edit ");
                message.append(path.as_str());
                message.append(" safely: its page tree was expected to hold ");
                message.append(text::decimal(*opened).as_str());
                message.append(" page(s) but reads as ");
                message.append(text::decimal(*found).as_str());
                message.append(" for writing");
                message
            },
            SaveError::PageTree { path, detail } => {
                let mut message = String::from_str("could not read the page tree of ");
                message.append(path.as_str());
                message.append(": ");
                message.append(detail.as_str());
                message
            },
            SaveError::Write { path, detail } => {
                let mut message = String::from_str("could not write ");
                message.append(path.as_str());
                message.append(": ");
                message.append(detail.as_str());
                message
            },
            SaveError::WouldOverwrite { path } => {
                let mut message = String::from_str(path.as_str());
                message.append(" already exists");
                message
            },
        }
    }
}

/// Whether an existing destination may be replaced.
#[derive(Debug, Clone, Copy, PartialEq, Eq, Structural)]
pub enum Overwrite {
    /// Replace whatever is there. What "Save" means.
    Allow,
    /// Refuse if the destination exists. What "Save As" means.
    Refuse,
}

/// What is wrong with a request to save before any file is read.
pub open spec fn refusal(
    paths: nat,
    documents: nat,
    destination: Seq<char>,
    exists: bool,
    overwrite: Overwrite,
) -> Option<SaveErrorView> {
    if paths != documents {
        Some(
            SaveErrorView::PageTree {
                path: destination,
                detail: "given "@ + text::decimal_text(paths)
                    + " source path(s) for an order spanning "@ + text::decimal_text(documents)
                    + " document(s)"@,
            },
        )
    } else if overwrite == Overwrite::Refuse && exists {
        Some(SaveErrorView::WouldOverwrite { path: destination })
    } else if paths == 0 {
        Some(
            SaveErrorView::PageTree { path: destination, detail: "no source documents given"@ },
        )
    } else {
        None
    }
}

/// Checks a request to save before any file is read.
pub fn check_request(
    paths: usize,
    order: &PageOrder,
    destination: &str,
    exists: bool,
    overwrite: Overwrite,
) -> (checked: Result<(), SaveError>)
    ensures
        match checked {
            Ok(()) => refusal(
                paths as nat,
                order@.source_lens.len(),
                destination@,
                exists,
                overwrite,
            ) is None,
            Err(error) => refusal(
                paths as nat,
                order@.source_lens.len(),
                destination@,
                exists,
                overwrite,
            ) == Some(error@),
        },
{
    if paths != order.document_count() {
        let mut detail = String::from_str("given ");
        detail.append(text::decimal(paths).as_str());
        detail.append(" source path(s) for an order spanning ");
        detail.append(text::decimal(order.document_count()).as_str());
        detail.append(" document(s)");
        return Err(SaveError::PageTree { path: String::from_str(destination), detail });
    }
    if overwrite == Overwrite::Refuse && exists {
        return Err(SaveError::WouldOverwrite { path: String::from_str(destination) });
    }
    if paths == 0 {
        return Err(
            SaveError::PageTree {
                path: String::from_str(destination),
                detail: String::from_str("no source documents given"),
            },
        );
    }
    Ok(())
}

/// The pages of `document`'s file, for a save that writes it under `path`.
pub fn on_disk_pages<'order>(order: &'order PageOrder, document: usize, path: &str) -> (pages:
    Result<&'order [Source], SaveError>)
    ensures
        match pages {
            Ok(pages) => document < order@.on_disk.len() && pages@
                == order@.on_disk[document as int],
            Err(error) => document >= order@.on_disk.len() && error@ == (SaveErrorView::PageTree {
                path: path@,
                detail: "no on-disk record for document "@ + text::decimal_text(document as nat),
            }),
        },
{
    match order.on_disk(document) {
        Some(pages) => Ok(pages),
        None => Err(
            SaveError::PageTree {
                path: String::from_str(path),
                detail: text::joined(
                    "no on-disk record for document ",
                    text::decimal(document).as_str(),
                ),
            },
        ),
    }
}

/// Whether a page of `document` is shown.
pub open spec fn referenced(shown: Seq<Source>, document: int) -> bool {
    exists|i: int| 0 <= i < shown.len() && #[trigger] shown[i].document == document
}

/// Whether a save has to read the file of `document`: it always reads the first, and of the
/// others those with a page that is shown.
pub open spec fn needed(shown: Seq<Source>, document: int) -> bool {
    document == 0 || referenced(shown, document)
}

/// Whether a page of `document` is shown.
fn is_referenced(shown: &[Source], document: usize) -> (found: bool)
    ensures
        found == referenced(shown@, document as int),
{
    let mut i: usize = 0;
    while i < shown.len()
        invariant
            i <= shown.len(),
            forall|j: int| 0 <= j < i ==> #[trigger] shown@[j].document != document,
        decreases shown.len() - i,
    {
        if shown[i].document == document {
            return true;
        }
        i += 1;
    }
    false
}

/// For each contributing document, whether a save has to read its file.
pub fn files_needed(order: &PageOrder) -> (files: Vec<bool>)
    ensures
        files@.len() == order@.source_lens.len(),
        forall|document: int|
            0 <= document < files@.len() ==> #[trigger] files@[document] == needed(
                order@.order,
                document,
            ),
{
    let mut files: Vec<bool> = Vec::new();
    let mut document: usize = 0;
    while document < order.document_count()
        invariant
            document <= order@.source_lens.len(),
            files@.len() == document,
            forall|d: int|
                0 <= d < document ==> #[trigger] files@[d] == needed(order@.order, d),
        decreases order@.source_lens.len() - document,
    {
        let wanted = document == 0 || is_referenced(order.as_slice(), document);
        files.push(wanted);
        document += 1;
    }
    files
}

/// The object that `source` is in a file whose pages are `on_disk` and have these objects.
/// Where the file holds a source more than once, its last occurrence counts.
pub open spec fn object_for(
    on_disk: Seq<Source>,
    pages: Seq<ObjectId>,
    source: Source,
) -> Option<ObjectId>
    decreases on_disk.len(),
{
    if on_disk.len() == 0 {
        None
    } else if on_disk.last() == source {
        Some(pages[on_disk.len() - 1])
    } else {
        object_for(on_disk.drop_last(), pages, source)
    }
}

/// The pages of one file: what they are and which objects they have.
#[verifier::ext_equal]
pub struct FileView {
    pub on_disk: Seq<Source>,
    pub pages: Seq<ObjectId>,
}

/// A document made ready for its pages to be moved.
pub struct Prepared {
    pub document: lopdf::Document,
    pub root: ObjectId,
    pub file: FileView,
}

/// `document` with every page made to define what it inherits, if its pages are those that
/// the order knows of.
pub open spec fn prepared(
    document: lopdf::Document,
    path: Seq<char>,
    on_disk: Seq<Source>,
) -> Result<Prepared, SaveErrorView> {
    match pdf::page_tree_of(document) {
        None => Err(SaveErrorView::PageTree { path, detail: pdf::root_complaint(document) }),
        Some(root) => {
            let pages = pdf::pages_in(document);
            if pages.len() != on_disk.len() {
                Err(
                    SaveErrorView::PageCountMismatch {
                        path,
                        opened: on_disk.len(),
                        found: pages.len(),
                    },
                )
            } else {
                match inherit::pages_below(document, root) {
                    Err(error) => Err(SaveErrorView::PageTree { path, detail: error.message() }),
                    Ok(found) => Ok(
                        Prepared {
                            document: inherit::filled_all(document, found.pages),
                            root,
                            file: FileView { on_disk, pages },
                        },
                    ),
                }
            }
        },
    }
}

/// Whether the pages of `document` are found and are as many as the order knows of.
pub open spec fn savable(document: lopdf::Document, on_disk: Seq<Source>) -> bool {
    match pdf::page_tree_of(document) {
        Some(root) => {
            &&& pdf::pages_in(document).len() == on_disk.len()
            &&& inherit::pages_below(document, root) is Ok
        },
        None => false,
    }
}

/// The pages of one file: what they are and which objects they have.
pub struct FilePages {
    on_disk: Vec<Source>,
    pages: Vec<ObjectId>,
}

impl View for FilePages {
    type V = FileView;

    closed spec fn view(&self) -> FileView {
        FileView { on_disk: self.on_disk@, pages: self.pages@ }
    }
}

impl FilePages {
    /// Each page has an object.
    pub closed spec fn wf(&self) -> bool {
        self.on_disk@.len() == self.pages@.len()
    }

    /// No pages at all.
    fn none() -> (file: FilePages)
        ensures
            file@ == (FileView { on_disk: Seq::empty(), pages: Seq::empty() }),
            file.wf(),
    {
        FilePages { on_disk: Vec::new(), pages: Vec::new() }
    }

    /// The object that `source` is in this file.
    pub fn object(&self, source: Source) -> (id: Option<ObjectId>)
        requires
            self.wf(),
        ensures
            id == object_for(self@.on_disk, self@.pages, source),
    {
        let mut left: usize = self.on_disk.len();
        proof {
            assert(self.on_disk@.take(left as int) =~= self.on_disk@);
        }
        while left > 0
            invariant
                left <= self.on_disk@.len(),
                self.wf(),
                object_for(self.on_disk@, self.pages@, source) == object_for(
                    self.on_disk@.take(left as int),
                    self.pages@,
                    source,
                ),
            decreases left,
        {
            proof {
                assert(self.on_disk@.take(left as int).drop_last() =~= self.on_disk@.take(
                    left - 1,
                ));
            }
            if self.on_disk[left - 1] == source {
                return Some(self.pages[left - 1]);
            }
            left -= 1;
        }
        None
    }
}

/// Whether everything that a document lists as a page stands for one.
pub open spec fn lists_pages(document: lopdf::Document) -> bool {
    let pages = pdf::pages_in(document);
    forall|i: int|
        0 <= i < pages.len() ==> pdf::stands_for_a_page(
            pdf::objects_in(document),
            #[trigger] pages[i],
        )
}

/// The pages of `document`, if they are those that the order knows of.
pub fn page_ids_by_source(document: &lopdf::Document, path: &str, on_disk: &[Source]) -> (file:
    Result<FilePages, SaveError>)
    ensures
        match file {
            Ok(file) => {
                &&& pdf::pages_in(*document).len() == on_disk@.len()
                &&& file.wf()
                &&& file@ == (FileView { on_disk: on_disk@, pages: pdf::pages_in(*document) })
                &&& lists_pages(*document)
            },
            Err(error) => {
                &&& pdf::pages_in(*document).len() != on_disk@.len()
                &&& error@ == (SaveErrorView::PageCountMismatch {
                    path: path@,
                    opened: on_disk@.len(),
                    found: pdf::pages_in(*document).len(),
                })
            },
        },
{
    let pages = pdf::pages(document);
    if pages.len() != on_disk.len() {
        return Err(
            SaveError::PageCountMismatch {
                path: String::from_str(path),
                opened: on_disk.len(),
                found: pages.len(),
            },
        );
    }
    Ok(FilePages { on_disk: order::copied(on_disk), pages })
}

/// Whether `ready` is `given` with what each page below `root` inherits filled into it where it
/// has no value of its own, and nothing else changed.
pub open spec fn made_ready(
    given: lopdf::Document,
    ready: lopdf::Document,
    root: ObjectId,
) -> bool {
    let objects = pdf::objects_in(given);
    let found = inherit::pages_below(given, root)->Ok_0.pages;
    inherit::gaps_filled(
        objects,
        pdf::objects_in(ready),
        |id: ObjectId| inherit::offered(objects, found, id),
    )
}

/// Makes `document` ready for its pages to be moved: finds its page tree, matches its pages
/// with those that the order knows of, and writes what each page inherits onto it.
pub fn prepare(document: &mut lopdf::Document, path: &str, on_disk: &[Source]) -> (ready: Result<
    (ObjectId, FilePages),
    SaveError,
>)
    ensures
        match ready {
            Ok((root, file)) => {
                let done = prepared(*old(document), path@, on_disk@);
                &&& done is Ok
                &&& *final(document) == done->Ok_0.document
                &&& root == done->Ok_0.root
                &&& file@ == done->Ok_0.file
                &&& file.wf()
                &&& lists_pages(*old(document))
                &&& made_ready(*old(document), *final(document), root)
                &&& pdf::trailer_in(*final(document)) == pdf::trailer_in(*old(document))
                &&& pdf::max_id_in(*final(document)) == pdf::max_id_in(*old(document))
                &&& pdf::binary_mark_in(*final(document)) == pdf::binary_mark_in(*old(document))
            },
            Err(error) => prepared(*old(document), path@, on_disk@) == Err::<
                Prepared,
                SaveErrorView,
            >(error@),
        },
{
    let root = match pdf::page_tree_root(document) {
        Ok(root) => root,
        Err(detail) => {
            return Err(SaveError::PageTree { path: String::from_str(path), detail });
        },
    };
    let file = match page_ids_by_source(document, path, on_disk) {
        Ok(file) => file,
        Err(error) => {
            return Err(error);
        },
    };
    match inherit::push_down(document, root) {
        Ok(()) => Ok((root, file)),
        Err(error) => Err(
            SaveError::PageTree { path: String::from_str(path), detail: error.message() },
        ),
    }
}

/// Whether `after` is `before` but for the entries that `touched` names: the same objects,
/// the same references between them, and in each dictionary the same value or absence
/// under every other key.
pub open spec fn same_but(
    before: Map<ObjectId, lopdf::Object>,
    after: Map<ObjectId, lopdf::Object>,
    touched: spec_fn(ObjectId, Seq<u8>) -> bool,
) -> bool {
    &&& before.dom() == after.dom()
    &&& forall|id: ObjectId|
        #![trigger after[id]]
        before.contains_key(id) ==> {
            &&& pdf::target_of(after[id]) == pdf::target_of(before[id])
            &&& match pdf::entries_of(before[id]) {
                Some(entries) => {
                    &&& pdf::entries_of(after[id]) is Some
                    &&& forall|key: Seq<u8>|
                        #![trigger pdf::entries_of(after[id])->0.contains_key(key)]
                        #![trigger pdf::entries_of(after[id])->0[key]]
                        !touched(id, key) ==> {
                            let others = pdf::entries_of(after[id])->0;
                            &&& others.contains_key(key) == entries.contains_key(key)
                            &&& entries.contains_key(key) ==> others[key] == entries[key]
                        }
                },
                None => after[id] == before[id],
            }
        }
}

/// One entry was set.
proof fn lemma_set_touches_one(
    before: Map<ObjectId, lopdf::Object>,
    after: Map<ObjectId, lopdf::Object>,
    id: ObjectId,
    key: Seq<u8>,
    value: lopdf::Object,
)
    requires
        pdf::dictionary_at(before, id) is Some,
        ({
            let home = pdf::chain_end(before, id, pdf::DEREF_LIMIT as nat)->0;
            &&& after == before.insert(home, after[home])
            &&& pdf::target_of(after[home]) is None
            &&& pdf::entries_of(after[home]) == Some(
                pdf::dictionary_at(before, id)->0.insert(key, value),
            )
        }),
    ensures
        same_but(
            before,
            after,
            |at: ObjectId, k: Seq<u8>|
                pdf::chain_end(before, id, pdf::DEREF_LIMIT as nat) == Some(at) && k == key,
        ),
        pdf::entry_at(after, id, key) == Some(value),
{
    let home = pdf::chain_end(before, id, pdf::DEREF_LIMIT as nat)->0;
    inherit::lemma_chain_end_is_an_object(before, id, pdf::DEREF_LIMIT as nat);
    assert(after.dom() =~= before.dom());
    inherit::lemma_chain_end_stable(before, after, id, pdf::DEREF_LIMIT as nat);
}

/// Two changes in a row touch what either touches.
proof fn lemma_same_but_twice(
    before: Map<ObjectId, lopdf::Object>,
    middle: Map<ObjectId, lopdf::Object>,
    after: Map<ObjectId, lopdf::Object>,
    first: spec_fn(ObjectId, Seq<u8>) -> bool,
    second: spec_fn(ObjectId, Seq<u8>) -> bool,
    both: spec_fn(ObjectId, Seq<u8>) -> bool,
)
    requires
        same_but(before, middle, first),
        same_but(middle, after, second),
        forall|id: ObjectId, key: Seq<u8>|
            #[trigger] both(id, key) == (first(id, key) || second(id, key)),
    ensures
        same_but(before, after, both),
{
    assert forall|id: ObjectId| #![trigger after[id]] before.contains_key(id) implies {
        &&& pdf::target_of(after[id]) == pdf::target_of(before[id])
        &&& match pdf::entries_of(before[id]) {
            Some(entries) => {
                &&& pdf::entries_of(after[id]) is Some
                &&& forall|key: Seq<u8>|
                    #![trigger pdf::entries_of(after[id])->0.contains_key(key)]
                    #![trigger pdf::entries_of(after[id])->0[key]]
                    !both(id, key) ==> {
                        let others = pdf::entries_of(after[id])->0;
                        &&& others.contains_key(key) == entries.contains_key(key)
                        &&& entries.contains_key(key) ==> others[key] == entries[key]
                    }
            },
            None => after[id] == before[id],
        }
    } by {
        assert(before.dom().contains(id));
        assert(middle.contains_key(id));
        assert(pdf::target_of(middle[id]) == pdf::target_of(before[id]));
        if let Some(entries) = pdf::entries_of(before[id]) {
            assert forall|key: Seq<u8>|
                #![trigger pdf::entries_of(after[id])->0.contains_key(key)]
                #![trigger pdf::entries_of(after[id])->0[key]]
                !both(id, key) implies {
                let others = pdf::entries_of(after[id])->0;
                &&& others.contains_key(key) == entries.contains_key(key)
                &&& entries.contains_key(key) ==> others[key] == entries[key]
            } by {
                let between = pdf::entries_of(middle[id])->0;
                assert(between.contains_key(key) == entries.contains_key(key));
                assert(entries.contains_key(key) ==> between[key] == entries[key]);
            }
        }
    }
}

/// An entry that was not touched is still what it was.
pub proof fn lemma_untouched_entry(
    before: Map<ObjectId, lopdf::Object>,
    after: Map<ObjectId, lopdf::Object>,
    touched: spec_fn(ObjectId, Seq<u8>) -> bool,
    id: ObjectId,
    key: Seq<u8>,
)
    requires
        same_but(before, after, touched),
        pdf::chain_end(before, id, pdf::DEREF_LIMIT as nat) matches Some(home) ==> !touched(
            home,
            key,
        ),
    ensures
        pdf::entry_at(after, id, key) == pdf::entry_at(before, id, key),
        pdf::dictionary_at(after, id) is Some == pdf::dictionary_at(before, id) is Some,
{
    inherit::lemma_chain_end_stable(before, after, id, pdf::DEREF_LIMIT as nat);
    inherit::lemma_chain_end_is_an_object(before, id, pdf::DEREF_LIMIT as nat);
    if let Some(home) = pdf::chain_end(before, id, pdf::DEREF_LIMIT as nat) {
        assert(pdf::target_of(after[home]) == pdf::target_of(before[home]));
        if let Some(entries) = pdf::entries_of(before[home]) {
            let others = pdf::entries_of(after[home])->0;
            assert(others.contains_key(key) == entries.contains_key(key));
        }
    }
}

/// `document` with each of `ids` that is a dictionary hung under `root`.
pub open spec fn parented(
    document: lopdf::Document,
    root: ObjectId,
    ids: Seq<ObjectId>,
) -> lopdf::Document
    decreases ids.len(),
{
    if ids.len() == 0 {
        document
    } else {
        let earlier = parented(document, root, ids.drop_last());
        if pdf::dictionary_at(pdf::objects_in(earlier), ids.last()) is Some {
            pdf::entry_set(
                earlier,
                ids.last(),
                "Parent".spec_bytes(),
                pdf::reference_object(root),
            )
        } else {
            earlier
        }
    }
}

/// `document` with `ids`, in this order, as all the pages directly under `root`.
pub open spec fn arranged(
    document: lopdf::Document,
    root: ObjectId,
    ids: Seq<ObjectId>,
    destination: Seq<char>,
) -> Result<lopdf::Document, SaveErrorView> {
    let hung = parented(document, root, ids);
    if ids.len() > i64::MAX {
        Err(SaveErrorView::PageTree { path: destination, detail: "impossibly many pages"@ })
    } else if pdf::dictionary_at(pdf::objects_in(hung), root) is None {
        Err(
            SaveErrorView::PageTree {
                path: destination,
                detail: pdf::dictionary_complaint(hung, root),
            },
        )
    } else {
        let kids = pdf::array_object(ids.map_values(|id: ObjectId| pdf::reference_object(id)));
        Ok(
            pdf::entry_set(
                pdf::entry_set(hung, root, "Kids".spec_bytes(), kids),
                root,
                "Count".spec_bytes(),
                pdf::integer_object(ids.len() as i64),
            ),
        )
    }
}

/// The entries that arranging pages touches: `Parent` of each page, `Kids` and `Count` of
/// the root.
pub open spec fn arranging_touches(
    objects: Map<ObjectId, lopdf::Object>,
    root: ObjectId,
    ids: Seq<ObjectId>,
) -> spec_fn(ObjectId, Seq<u8>) -> bool {
    |at: ObjectId, key: Seq<u8>|
        {
            ||| key == "Parent".spec_bytes() && leads_to(objects, ids, at)
            ||| pdf::chain_end(objects, root, pdf::DEREF_LIMIT as nat) == Some(at) && (key
                == "Kids".spec_bytes() || key == "Count".spec_bytes())
        }
}

/// Whether one of `ids` leads to `at`.
pub open spec fn leads_to(
    objects: Map<ObjectId, lopdf::Object>,
    ids: Seq<ObjectId>,
    at: ObjectId,
) -> bool {
    exists|i: int|
        0 <= i < ids.len() && pdf::chain_end(
            objects,
            #[trigger] ids[i],
            pdf::DEREF_LIMIT as nat,
        ) == Some(at)
}

proof fn lemma_tree_keys_differ()
    ensures
        "Parent".spec_bytes() != "Kids".spec_bytes(),
        "Parent".spec_bytes() != "Count".spec_bytes(),
        "Kids".spec_bytes() != "Count".spec_bytes(),
{
    reveal_strlit("Parent");
    reveal_strlit("Kids");
    reveal_strlit("Count");
    assert("Parent".is_ascii());
    assert("Kids".is_ascii());
    assert("Count".is_ascii());
    assert("Parent".spec_bytes().len() == 6);
    assert("Kids".spec_bytes().len() == 4);
    assert("Count".spec_bytes().len() == 5);
}

/// Hangs each of `ids` that is a dictionary under `root`.
fn hang(document: &mut lopdf::Document, root: ObjectId, ids: &[ObjectId])
    ensures
        *final(document) == parented(*old(document), root, ids@),
        same_but(
            pdf::objects_in(*old(document)),
            pdf::objects_in(*final(document)),
            |at: ObjectId, key: Seq<u8>|
                key == "Parent".spec_bytes() && leads_to(
                    pdf::objects_in(*old(document)),
                    ids@,
                    at,
                ),
        ),
        forall|i: int|
            0 <= i < ids@.len() && pdf::dictionary_at(
                pdf::objects_in(*old(document)),
                #[trigger] ids@[i],
            ) is Some ==> pdf::entry_at(
                pdf::objects_in(*final(document)),
                ids@[i],
                "Parent".spec_bytes(),
            ) == Some(pdf::reference_object(root)),
        pdf::trailer_in(*final(document)) == pdf::trailer_in(*old(document)),
        pdf::max_id_in(*final(document)) == pdf::max_id_in(*old(document)),
        pdf::binary_mark_in(*final(document)) == pdf::binary_mark_in(*old(document)),
{
    let ghost before = pdf::objects_in(*document);
    let ghost parent = "Parent".spec_bytes();
    let mut i: usize = 0;
    proof {
        assert(ids@.take(0) =~= Seq::empty());
    }
    while i < ids.len()
        invariant
            i <= ids.len(),
            before == pdf::objects_in(*old(document)),
            parent == "Parent".spec_bytes(),
            *document == parented(*old(document), root, ids@.take(i as int)),
            same_but(
                before,
                pdf::objects_in(*document),
                |at: ObjectId, key: Seq<u8>|
                    key == parent && leads_to(before, ids@.take(i as int), at),
            ),
            forall|j: int|
                0 <= j < i && pdf::dictionary_at(before, #[trigger] ids@[j]) is Some
                    ==> pdf::entry_at(pdf::objects_in(*document), ids@[j], parent) == Some(
                    pdf::reference_object(root),
                ),
            pdf::trailer_in(*document) == pdf::trailer_in(*old(document)),
            pdf::max_id_in(*document) == pdf::max_id_in(*old(document)),
            pdf::binary_mark_in(*document) == pdf::binary_mark_in(*old(document)),
        decreases ids.len() - i,
    {
        let ghost now = pdf::objects_in(*document);
        let ghost taken = ids@.take(i as int);
        let ghost next = ids@.take(i + 1);
        let ghost first = |at: ObjectId, key: Seq<u8>| key == parent && leads_to(before, taken, at);
        let ghost both = |at: ObjectId, key: Seq<u8>| key == parent && leads_to(before, next, at);
        proof {
            assert(next.drop_last() =~= taken);
            assert(next.last() == ids@[i as int]);
            inherit::lemma_chain_end_stable(before, now, ids@[i as int], pdf::DEREF_LIMIT as nat);
        }
        let value = pdf::reference(root);
        let done = pdf::set_entry(document, ids[i], "Parent", value);
        proof {
            let after = pdf::objects_in(*document);
            let id = ids@[i as int];
            let second = |at: ObjectId, k: Seq<u8>|
                pdf::chain_end(now, id, pdf::DEREF_LIMIT as nat) == Some(at) && k == parent;
            assert forall|at: ObjectId| leads_to(before, next, at) == (#[trigger] leads_to(
                before,
                taken,
                at,
            ) || pdf::chain_end(before, id, pdf::DEREF_LIMIT as nat) == Some(at)) by {
                if leads_to(before, taken, at) {
                    let k = choose|k: int|
                        0 <= k < taken.len() && pdf::chain_end(
                            before,
                            #[trigger] taken[k],
                            pdf::DEREF_LIMIT as nat,
                        ) == Some(at);
                    assert(next[k] == taken[k]);
                }
                if pdf::chain_end(before, id, pdf::DEREF_LIMIT as nat) == Some(at) {
                    assert(next[i as int] == id);
                }
                if leads_to(before, next, at) {
                    let k = choose|k: int|
                        0 <= k < next.len() && pdf::chain_end(
                            before,
                            #[trigger] next[k],
                            pdf::DEREF_LIMIT as nat,
                        ) == Some(at);
                    if k < i {
                        assert(taken[k] == next[k]);
                    }
                }
            }
            if done is Ok {
                lemma_set_touches_one(now, after, id, parent, value);
                lemma_same_but_twice(before, now, after, first, second, both);
                assert forall|j: int|
                    0 <= j < i + 1 && pdf::dictionary_at(
                        before,
                        #[trigger] ids@[j],
                    ) is Some implies pdf::entry_at(after, ids@[j], parent) == Some(
                    pdf::reference_object(root),
                ) by {
                    if j < i {
                        let home = pdf::chain_end(now, id, pdf::DEREF_LIMIT as nat);
                        if pdf::chain_end(now, ids@[j], pdf::DEREF_LIMIT as nat) == home {
                            inherit::lemma_chain_end_stable(
                                now,
                                after,
                                ids@[j],
                                pdf::DEREF_LIMIT as nat,
                            );
                            inherit::lemma_chain_end_stable(
                                now,
                                after,
                                id,
                                pdf::DEREF_LIMIT as nat,
                            );
                        } else {
                            lemma_untouched_entry(now, after, second, ids@[j], parent);
                        }
                    }
                }
            } else {
                lemma_untouched_dictionary(before, now, first, id);
                assert forall|at: ObjectId, key: Seq<u8>|
                    #[trigger] both(at, key) == (first(at, key) || second(at, key)) by {}
                lemma_same_but_itself(now, second);
                lemma_same_but_twice(before, now, after, first, second, both);
            }
        }
        i += 1;
    }
    proof {
        assert(ids@.take(i as int) =~= ids@);
    }
}

/// Nothing is changed by changing nothing.
proof fn lemma_same_but_itself(
    objects: Map<ObjectId, lopdf::Object>,
    touched: spec_fn(ObjectId, Seq<u8>) -> bool,
)
    ensures
        same_but(objects, objects, touched),
{
}

/// A dictionary stays one.
proof fn lemma_untouched_dictionary(
    before: Map<ObjectId, lopdf::Object>,
    after: Map<ObjectId, lopdf::Object>,
    touched: spec_fn(ObjectId, Seq<u8>) -> bool,
    id: ObjectId,
)
    requires
        same_but(before, after, touched),
    ensures
        pdf::dictionary_at(after, id) is Some == pdf::dictionary_at(before, id) is Some,
{
    inherit::lemma_chain_end_stable(before, after, id, pdf::DEREF_LIMIT as nat);
    inherit::lemma_chain_end_is_an_object(before, id, pdf::DEREF_LIMIT as nat);
    if let Some(home) = pdf::chain_end(before, id, pdf::DEREF_LIMIT as nat) {
        assert(pdf::target_of(after[home]) == pdf::target_of(before[home]));
    }
}

/// Makes `ids`, in this order, all the pages directly under `root`.
///
/// Afterwards the root's kids are exactly those pages and its count is how many they are,
/// each page names the root as its parent, and no other entry of any dictionary has changed.
pub fn arrange(
    document: &mut lopdf::Document,
    root: ObjectId,
    ids: &[ObjectId],
    destination: &str,
) -> (done: Result<(), SaveError>)
    ensures
        match done {
            Ok(()) => {
                let before = pdf::objects_in(*old(document));
                let after = pdf::objects_in(*final(document));
                &&& arranged(*old(document), root, ids@, destination@) == Ok::<
                    lopdf::Document,
                    SaveErrorView,
                >(*final(document))
                &&& pdf::kids_at(after, root) == Some(ids@.map_values(|id: ObjectId| Some(id)))
                &&& pdf::entry_at(after, root, "Count".spec_bytes()) == Some(
                    pdf::integer_object(ids@.len() as i64),
                )
                &&& forall|i: int|
                    0 <= i < ids@.len() && pdf::dictionary_at(before, #[trigger] ids@[i]) is Some
                        ==> pdf::entry_at(after, ids@[i], "Parent".spec_bytes()) == Some(
                        pdf::reference_object(root),
                    )
                &&& same_but(before, after, arranging_touches(before, root, ids@))
                &&& pdf::trailer_in(*final(document)) == pdf::trailer_in(*old(document))
                &&& pdf::max_id_in(*final(document)) == pdf::max_id_in(*old(document))
                &&& pdf::binary_mark_in(*final(document)) == pdf::binary_mark_in(*old(document))
            },
            Err(error) => arranged(*old(document), root, ids@, destination@) == Err::<
                lopdf::Document,
                SaveErrorView,
            >(error@),
        },
        done is Ok == (pdf::dictionary_at(pdf::objects_in(*old(document)), root) is Some
            && ids@.len() <= i64::MAX),
{
    let ghost before = pdf::objects_in(*document);
    let ghost parent = "Parent".spec_bytes();
    let ghost kids_key = "Kids".spec_bytes();
    let ghost count_key = "Count".spec_bytes();
    hang(document, root, ids);
    let ghost hung = pdf::objects_in(*document);
    proof {
        let first = |at: ObjectId, key: Seq<u8>| key == parent && leads_to(before, ids@, at);
        lemma_untouched_dictionary(before, hung, first, root);
    }
    if ids.len() as u64 > i64::MAX as u64 {
        return Err(
            SaveError::PageTree {
                path: String::from_str(destination),
                detail: String::from_str("impossibly many pages"),
            },
        );
    }
    let mut kids: Vec<lopdf::Object> = Vec::new();
    let mut i: usize = 0;
    while i < ids.len()
        invariant
            i <= ids.len(),
            kids@ == ids@.take(i as int).map_values(|id: ObjectId| pdf::reference_object(id)),
            forall|j: int| 0 <= j < i ==> pdf::target_of(#[trigger] kids@[j]) == Some(ids@[j]),
        decreases ids.len() - i,
    {
        kids.push(pdf::reference(ids[i]));
        i += 1;
        proof {
            assert(kids@ =~= ids@.take(i as int).map_values(
                |id: ObjectId| pdf::reference_object(id),
            ));
        }
    }
    proof {
        assert(ids@.take(i as int) =~= ids@);
    }
    let ghost items = kids@;
    let list = pdf::array(kids);
    match pdf::set_entry(document, root, "Kids", list) {
        Ok(()) => {},
        Err(detail) => {
            return Err(SaveError::PageTree { path: String::from_str(destination), detail });
        },
    }
    let ghost listed = pdf::objects_in(*document);
    let ghost set_kids = |at: ObjectId, k: Seq<u8>|
        pdf::chain_end(hung, root, pdf::DEREF_LIMIT as nat) == Some(at) && k == kids_key;
    proof {
        lemma_set_touches_one(hung, listed, root, kids_key, list);
        lemma_untouched_dictionary(hung, listed, set_kids, root);
    }
    let count = pdf::integer(ids.len() as i64);
    let done = pdf::set_entry(document, root, "Count", count);
    proof {
        let after = pdf::objects_in(*document);
        let first = |at: ObjectId, key: Seq<u8>|
            key == parent && leads_to(before, ids@, at);
        let set_count = |at: ObjectId, k: Seq<u8>|
            pdf::chain_end(listed, root, pdf::DEREF_LIMIT as nat) == Some(at) && k == count_key;
        let tree = |at: ObjectId, k: Seq<u8>| set_kids(at, k) || set_count(at, k);
        lemma_tree_keys_differ();
        lemma_set_touches_one(listed, after, root, count_key, count);
        lemma_same_but_twice(hung, listed, after, set_kids, set_count, tree);
        inherit::lemma_chain_end_stable(before, hung, root, pdf::DEREF_LIMIT as nat);
        inherit::lemma_chain_end_stable(hung, listed, root, pdf::DEREF_LIMIT as nat);
        let all = arranging_touches(before, root, ids@);
        assert forall|at: ObjectId, key: Seq<u8>|
            #[trigger] all(at, key) == (first(at, key) || tree(at, key)) by {}
        lemma_same_but_twice(before, hung, after, first, tree, all);
        lemma_untouched_entry(listed, after, set_count, root, kids_key);
        assert(pdf::kids_at(after, root)->0 =~= ids@.map_values(|id: ObjectId| Some(id)));
        assert forall|j: int|
            0 <= j < ids@.len() && pdf::dictionary_at(
                before,
                #[trigger] ids@[j],
            ) is Some implies pdf::entry_at(after, ids@[j], parent) == Some(
            pdf::reference_object(root),
        ) by {
            lemma_untouched_entry(hung, after, tree, ids@[j], parent);
        }
    }
    Ok(())
}

/// `Source { document: .., page: .. }`, as it is shown in messages.
pub open spec fn source_text(source: Source) -> Seq<char> {
    "Source { document: "@ + text::decimal_text(source.document as nat) + ", page: "@
        + text::decimal_text(source.page as nat) + " }"@
}

/// The objects that the pages of `shown` are, in that order.
pub open spec fn objects_shown(
    shown: Seq<Source>,
    files: Seq<FileView>,
    sources: Seq<Seq<char>>,
    destination: Seq<char>,
) -> Result<Seq<ObjectId>, SaveErrorView>
    decreases shown.len(),
{
    if shown.len() == 0 {
        Ok(Seq::empty())
    } else {
        let source = shown.last();
        let document = source.document as int;
        match objects_shown(shown.drop_last(), files, sources, destination) {
            Err(error) => Err(error),
            Ok(ids) => {
                let found = if document < files.len() {
                    object_for(files[document].on_disk, files[document].pages, source)
                } else {
                    None
                };
                match found {
                    Some(id) => Ok(ids.push(id)),
                    None => Err(
                        SaveErrorView::PageTree {
                            path: if document < sources.len() {
                                sources[document]
                            } else {
                                destination
                            },
                            detail: source_text(source)
                                + " is not in that document's page tree"@,
                        },
                    ),
                }
            },
        }
    }
}

/// Where the first pages shown cannot be found the whole cannot, for the same reason.
proof fn lemma_objects_shown_fails(
    shown: Seq<Source>,
    files: Seq<FileView>,
    sources: Seq<Seq<char>>,
    destination: Seq<char>,
    n: int,
)
    requires
        0 <= n <= shown.len(),
        objects_shown(shown.take(n), files, sources, destination) is Err,
    ensures
        objects_shown(shown, files, sources, destination) == objects_shown(
            shown.take(n),
            files,
            sources,
            destination,
        ),
    decreases shown.len(),
{
    if n == shown.len() {
        assert(shown.take(n) =~= shown);
    } else {
        assert(shown.drop_last().take(n) =~= shown.take(n));
        lemma_objects_shown_fails(shown.drop_last(), files, sources, destination, n);
    }
}

/// The views of a list of files' pages.
pub open spec fn files_view(files: Seq<FilePages>) -> Seq<FileView> {
    files.map_values(|file: FilePages| file@)
}

/// The texts of a list of strings.
pub open spec fn texts(strings: Seq<String>) -> Seq<Seq<char>> {
    strings.map_values(|string: String| string@)
}

/// The objects that the pages of `shown` are, in that order.
pub fn page_objects(
    shown: &[Source],
    files: &[FilePages],
    sources: &[String],
    destination: &str,
) -> (ids: Result<Vec<ObjectId>, SaveError>)
    requires
        forall|i: int| 0 <= i < files@.len() ==> (#[trigger] files@[i]).wf(),
    ensures
        match ids {
            Ok(ids) => objects_shown(
                shown@,
                files_view(files@),
                texts(sources@),
                destination@,
            ) == Ok::<Seq<ObjectId>, SaveErrorView>(ids@),
            Err(error) => objects_shown(
                shown@,
                files_view(files@),
                texts(sources@),
                destination@,
            ) == Err::<Seq<ObjectId>, SaveErrorView>(error@),
        },
{
    let mut ids: Vec<ObjectId> = Vec::new();
    let mut i: usize = 0;
    while i < shown.len()
        invariant
            i <= shown.len(),
            forall|j: int| 0 <= j < files@.len() ==> (#[trigger] files@[j]).wf(),
            objects_shown(
                shown@.take(i as int),
                files_view(files@),
                texts(sources@),
                destination@,
            ) == Ok::<Seq<ObjectId>, SaveErrorView>(ids@),
        decreases shown.len() - i,
    {
        let ghost next = shown@.take(i + 1);
        proof {
            assert(next.drop_last() =~= shown@.take(i as int));
            assert(next.last() == shown@[i as int]);
        }
        let source = shown[i];
        let found = if source.document < files.len() {
            files[source.document].object(source)
        } else {
            None
        };
        match found {
            Some(id) => {
                ids.push(id);
            },
            None => {
                let path = if source.document < sources.len() {
                    sources[source.document].clone()
                } else {
                    String::from_str(destination)
                };
                let mut detail = String::from_str("Source { document: ");
                detail.append(text::decimal(source.document).as_str());
                detail.append(", page: ");
                detail.append(text::decimal(source.page).as_str());
                detail.append(" }");
                detail.append(" is not in that document's page tree");
                proof {
                    lemma_objects_shown_fails(
                        shown@,
                        files_view(files@),
                        texts(sources@),
                        destination@,
                        i + 1,
                    );
                }
                return Err(SaveError::PageTree { path, detail });
            },
        }
        i += 1;
    }
    proof {
        assert(shown@.take(i as int) =~= shown@);
    }
    Ok(ids)
}

/// What came of reading and parsing one contributing file.
pub enum Loaded {
    /// The document it holds.
    Document(lopdf::Document),
    /// Why it could not be read or parsed.
    Failed(String),
    /// It was not read, since no page of it is shown.
    Unneeded,
}

/// The documents merged so far: the objects of all of them, the root of the first one's
/// page tree, and the pages of each file.
pub struct Merged {
    pub document: lopdf::Document,
    pub root: ObjectId,
    pub files: Seq<FileView>,
}

/// Whether the objects of `other` can be numbered from just above `document`'s.
pub open spec fn has_room(document: lopdf::Document, other: lopdf::Document) -> bool {
    let count = pdf::objects_in(other).dom().len();
    &&& count <= 0x7fff_ffff
    &&& pdf::max_id_in(document) + 1 + count <= u32::MAX
}

/// The first `count` of the documents merged. A further document that no shown page belongs
/// to contributes nothing.
pub open spec fn merged(
    loaded: Seq<Loaded>,
    sources: Seq<Seq<char>>,
    order: OrderView,
    count: nat,
) -> Result<Merged, SaveErrorView>
    decreases count,
{
    if count <= 1 {
        match loaded[0] {
            Loaded::Document(document) => match prepared(document, sources[0], order.on_disk[0]) {
                Ok(ready) => Ok(
                    Merged { document: ready.document, root: ready.root, files: seq![ready.file] },
                ),
                Err(error) => Err(error),
            },
            Loaded::Failed(detail) => Err(
                SaveErrorView::Source { path: sources[0], detail: detail@ },
            ),
            Loaded::Unneeded => arbitrary(),
        }
    } else {
        let k = count - 1;
        match merged(loaded, sources, order, k as nat) {
            Err(error) => Err(error),
            Ok(so_far) => if !referenced(order.order, k) {
                Ok(
                    Merged {
                        files: so_far.files.push(
                            FileView { on_disk: Seq::empty(), pages: Seq::empty() },
                        ),
                        ..so_far
                    },
                )
            } else {
                match loaded[k] {
                    Loaded::Document(document) => joined_by(
                        so_far,
                        document,
                        sources[k],
                        order.on_disk[k],
                    ),
                    Loaded::Failed(detail) => Err(
                        SaveErrorView::Source { path: sources[k], detail: detail@ },
                    ),
                    Loaded::Unneeded => arbitrary(),
                }
            },
        }
    }
}

/// The higher one of two numbers.
pub open spec fn higher(a: u32, b: u32) -> u32 {
    if a < b {
        b
    } else {
        a
    }
}

/// One more document merged in.
pub open spec fn joined_by(
    so_far: Merged,
    document: lopdf::Document,
    path: Seq<char>,
    on_disk: Seq<Source>,
) -> Result<Merged, SaveErrorView> {
    if !has_room(so_far.document, document) {
        Err(SaveErrorView::PageTree { path, detail: "impossibly many objects"@ })
    } else {
        let start = (pdf::max_id_in(so_far.document) + 1) as u32;
        match prepared(pdf::renumbered(document, start), path, on_disk) {
            Err(error) => Err(error),
            Ok(ready) => Ok(
                Merged {
                    document: pdf::absorbed(
                        pdf::with_max_id(
                            so_far.document,
                            higher(
                                pdf::max_id_in(so_far.document),
                                pdf::max_id_in(ready.document),
                            ),
                        ),
                        ready.document,
                    ),
                    files: so_far.files.push(ready.file),
                    ..so_far
                },
            ),
        }
    }
}

/// How many objects the needed ones of the first `count` documents add to the first one's.
pub open spec fn objects_added(loaded: Seq<Loaded>, shown: Seq<Source>, count: nat) -> nat
    decreases count,
{
    if count <= 1 {
        0
    } else {
        let k = count - 1;
        objects_added(loaded, shown, k as nat) + if referenced(shown, k) {
            pdf::objects_in(loaded[k]->Document_0).dom().len()
        } else {
            0
        }
    }
}

/// Whether the needed documents can be merged: each was read and its pages are those that the
/// order knows of, the page tree of each that is added holds together, and there are numbers
/// enough for all their objects and for what a file needs besides.
pub open spec fn can_be_merged(loaded: Seq<Loaded>, order: OrderView) -> bool {
    &&& forall|k: int|
        0 <= k < loaded.len() && needed(order.order, k) ==> {
            &&& (#[trigger] loaded[k]) is Document
            &&& savable(loaded[k]->Document_0, order.on_disk[k])
            &&& k > 0 ==> {
                &&& pdf::tree_holds_together(loaded[k]->Document_0)
                &&& pdf::objects_in(loaded[k]->Document_0).dom().len() <= 0x7fff_ffff
            }
        }
    &&& pdf::max_id_in(loaded[0]->Document_0) + objects_added(loaded, order.order, loaded.len())
        + 2 <= u32::MAX
}

/// Whether a save of `order` is owed: the needed documents can be merged, and each page shown
/// is one that its document's file holds.
pub open spec fn can_be_saved(loaded: Seq<Loaded>, order: OrderView) -> bool {
    &&& can_be_merged(loaded, order)
    &&& order.order.len() <= i64::MAX
    &&& forall|i: int|
        0 <= i < order.order.len() ==> {
            let k = (#[trigger] order.order[i]).document as int;
            &&& k < loaded.len()
            &&& order.on_disk[k].contains(order.order[i])
        }
}

/// More documents add no fewer objects.
proof fn lemma_objects_added_grow(
    loaded: Seq<Loaded>,
    shown: Seq<Source>,
    first: nat,
    count: nat,
)
    requires
        first <= count,
    ensures
        objects_added(loaded, shown, first) <= objects_added(loaded, shown, count),
    decreases count,
{
    if first < count {
        lemma_objects_added_grow(loaded, shown, first, (count - 1) as nat);
    }
}

/// Merges one more document in: numbers its objects from just above those already there,
/// makes it ready, and adds its objects. Where the numbers of `primary` are what it says
/// they are, none of its objects is lost or replaced. Where there is room and the page tree
/// of `secondary` holds together and has the pages expected, it succeeds.
pub fn merge_in(
    primary: &mut lopdf::Document,
    secondary: lopdf::Document,
    path: &str,
    on_disk: &[Source],
) -> (file: Result<FilePages, SaveError>)
    ensures
        match file {
            Ok(file) => {
                let so_far = Merged {
                    document: *old(primary),
                    root: (0, 0),
                    files: Seq::empty(),
                };
                let given = pdf::renumbered(
                    secondary,
                    (pdf::max_id_in(*old(primary)) + 1) as u32,
                );
                let ready = prepared(given, path@, on_disk@)->Ok_0;
                &&& joined_by(so_far, secondary, path@, on_disk@) == Ok::<Merged, SaveErrorView>(
                    Merged { document: *final(primary), files: seq![file@], ..so_far },
                )
                &&& file.wf()
                &&& pdf::max_id_in(*final(primary)) <= pdf::max_id_in(*old(primary))
                    + pdf::objects_in(secondary).dom().len()
                &&& pdf::tree_holds_together(secondary) ==> exists|names: Map<ObjectId, ObjectId>|
                    pdf::renames(secondary, given, names)
                &&& lists_pages(given)
                &&& made_ready(given, ready.document, ready.root)
                &&& pdf::objects_in(ready.document).submap_of(pdf::objects_in(*final(primary)))
                &&& pdf::trailer_in(*final(primary)) == pdf::trailer_in(*old(primary))
                &&& pdf::binary_mark_in(*final(primary)) == pdf::binary_mark_in(*old(primary))
                &&& pdf::numbered(*old(primary)) ==> pdf::numbered(*final(primary))
                    && pdf::objects_in(*old(primary)).submap_of(pdf::objects_in(*final(primary)))
            },
            Err(error) => {
                let so_far = Merged {
                    document: *old(primary),
                    root: (0, 0),
                    files: Seq::empty(),
                };
                joined_by(so_far, secondary, path@, on_disk@) == Err::<Merged, SaveErrorView>(
                    error@,
                )
            },
        },
        has_room(*old(primary), secondary) && savable(secondary, on_disk@)
            && pdf::tree_holds_together(secondary) ==> file is Ok,
{
    let ghost original = secondary;
    let mut secondary = secondary;
    let top = pdf::max_id(primary);
    let count = pdf::object_count(&secondary);
    if count > 0x7fff_ffff || top as u64 + 1 + count as u64 > u32::MAX as u64 {
        return Err(
            SaveError::PageTree {
                path: String::from_str(path),
                detail: String::from_str("impossibly many objects"),
            },
        );
    }
    pdf::renumber(&mut secondary, top + 1);
    proof {
        if pdf::tree_holds_together(original) {
            let names = choose|names: Map<ObjectId, ObjectId>|
                pdf::renames(original, secondary, names);
            renumber::law_renumbering_keeps_the_page_tree(original, secondary, names);
        }
    }
    match prepare(&mut secondary, path, on_disk) {
        Ok((_root, file)) => {
            let other = pdf::max_id(&secondary);
            pdf::set_max_id(
                primary,
                if top < other {
                    other
                } else {
                    top
                },
            );
            pdf::absorb(primary, secondary);
            proof {
                assert(Seq::<FileView>::empty().push(file@) =~= seq![file@]);
                if pdf::numbered(*old(primary)) {
                    let mine = pdf::objects_in(*old(primary));
                    let all = pdf::objects_in(*primary);
                    assert forall|id: ObjectId| #[trigger] mine.contains_key(id) implies {
                        all.contains_key(id) && all[id] == mine[id]
                    } by {
                        assert(id.0 <= top);
                        assert(!pdf::objects_in(secondary).dom().contains(id));
                    }
                    assert forall|id: ObjectId| #[trigger] all.contains_key(id) implies id.0
                        <= pdf::max_id_in(*primary) by {
                        if !mine.contains_key(id) {
                            assert(pdf::objects_in(secondary).dom().contains(id));
                        }
                    }
                }
            }
            Ok(file)
        },
        Err(error) => Err(error),
    }
}

/// The document that contributes the pages of file `k`: the first as it was loaded, the others
/// numbered from just above those merged before.
pub open spec fn contributed(
    loaded: Seq<Loaded>,
    sources: Seq<Seq<char>>,
    order: OrderView,
    k: int,
) -> lopdf::Document {
    if k == 0 {
        loaded[0]->Document_0
    } else {
        pdf::renumbered(
            loaded[k]->Document_0,
            (pdf::max_id_in(merged(loaded, sources, order, k as nat)->Ok_0.document) + 1) as u32,
        )
    }
}

/// The ids that the objects of file `k` were given in the document that contributes its pages.
pub open spec fn names_given(
    loaded: Seq<Loaded>,
    sources: Seq<Seq<char>>,
    order: OrderView,
    k: int,
) -> Map<ObjectId, ObjectId> {
    choose|names: Map<ObjectId, ObjectId>|
        pdf::renames(
            loaded[k]->Document_0,
            contributed(loaded, sources, order, k),
            names,
        )
}

/// Whether the document that contributes file `k` was made ready and all its objects are in
/// `all`, as they are there.
pub open spec fn taken_in(
    loaded: Seq<Loaded>,
    sources: Seq<Seq<char>>,
    order: OrderView,
    k: int,
    all: Merged,
) -> bool {
    let given = contributed(loaded, sources, order, k);
    match prepared(given, sources[k], order.on_disk[k]) {
        Ok(ready) => {
            &&& lists_pages(given)
            &&& made_ready(given, ready.document, ready.root)
            &&& pdf::objects_in(ready.document).submap_of(pdf::objects_in(all.document))
            &&& k < all.files.len()
            &&& all.files[k] == ready.file
            &&& k > 0 && pdf::tree_holds_together(loaded[k]->Document_0) ==> pdf::renames(
                loaded[k]->Document_0,
                given,
                names_given(loaded, sources, order, k),
            )
        },
        Err(_) => false,
    }
}

/// Whether `all` holds the page tree of the first document and everything that the needed
/// documents contribute.
pub open spec fn holds_all(
    loaded: Seq<Loaded>,
    sources: Seq<Seq<char>>,
    order: OrderView,
    count: nat,
    all: Merged,
) -> bool {
    &&& pdf::page_tree_of(all.document) == Some(all.root)
    &&& forall|k: int|
        0 <= k < count && #[trigger] needed(order.order, k) ==> taken_in(
            loaded,
            sources,
            order,
            k,
            all,
        )
}

/// Where a chain of references ends, it ends there too among more objects.
pub proof fn lemma_chain_end_among_more(
    some: Map<ObjectId, lopdf::Object>,
    more: Map<ObjectId, lopdf::Object>,
    id: ObjectId,
    hops: nat,
)
    requires
        some.submap_of(more),
        pdf::chain_end(some, id, hops) is Some,
    ensures
        pdf::chain_end(more, id, hops) == pdf::chain_end(some, id, hops),
    decreases hops,
{
    assert(some.dom().contains(id));
    assert(more.dom().contains(id));
    if let Some(next) = pdf::target_of(some[id]) {
        lemma_chain_end_among_more(some, more, next, (hops - 1) as nat);
    }
}

/// A dictionary is the same among more objects.
pub proof fn lemma_dictionary_among_more(
    some: Map<ObjectId, lopdf::Object>,
    more: Map<ObjectId, lopdf::Object>,
    id: ObjectId,
)
    requires
        some.submap_of(more),
        pdf::dictionary_at(some, id) is Some,
    ensures
        pdf::dictionary_at(more, id) == pdf::dictionary_at(some, id),
{
    lemma_chain_end_among_more(some, more, id, pdf::DEREF_LIMIT as nat);
    inherit::lemma_chain_end_is_an_object(some, id, pdf::DEREF_LIMIT as nat);
    let home = pdf::chain_end(some, id, pdf::DEREF_LIMIT as nat)->0;
    assert(some.dom().contains(home));
    assert(more.dom().contains(home));
    assert(more[home] == some[home]);
}

/// Making a document ready leaves its page tree where it was.
proof fn lemma_ready_keeps_the_page_tree(
    given: lopdf::Document,
    ready: lopdf::Document,
    root: ObjectId,
)
    requires
        pdf::page_tree_of(given) == Some(root),
        made_ready(given, ready, root),
        pdf::trailer_in(ready) == pdf::trailer_in(given),
    ensures
        pdf::page_tree_of(ready) == Some(root),
{
    let objects = pdf::objects_in(given);
    let found = inherit::pages_below(given, root)->Ok_0.pages;
    let catalog = pdf::target_of(pdf::trailer_in(given)["Root".spec_bytes()])->0;
    inherit::law_a_value_of_its_own_is_kept(
        objects,
        pdf::objects_in(ready),
        |id: ObjectId| inherit::offered(objects, found, id),
        catalog,
        "Pages".spec_bytes(),
    );
}

/// Making a document ready leaves the root of its page tree a dictionary.
proof fn lemma_ready_keeps_the_root(
    given: lopdf::Document,
    ready: lopdf::Document,
    root: ObjectId,
)
    requires
        inherit::pages_below(given, root) is Ok,
        made_ready(given, ready, root),
    ensures
        pdf::dictionary_at(pdf::objects_in(ready), root) is Some,
{
    let objects = pdf::objects_in(given);
    let found = inherit::pages_below(given, root)->Ok_0.pages;
    inherit::law_a_value_of_its_own_is_kept(
        objects,
        pdf::objects_in(ready),
        |id: ObjectId| inherit::offered(objects, found, id),
        root,
        "Kids".spec_bytes(),
    );
}

/// More objects leave the page tree where it was.
proof fn lemma_more_keeps_the_page_tree(some: lopdf::Document, more: lopdf::Document)
    requires
        pdf::page_tree_of(some) is Some,
        pdf::trailer_in(more) == pdf::trailer_in(some),
        pdf::objects_in(some).submap_of(pdf::objects_in(more)),
    ensures
        pdf::page_tree_of(more) == pdf::page_tree_of(some),
{
    let catalog = pdf::target_of(pdf::trailer_in(some)["Root".spec_bytes()])->0;
    lemma_dictionary_among_more(pdf::objects_in(some), pdf::objects_in(more), catalog);
}

/// Merges the loaded documents. The first one is the one that the others are added to. Where
/// its numbers are what it says they are, nothing of any of them is lost.
pub fn merge(loaded: Vec<Loaded>, sources: &[String], order: &PageOrder) -> (all: Result<
    (lopdf::Document, ObjectId, Vec<FilePages>),
    SaveError,
>)
    requires
        order.wf(),
        loaded@.len() == order@.source_lens.len(),
        sources@.len() == loaded@.len(),
        loaded@.len() > 0,
        forall|k: int|
            0 <= k < loaded@.len() && needed(order@.order, k) ==> !((
            #[trigger] loaded@[k]) is Unneeded),
    ensures
        match all {
            Ok((document, root, files)) => {
                &&& merged(loaded@, texts(sources@), order@, loaded@.len()) == Ok::<
                    Merged,
                    SaveErrorView,
                >(Merged { document, root, files: files_view(files@) })
                &&& files@.len() == loaded@.len()
                &&& pdf::binary_mark_in(document) == pdf::binary_mark_in(loaded@[0]->Document_0)
                &&& forall|k: int| 0 <= k < files@.len() ==> (#[trigger] files@[k]).wf()
                &&& pdf::numbered(loaded@[0]->Document_0) ==> holds_all(
                    loaded@,
                    texts(sources@),
                    order@,
                    loaded@.len(),
                    Merged { document, root, files: files_view(files@) },
                ) && pdf::dictionary_at(pdf::objects_in(document), root) is Some
                &&& pdf::max_id_in(document) <= pdf::max_id_in(loaded@[0]->Document_0)
                    + objects_added(loaded@, order@.order, loaded@.len())
            },
            Err(error) => merged(loaded@, texts(sources@), order@, loaded@.len()) == Err::<
                Merged,
                SaveErrorView,
            >(error@),
        },
        can_be_merged(loaded@, order@) ==> all is Ok,
{
    let ghost given = loaded@;
    let ghost paths = texts(sources@);
    let mut rest = loaded;
    proof {
        assert(needed(order@.order, 0));
        assert(!(given[0] is Unneeded));
    }
    let mut primary = match rest.remove(0) {
        Loaded::Document(document) => document,
        Loaded::Failed(detail) => {
            proof {
                lemma_merged_fails(given, paths, order@, 1, given.len());
            }
            return Err(SaveError::Source { path: sources[0].clone(), detail });
        },
        Loaded::Unneeded => vstd::pervasive::unreached(),
    };
    let own = match on_disk_pages(order, 0, sources[0].as_str()) {
        Ok(own) => own,
        Err(error) => {
            return Err(error);
        },
    };
    let (root, file) = match prepare(&mut primary, sources[0].as_str(), own) {
        Ok(ready) => ready,
        Err(error) => {
            proof {
                lemma_merged_fails(given, paths, order@, 1, given.len());
            }
            return Err(error);
        },
    };
    let mut files: Vec<FilePages> = Vec::new();
    files.push(file);
    let mut k: usize = 1;
    let ghost sound = pdf::numbered(given[0]->Document_0);
    proof {
        assert(files_view(files@) =~= seq![file@]);
        assert(rest@ =~= given.skip(1));
        lemma_ready_keeps_the_page_tree(given[0]->Document_0, primary, root);
        lemma_ready_keeps_the_root(given[0]->Document_0, primary, root);
        let all = Merged { document: primary, root, files: files_view(files@) };
        assert(taken_in(given, paths, order@, 0, all));
        if sound {
            assert(pdf::objects_in(primary).dom() == pdf::objects_in(given[0]->Document_0).dom());
            assert forall|id: ObjectId| #[trigger] pdf::objects_in(primary).contains_key(
                id,
            ) implies id.0 <= pdf::max_id_in(primary) by {
                assert(pdf::objects_in(primary).dom().contains(id));
                assert(pdf::objects_in(given[0]->Document_0).contains_key(id));
            }
        }
    }
    while k < sources.len()
        invariant
            1 <= k <= sources@.len(),
            order.wf(),
            given.len() == order@.source_lens.len(),
            sources@.len() == given.len(),
            paths == texts(sources@),
            rest@ == given.skip(k as int),
            forall|j: int|
                0 <= j < given.len() && needed(order@.order, j) ==> !((
                #[trigger] given[j]) is Unneeded),
            merged(given, paths, order@, k as nat) == Ok::<Merged, SaveErrorView>(
                Merged { document: primary, root, files: files_view(files@) },
            ),
            forall|j: int| 0 <= j < files@.len() ==> (#[trigger] files@[j]).wf(),
            files@.len() == k,
            pdf::binary_mark_in(primary) == pdf::binary_mark_in(given[0]->Document_0),
            pdf::max_id_in(primary) <= pdf::max_id_in(given[0]->Document_0) + objects_added(
                given,
                order@.order,
                k as nat,
            ),
            sound == pdf::numbered(given[0]->Document_0),
            sound ==> pdf::dictionary_at(pdf::objects_in(primary), root) is Some,
            sound ==> pdf::numbered(primary) && holds_all(
                given,
                paths,
                order@,
                k as nat,
                Merged { document: primary, root, files: files_view(files@) },
            ),
            given == loaded@,
        decreases sources@.len() - k,
    {
        let ghost so_far = Merged { document: primary, root, files: files_view(files@) };
        let next = rest.remove(0);
        proof {
            assert(next == given[k as int]);
            assert(rest@ =~= given.skip(k + 1));
            lemma_objects_added_grow(given, order@.order, (k + 1) as nat, given.len());
            assert(referenced(order@.order, k as int) ==> needed(order@.order, k as int));
        }
        if is_referenced(order.as_slice(), k) {
            let secondary = match next {
                Loaded::Document(document) => document,
                Loaded::Failed(detail) => {
                    proof {
                        lemma_merged_fails(given, paths, order@, (k + 1) as nat, given.len());
                    }
                    return Err(SaveError::Source { path: sources[k].clone(), detail });
                },
                Loaded::Unneeded => vstd::pervasive::unreached(),
            };
            let theirs = match on_disk_pages(order, k, sources[k].as_str()) {
                Ok(theirs) => theirs,
                Err(error) => {
                    return Err(error);
                },
            };
            match merge_in(&mut primary, secondary, sources[k].as_str(), theirs) {
                Ok(file) => {
                    files.push(file);
                    proof {
                        assert(files_view(files@) =~= so_far.files.push(file@));
                        assert(seq![file@][0] == file@);
                        let all = Merged { document: primary, root, files: files_view(files@) };
                        assert(taken_in(given, paths, order@, k as int, all));
                        if sound {
                            lemma_more_keeps_the_page_tree(so_far.document, primary);
                            lemma_dictionary_among_more(
                                pdf::objects_in(so_far.document),
                                pdf::objects_in(primary),
                                root,
                            );
                            assert(all.files.take(k as int) =~= so_far.files);
                            lemma_still_taken_in(given, paths, order@, k as nat, so_far, all);
                        }
                    }
                },
                Err(error) => {
                    proof {
                        lemma_merged_fails(given, paths, order@, (k + 1) as nat, given.len());
                    }
                    return Err(error);
                },
            }
        } else {
            files.push(FilePages::none());
            proof {
                assert(files_view(files@) =~= so_far.files.push(
                    FileView { on_disk: Seq::empty(), pages: Seq::empty() },
                ));
                let all = Merged { document: primary, root, files: files_view(files@) };
                if sound {
                    assert(all.files.take(k as int) =~= so_far.files);
                    lemma_still_taken_in(given, paths, order@, k as nat, so_far, all);
                }
            }
        }
        k += 1;
    }
    Ok((primary, root, files))
}

/// What was taken in stays while objects and files are only added.
proof fn lemma_still_taken_in(
    loaded: Seq<Loaded>,
    sources: Seq<Seq<char>>,
    order: OrderView,
    count: nat,
    before: Merged,
    after: Merged,
)
    requires
        holds_all(loaded, sources, order, count, before),
        pdf::objects_in(before.document).submap_of(pdf::objects_in(after.document)),
        before.files.len() == count,
        after.files.len() > count,
        after.files.take(count as int) == before.files,
    ensures
        forall|k: int|
            0 <= k < count && #[trigger] needed(order.order, k) ==> taken_in(
                loaded,
                sources,
                order,
                k,
                after,
            ),
{
    assert forall|k: int| 0 <= k < count && #[trigger] needed(order.order, k) implies taken_in(
        loaded,
        sources,
        order,
        k,
        after,
    ) by {
        assert(taken_in(loaded, sources, order, k, before));
        assert(after.files.take(count as int)[k] == after.files[k]);
        let given = contributed(loaded, sources, order, k);
        let ready = prepared(given, sources[k], order.on_disk[k])->Ok_0;
        let own = pdf::objects_in(ready.document);
        let held = pdf::objects_in(before.document);
        let now = pdf::objects_in(after.document);
        assert forall|id: ObjectId| #[trigger] own.dom().contains(id) implies now.dom().contains(
            id,
        ) && own[id] == now[id] by {
            assert(held.dom().contains(id));
        }
    }
}

/// Where merging the first documents fails merging all of them does, for the same reason.
proof fn lemma_merged_fails(
    loaded: Seq<Loaded>,
    sources: Seq<Seq<char>>,
    order: OrderView,
    first: nat,
    count: nat,
)
    requires
        1 <= first <= count,
        merged(loaded, sources, order, first) is Err,
    ensures
        merged(loaded, sources, order, count) == merged(loaded, sources, order, first),
    decreases count,
{
    if first < count {
        lemma_merged_fails(loaded, sources, order, first, (count - 1) as nat);
    }
}

/// The document that a save of `order` writes, before what it does not need is dropped.
pub open spec fn composed(
    loaded: Seq<Loaded>,
    sources: Seq<Seq<char>>,
    order: OrderView,
    destination: Seq<char>,
) -> Result<lopdf::Document, SaveErrorView> {
    match merged(loaded, sources, order, loaded.len()) {
        Err(error) => Err(error),
        Ok(all) => match objects_shown(order.order, all.files, sources, destination) {
            Err(error) => Err(error),
            Ok(ids) => arranged(all.document, all.root, ids, destination),
        },
    }
}

/// Whether there is a file for a save of `order` to write: its documents can be merged and its
/// pages found, and there is room for what a file needs besides.
pub open spec fn has_a_file(
    loaded: Seq<Loaded>,
    sources: Seq<Seq<char>>,
    order: OrderView,
    destination: Seq<char>,
) -> bool {
    match composed(loaded, sources, order, destination) {
        Ok(document) => pdf::max_id_in(document) + 2 <= u32::MAX,
        Err(_) => false,
    }
}

/// The file that a save of `order` writes.
pub open spec fn saved_file(
    loaded: Seq<Loaded>,
    sources: Seq<Seq<char>>,
    order: OrderView,
    destination: Seq<char>,
) -> Result<Seq<u8>, SaveErrorView> {
    match composed(loaded, sources, order, destination) {
        Err(error) => Err(error),
        Ok(document) => {
            let kept = pdf::pruned(document);
            if pdf::max_id_in(document) + 2 > u32::MAX {
                Err(
                    SaveErrorView::PageTree {
                        path: destination,
                        detail: "impossibly many objects"@,
                    },
                )
            } else {
                match pdf::written(kept) {
                    Ok(bytes) => Ok(bytes),
                    Err(detail) => Err(SaveErrorView::Write { path: destination, detail }),
                }
            }
        },
    }
}

/// Whether `key` is one by which nodes of a page tree refer to each other.
pub open spec fn is_tree_key(key: Seq<u8>) -> bool {
    key == "Parent".spec_bytes() || key == "Kids".spec_bytes() || key == "Count".spec_bytes()
}

/// Whether `page`, which hangs somewhere below `root` in `given`, has kept its shape in
/// `kept`. Each value of its own is there, and each attribute that it inherited is written
/// onto it, so that it needs nothing above it.
pub open spec fn keeps_its_shape(
    given: lopdf::Document,
    root: ObjectId,
    page: ObjectId,
    kept: lopdf::Document,
) -> bool {
    let before = pdf::objects_in(given);
    let after = pdf::objects_in(kept);
    let pages = inherit::pages_below(given, root)->Ok_0.pages;
    &&& forall|key: Seq<u8>|
        pdf::entry_at(before, page, key) is Some && !is_tree_key(key) ==> #[trigger] pdf::entry_at(
            after,
            page,
            key,
        ) == pdf::entry_at(before, page, key)
    &&& forall|i: int, which: Inheritable|
        {
            &&& 0 <= i < pages.len()
            &&& (#[trigger] pages[i]).0 == page
            &&& pdf::dictionary_at(before, page) is Some
            &&& renumber::listed_once(before, pages, i)
        } ==> #[trigger] pdf::entry_at(after, page, which.spec_key()) == renumber::attribute_of(
            given,
            root,
            i,
            which,
        )
}

/// Whether `page` of `original` has kept its shape in `kept`, where it is `id`, as
/// [`keeps_its_shape`] has it, but for the ids that its values refer to.
pub open spec fn keeps_its_shape_renamed(
    original: lopdf::Document,
    page: ObjectId,
    kept: lopdf::Document,
    id: ObjectId,
    names: Map<ObjectId, ObjectId>,
) -> bool {
    let before = pdf::objects_in(original);
    let after = pdf::objects_in(kept);
    let root = pdf::page_tree_of(original)->0;
    let pages = inherit::pages_below(original, root)->Ok_0.pages;
    &&& forall|key: Seq<u8>|
        {
            &&& prune::used(original, page)
            &&& pdf::entry_at(before, page, key) is Some
            &&& !is_tree_key(key)
        } ==> renumber::same_value(
            pdf::entry_at(before, page, key),
            #[trigger] pdf::entry_at(after, id, key),
            names,
        )
    &&& forall|i: int, which: Inheritable|
        {
            &&& 0 <= i < pages.len()
            &&& (#[trigger] pages[i]).0 == page
            &&& pdf::dictionary_at(before, page) is Some
            &&& renumber::listed_once(before, pages, i)
        } ==> renumber::same_value(
            renumber::attribute_of(original, root, i, which),
            #[trigger] pdf::entry_at(after, id, which.spec_key()),
            names,
        )
}

/// Whether the document that a save of `order` writes is the one asked for. Its page tree is
/// flat: the root's kids are the pages shown, in that order, none of them a branch, and its
/// count is how many they are. Each page is the one that its source is in its own document's
/// file, names the root as its parent, and has kept the shape that it had there.
pub open spec fn holds_the_pages_shown(
    loaded: Seq<Loaded>,
    sources: Seq<Seq<char>>,
    order: OrderView,
    destination: Seq<char>,
) -> bool {
    let all = merged(loaded, sources, order, loaded.len())->Ok_0;
    let ids = objects_shown(order.order, all.files, sources, destination)->Ok_0;
    let kept = pdf::pruned(composed(loaded, sources, order, destination)->Ok_0);
    let objects = pdf::objects_in(kept);
    &&& pdf::page_tree_of(kept) == Some(all.root)
    &&& pdf::kids_at(objects, all.root) == Some(ids.map_values(|id: ObjectId| Some(id)))
    &&& pdf::entry_at(objects, all.root, "Count".spec_bytes()) == Some(
        pdf::integer_object(order.order.len() as i64),
    )
    &&& ids.len() == order.order.len()
    &&& forall|i: int|
        #![trigger ids[i]]
        #![trigger order.order[i]]
        0 <= i < ids.len() ==> {
            let k = order.order[i].document as int;
            let given = contributed(loaded, sources, order, k);
            &&& 0 <= k < loaded.len()
            &&& object_for(order.on_disk[k], pdf::pages_in(given), order.order[i]) == Some(ids[i])
            &&& pdf::stands_for_a_page(pdf::objects_in(given), ids[i])
            &&& pdf::has_type_at(pdf::objects_in(given), ids[i], "Page".spec_bytes())
                ==> pdf::has_type_at(objects, ids[i], "Page".spec_bytes())
            &&& keeps_its_shape(given, pdf::page_tree_of(given)->0, ids[i], kept)
            &&& k > 0 && pdf::tree_holds_together(loaded[k]->Document_0) ==> is_the_page_loaded(
                loaded,
                sources,
                order,
                i,
                ids[i],
                kept,
            )
            &&& pdf::dictionary_at(objects, ids[i]) is Some ==> pdf::entry_at(
                objects,
                ids[i],
                "Parent".spec_bytes(),
            ) == Some(pdf::reference_object(all.root))
        }
}

/// Whether `id` is, in `kept`, the page that shown page `i` is in its own document's file,
/// which was numbered anew, and has kept the shape that it had there.
pub open spec fn is_the_page_loaded(
    loaded: Seq<Loaded>,
    sources: Seq<Seq<char>>,
    order: OrderView,
    i: int,
    id: ObjectId,
    kept: lopdf::Document,
) -> bool {
    let k = order.order[i].document as int;
    let original = loaded[k]->Document_0;
    let names = names_given(loaded, sources, order, k);
    match object_for(order.on_disk[k], pdf::pages_in(original), order.order[i]) {
        Some(page) => {
            &&& pdf::renames(original, contributed(loaded, sources, order, k), names)
            &&& id == names[page]
            &&& keeps_its_shape_renamed(original, page, kept, id, names)
        },
        None => false,
    }
}

/// A source is the same page of a file, whatever its pages are called.
proof fn lemma_object_for_renamed(
    on_disk: Seq<Source>,
    pages: Seq<ObjectId>,
    names: Map<ObjectId, ObjectId>,
    source: Source,
)
    requires
        on_disk.len() <= pages.len(),
    ensures
        object_for(on_disk, pages.map_values(|id: ObjectId| names[id]), source) == (
        match object_for(on_disk, pages, source) {
            Some(page) => Some(names[page]),
            None => None,
        }),
    decreases on_disk.len(),
{
    if on_disk.len() > 0 {
        lemma_object_for_renamed(on_disk.drop_last(), pages, names, source);
    }
}

/// A page that has kept its shape through everything after it was numbered anew has kept the
/// shape that it had before.
proof fn lemma_shape_as_loaded(
    original: lopdf::Document,
    given: lopdf::Document,
    names: Map<ObjectId, ObjectId>,
    page: ObjectId,
    kept: lopdf::Document,
)
    requires
        renumber::renumbered_well(original, given, names),
        pdf::page_tree_of(given) is Some,
        inherit::pages_below(given, pdf::page_tree_of(given)->0) is Ok,
        keeps_its_shape(given, pdf::page_tree_of(given)->0, names[page], kept),
    ensures
        keeps_its_shape_renamed(original, page, kept, names[page], names),
{
    let before = pdf::objects_in(original);
    let middle = pdf::objects_in(given);
    let after = pdf::objects_in(kept);
    renumber::law_renumbering_keeps_the_page_tree(original, given, names);
    let root = pdf::page_tree_of(original)->0;
    let pages = inherit::pages_below(original, root)->Ok_0.pages;
    let again = inherit::pages_below(given, names[root])->Ok_0.pages;
    assert forall|key: Seq<u8>|
        {
            &&& prune::used(original, page)
            &&& pdf::entry_at(before, page, key) is Some
            &&& !is_tree_key(key)
        } implies renumber::same_value(
        pdf::entry_at(before, page, key),
        #[trigger] pdf::entry_at(after, names[page], key),
        names,
    ) by {
        renumber::law_renumbering_keeps_entries(original, given, names, page, key);
        assert(pdf::entry_at(middle, names[page], key) is Some);
    }
    assert forall|i: int, which: Inheritable|
        {
            &&& 0 <= i < pages.len()
            &&& (#[trigger] pages[i]).0 == page
            &&& pdf::dictionary_at(before, page) is Some
            &&& renumber::listed_once(before, pages, i)
        } implies renumber::same_value(
        renumber::attribute_of(original, root, i, which),
        #[trigger] pdf::entry_at(after, names[page], which.spec_key()),
        names,
    ) by {
        renumber::law_renumbering_keeps_each_page(original, given, names, i);
        assert(again[i].0 == names[page]);
        assert(renumber::same_value(
            renumber::attribute_of(original, root, i, which),
            renumber::attribute_of(given, names[root], i, which),
            names,
        ));
    }
}

/// The keys of the attributes that a page inherits are not keys of the tree, nor are the one by
/// which a catalog names its page tree and the one by which a node says what it is.
proof fn lemma_no_tree_key(which: Inheritable)
    ensures
        !is_tree_key(which.spec_key()),
        !is_tree_key("Pages".spec_bytes()),
        !is_tree_key("Type".spec_bytes()),
{
    broadcast use vstd::utf8::group_utf8_lib;

    reveal_strlit("Resources");
    reveal_strlit("MediaBox");
    reveal_strlit("CropBox");
    reveal_strlit("Rotate");
    reveal_strlit("Pages");
    reveal_strlit("Type");
    reveal_strlit("Parent");
    reveal_strlit("Kids");
    reveal_strlit("Count");
    assert("Type".is_ascii());
    assert("Type".spec_bytes().len() == 4);
    assert("Resources".is_ascii());
    assert("MediaBox".is_ascii());
    assert("CropBox".is_ascii());
    assert("Rotate".is_ascii());
    assert("Pages".is_ascii());
    assert("Parent".is_ascii());
    assert("Kids".is_ascii());
    assert("Count".is_ascii());
    assert("Resources".spec_bytes().len() == 9);
    assert("MediaBox".spec_bytes().len() == 8);
    assert("CropBox".spec_bytes().len() == 7);
    assert("Rotate".spec_bytes().len() == 6);
    assert("Pages".spec_bytes().len() == 5);
    assert("Parent".spec_bytes().len() == 6);
    assert("Kids".spec_bytes().len() == 4);
    assert("Count".spec_bytes().len() == 5);
    assert("Rotate".spec_bytes()[0] == 82);
    assert("Parent".spec_bytes()[0] == 80);
    assert("Pages".spec_bytes()[0] == 80);
    assert("Count".spec_bytes()[0] == 67);
    assert("Type".spec_bytes()[0] == 84);
    assert("Kids".spec_bytes()[0] == 75);
}

/// A page keeps its shape through being made ready, merged, arranged and pruned around.
proof fn lemma_page_keeps_its_shape(
    given: lopdf::Document,
    ready: lopdf::Document,
    root: ObjectId,
    all: lopdf::Document,
    arranged: lopdf::Document,
    touched: spec_fn(ObjectId, Seq<u8>) -> bool,
    kept: lopdf::Document,
    page: ObjectId,
)
    requires
        made_ready(given, ready, root),
        pdf::objects_in(ready).submap_of(pdf::objects_in(all)),
        same_but(pdf::objects_in(all), pdf::objects_in(arranged), touched),
        forall|id: ObjectId, key: Seq<u8>| #[trigger] touched(id, key) ==> is_tree_key(key),
        forall|key: Seq<u8>|
            #[trigger] pdf::entry_at(pdf::objects_in(kept), page, key) == pdf::entry_at(
                pdf::objects_in(arranged),
                page,
                key,
            ),
    ensures
        keeps_its_shape(given, root, page, kept),
{
    let before = pdf::objects_in(given);
    let filled = pdf::objects_in(ready);
    let held = pdf::objects_in(all);
    let after = pdf::objects_in(arranged);
    let pages = inherit::pages_below(given, root)->Ok_0.pages;
    let extra = |id: ObjectId| inherit::offered(before, pages, id);
    assert forall|key: Seq<u8>|
        pdf::entry_at(before, page, key) is Some && !is_tree_key(key) implies #[trigger] pdf::entry_at(
        pdf::objects_in(kept),
        page,
        key,
    ) == pdf::entry_at(before, page, key) by {
        inherit::law_a_value_of_its_own_is_kept(before, filled, extra, page, key);
        lemma_dictionary_among_more(filled, held, page);
        lemma_untouched_entry(held, after, touched, page, key);
    }
    assert forall|i: int, which: Inheritable|
        {
            &&& 0 <= i < pages.len()
            &&& (#[trigger] pages[i]).0 == page
            &&& pdf::dictionary_at(before, page) is Some
            &&& renumber::listed_once(before, pages, i)
        } implies #[trigger] pdf::entry_at(pdf::objects_in(kept), page, which.spec_key())
        == renumber::attribute_of(given, root, i, which) by {
        inherit::law_a_page_gets_what_it_inherits(before, filled, pages, i, which);
        inherit::lemma_chain_end_stable(before, filled, page, pdf::DEREF_LIMIT as nat);
        inherit::lemma_chain_end_is_an_object(before, page, pdf::DEREF_LIMIT as nat);
        let home = pdf::chain_end(before, page, pdf::DEREF_LIMIT as nat)->0;
        assert(before.dom().contains(home));
        assert(pdf::target_of(filled[home]) == pdf::target_of(before[home]));
        assert(pdf::dictionary_at(filled, page) is Some);
        lemma_dictionary_among_more(filled, held, page);
        lemma_no_tree_key(which);
        lemma_untouched_entry(held, after, touched, page, which.spec_key());
    }
}

/// Arranging pages and dropping what is unused gives the document asked for.
proof fn lemma_holds_the_pages_shown(
    loaded: Seq<Loaded>,
    sources: Seq<Seq<char>>,
    order: OrderView,
    destination: Seq<char>,
)
    requires
        composed(loaded, sources, order, destination) is Ok,
        ({
            let all = merged(loaded, sources, order, loaded.len())->Ok_0;
            let ids = objects_shown(order.order, all.files, sources, destination)->Ok_0;
            let before = pdf::objects_in(all.document);
            let whole = composed(loaded, sources, order, destination)->Ok_0;
            let after = pdf::objects_in(whole);
            &&& holds_all(loaded, sources, order, loaded.len(), all)
            &&& all.files.len() == loaded.len()
            &&& pdf::trailer_in(whole) == pdf::trailer_in(all.document)
            &&& same_but(before, after, arranging_touches(before, all.root, ids))
            &&& pdf::kids_at(after, all.root) == Some(ids.map_values(|id: ObjectId| Some(id)))
            &&& pdf::entry_at(after, all.root, "Count".spec_bytes()) == Some(
                pdf::integer_object(ids.len() as i64),
            )
            &&& forall|i: int|
                0 <= i < ids.len() && pdf::dictionary_at(before, #[trigger] ids[i]) is Some
                    ==> pdf::entry_at(after, ids[i], "Parent".spec_bytes()) == Some(
                    pdf::reference_object(all.root),
                )
            &&& prune::keeps_what_is_used(whole, pdf::pruned(whole))
        }),
    ensures
        holds_the_pages_shown(loaded, sources, order, destination),
{
    let all = merged(loaded, sources, order, loaded.len())->Ok_0;
    let ids = objects_shown(order.order, all.files, sources, destination)->Ok_0;
    let before = pdf::objects_in(all.document);
    let whole = composed(loaded, sources, order, destination)->Ok_0;
    let after = pdf::objects_in(whole);
    let kept = pdf::pruned(whole);
    let objects = pdf::objects_in(kept);
    let touched = arranging_touches(before, all.root, ids);
    let catalog = pdf::target_of(pdf::trailer_in(whole)["Root".spec_bytes()])->0;
    lemma_no_tree_key(Inheritable::Rotate);
    lemma_untouched_entry(before, after, touched, catalog, "Pages".spec_bytes());
    assert(pdf::page_tree_of(whole) == Some(all.root));
    prune::law_pruning_keeps_the_page_tree(whole, kept);
    law_the_pages_written_are_the_pages_shown(order.order, all.files, sources, destination);
    let kids = pdf::kids_at(after, all.root)->0;
    assert forall|i: int|
        #![trigger ids[i]]
        #![trigger order.order[i]]
        0 <= i < ids.len() implies {
        let k = order.order[i].document as int;
        let given = contributed(loaded, sources, order, k);
        &&& 0 <= k < loaded.len()
        &&& object_for(order.on_disk[k], pdf::pages_in(given), order.order[i]) == Some(ids[i])
        &&& pdf::stands_for_a_page(pdf::objects_in(given), ids[i])
        &&& pdf::has_type_at(pdf::objects_in(given), ids[i], "Page".spec_bytes())
            ==> pdf::has_type_at(objects, ids[i], "Page".spec_bytes())
        &&& keeps_its_shape(given, pdf::page_tree_of(given)->0, ids[i], kept)
        &&& k > 0 && pdf::tree_holds_together(loaded[k]->Document_0) ==> is_the_page_loaded(
            loaded,
            sources,
            order,
            i,
            ids[i],
            kept,
        )
        &&& pdf::dictionary_at(objects, ids[i]) is Some ==> pdf::entry_at(
            objects,
            ids[i],
            "Parent".spec_bytes(),
        ) == Some(pdf::reference_object(all.root))
    } by {
        let source = order.order[i];
        let k = source.document as int;
        assert(referenced(order.order, k));
        assert(needed(order.order, k));
        assert(taken_in(loaded, sources, order, k, all));
        let given = contributed(loaded, sources, order, k);
        let ready = prepared(given, sources[k], order.on_disk[k])->Ok_0;
        assert(kids[i] == Some(ids[i]));
        assert forall|key: Seq<u8>|
            #[trigger] pdf::entry_at(objects, ids[i], key) == pdf::entry_at(
                after,
                ids[i],
                key,
            ) by {
            assert(pdf::entry_at(objects, kids[i]->0, key) == pdf::entry_at(
                after,
                kids[i]->0,
                key,
            ));
        }
        lemma_page_keeps_its_shape(
            given,
            ready.document,
            ready.root,
            all.document,
            whole,
            touched,
            kept,
            ids[i],
        );
        save_laws::law_a_source_is_the_page_at_its_place(
            order.on_disk[k],
            pdf::pages_in(given),
            source,
        );
        let place = save_laws::place_in(order.on_disk[k], source)->0;
        assert(pdf::pages_in(given)[place] == ids[i]);
        assert(pdf::entry_at(objects, ids[i], "Type".spec_bytes()) == pdf::entry_at(
            pdf::objects_in(given),
            ids[i],
            "Type".spec_bytes(),
        ) || pdf::entry_at(pdf::objects_in(given), ids[i], "Type".spec_bytes()) is None);
        if k > 0 && pdf::tree_holds_together(loaded[k]->Document_0) {
            let original = loaded[k]->Document_0;
            let names = names_given(loaded, sources, order, k);
            lemma_object_for_renamed(
                order.on_disk[k],
                pdf::pages_in(original),
                names,
                order.order[i],
            );
            let page = object_for(order.on_disk[k], pdf::pages_in(original), order.order[i])->0;
            lemma_shape_as_loaded(original, given, names, page, kept);
        }
        prune::lemma_root_is_used(whole);
        prune::lemma_kids_are_used(whole, all.root, i);
        prune::lemma_dictionary_is_kept(whole, kept, ids[i]);
        lemma_untouched_dictionary(before, after, touched, ids[i]);
    }
}

/// The pages shown are found in the documents merged, where each is one that its document's
/// file holds.
proof fn lemma_shown_are_found(
    loaded: Seq<Loaded>,
    sources: Seq<Seq<char>>,
    order: OrderView,
    destination: Seq<char>,
    files: Seq<FileView>,
)
    requires
        can_be_saved(loaded, order),
        loaded.len() > 0,
        merged(loaded, sources, order, loaded.len()) is Ok,
        files == merged(loaded, sources, order, loaded.len())->Ok_0.files,
    ensures
        objects_shown(order.order, files, sources, destination) is Ok,
        objects_shown(order.order, files, sources, destination)->Ok_0.len() == order.order.len(),
{
    assert(needed(order.order, 0));
    assert(loaded[0] is Document);
    save_laws::lemma_merged_records(loaded, sources, order, loaded.len());
    assert forall|i: int| 0 <= i < order.order.len() implies {
        &&& (#[trigger] order.order[i]).document < files.len()
        &&& files[order.order[i].document as int].on_disk.contains(order.order[i])
    } by {
        let k = order.order[i].document as int;
        assert(referenced(order.order, k));
        assert(needed(order.order, k));
        assert(files[k].on_disk == order.on_disk[k]);
    }
    save_laws::lemma_found(order.order, files, sources, destination);
    law_the_pages_written_are_the_pages_shown(order.order, files, sources, destination);
}

/// The bytes of a file that holds only the pages `order` names, in the order it names them,
/// from documents that were loaded already.
///
/// Where the numbers of the first document are what it says they are, the document written
/// is the one asked for, as [`holds_the_pages_shown`] says. There is a file wherever the
/// documents and the order are as [`can_be_saved`] asks.
pub fn save_loaded(
    loaded: Vec<Loaded>,
    sources: &[String],
    order: &PageOrder,
    destination: &str,
) -> (file: Result<Vec<u8>, SaveError>)
    requires
        order.wf(),
        loaded@.len() == order@.source_lens.len(),
        sources@.len() == loaded@.len(),
        loaded@.len() > 0,
        forall|k: int|
            0 <= k < loaded@.len() && needed(order@.order, k) ==> !((
            #[trigger] loaded@[k]) is Unneeded),
    ensures
        match file {
            Ok(bytes) => {
                &&& saved_file(loaded@, texts(sources@), order@, destination@) == Ok::<
                    Seq<u8>,
                    SaveErrorView,
                >(bytes@)
                &&& pdf::numbered(loaded@[0]->Document_0) ==> holds_the_pages_shown(
                    loaded@,
                    texts(sources@),
                    order@,
                    destination@,
                )
            },
            Err(error) => saved_file(loaded@, texts(sources@), order@, destination@) == Err::<
                Seq<u8>,
                SaveErrorView,
            >(error@),
        },
        loaded@[0] is Document && pdf::well_marked(loaded@[0]->Document_0) ==> file is Ok
            == has_a_file(loaded@, texts(sources@), order@, destination@),
        can_be_saved(loaded@, order@) && pdf::numbered(loaded@[0]->Document_0)
            && pdf::well_marked(loaded@[0]->Document_0) ==> file is Ok,
{
    let (document, root, files) = match merge(loaded, sources, order) {
        Ok(all) => all,
        Err(error) => {
            return Err(error);
        },
    };
    let mut document = document;
    proof {
        if can_be_saved(loaded@, order@) {
            assert(needed(order@.order, 0));
            assert(loaded@[0] is Document);
            lemma_shown_are_found(
                loaded@,
                texts(sources@),
                order@,
                destination@,
                files_view(files@),
            );
        }
    }
    let ids = match page_objects(order.as_slice(), files.as_slice(), sources, destination) {
        Ok(ids) => ids,
        Err(error) => {
            return Err(error);
        },
    };
    match arrange(&mut document, root, ids.as_slice(), destination) {
        Ok(()) => {},
        Err(error) => {
            return Err(error);
        },
    }
    let ghost whole = document;
    pdf::prune(&mut document);
    proof {
        assert(prune::keeps_what_is_used(whole, document));
        if pdf::numbered(loaded@[0]->Document_0) {
            lemma_holds_the_pages_shown(loaded@, texts(sources@), order@, destination@);
        }
    }
    if pdf::max_id(&document) as u64 + 2 > u32::MAX as u64 {
        return Err(
            SaveError::PageTree {
                path: String::from_str(destination),
                detail: String::from_str("impossibly many objects"),
            },
        );
    }
    match pdf::write(&mut document) {
        Ok(bytes) => Ok(bytes),
        Err(detail) => Err(SaveError::Write { path: String::from_str(destination), detail }),
    }
}

/// Whether `loaded` is what can come of reading and parsing one contributing file.
pub open spec fn came_of_one(
    file: Result<Vec<u8>, String>,
    needed: bool,
    loaded: Loaded,
) -> bool {
    match loaded {
        Loaded::Document(document) => {
            &&& needed
            &&& file matches Ok(bytes) && pdf::loads_as(bytes@, document) && pdf::load_complaint(
                bytes@,
            ) is None && pdf::numbered(document) && pdf::well_marked(document)
        },
        Loaded::Failed(detail) => {
            &&& needed
            &&& match file {
                Ok(bytes) => pdf::load_complaint(bytes@) == Some(detail@),
                Err(text) => detail@ == text@,
            }
        },
        Loaded::Unneeded => !needed,
    }
}

/// Whether `loaded` is what can come of reading and parsing the contributing files. A file that
/// no shown page belongs to is not even looked at.
pub open spec fn came_of_reading(
    files: Seq<Result<Vec<u8>, String>>,
    shown: Seq<Source>,
    loaded: Seq<Loaded>,
) -> bool {
    &&& loaded.len() == files.len()
    &&& forall|k: int|
        0 <= k < files.len() ==> came_of_one(files[k], needed(shown, k), #[trigger] loaded[k])
}

/// The bytes of a file that holds only the pages `order` names, in the order it names them.
///
/// `sources` names one file per contributing document, the first being the one that the
/// others are added to; `files` holds, for each that [`files_needed`] asks for, its bytes or
/// why they could not be read. `exists` says whether there is a file at `destination`.
///
/// Every guard comes before any file is looked at. What a file that parses holds is decided
/// by the parser, which is given the bytes of each file that is needed and no others: from
/// there on [`save_loaded`] says what is written.
pub fn save_reordered(
    sources: &[String],
    files: &[Result<Vec<u8>, String>],
    order: &PageOrder,
    destination: &str,
    exists: bool,
    overwrite: Overwrite,
) -> (file: Result<Vec<u8>, SaveError>)
    requires
        order.wf(),
        files@.len() == sources@.len(),
    ensures
        match refusal(
            sources@.len(),
            order@.source_lens.len(),
            destination@,
            exists,
            overwrite,
        ) {
            Some(error) => file matches Err(given) && given@ == error,
            None => exists|loaded: Seq<Loaded>|
                {
                    &&& #[trigger] came_of_reading(files@, order@.order, loaded)
                    &&& file is Ok == has_a_file(loaded, texts(sources@), order@, destination@)
                    &&& can_be_saved(loaded, order@) ==> file is Ok
                    &&& match file {
                        Ok(bytes) => {
                            &&& saved_file(loaded, texts(sources@), order@, destination@) == Ok::<
                                Seq<u8>,
                                SaveErrorView,
                            >(bytes@)
                            &&& holds_the_pages_shown(
                                loaded,
                                texts(sources@),
                                order@,
                                destination@,
                            )
                        },
                        Err(error) => saved_file(
                            loaded,
                            texts(sources@),
                            order@,
                            destination@,
                        ) == Err::<Seq<u8>, SaveErrorView>(error@),
                    }
                },
        },
{
    match check_request(sources.len(), order, destination, exists, overwrite) {
        Ok(()) => {},
        Err(error) => {
            return Err(error);
        },
    }
    let needs = files_needed(order);
    let mut loaded: Vec<Loaded> = Vec::new();
    let mut k: usize = 0;
    while k < files.len()
        invariant
            k <= files@.len(),
            loaded@.len() == k,
            needs@.len() == files@.len(),
            forall|j: int|
                0 <= j < needs@.len() ==> #[trigger] needs@[j] == needed(order@.order, j),
            forall|j: int|
                0 <= j < k ==> came_of_one(
                    files@[j],
                    needed(order@.order, j),
                    #[trigger] loaded@[j],
                ),
        decreases files@.len() - k,
    {
        let one = if needs[k] {
            match &files[k] {
                Ok(bytes) => match pdf::load(bytes.as_slice()) {
                    Ok(document) => Loaded::Document(document),
                    Err(detail) => Loaded::Failed(detail),
                },
                Err(text) => Loaded::Failed(text.clone()),
            }
        } else {
            Loaded::Unneeded
        };
        loaded.push(one);
        k += 1;
    }
    let ghost all = loaded@;
    let file = save_loaded(loaded, sources, order, destination);
    proof {
        assert(came_of_reading(files@, order@.order, all));
        assert(needed(order@.order, 0));
        assert(came_of_one(files@[0], true, all[0]));
        if all[0] is Failed {
            lemma_merged_fails(all, texts(sources@), order@, 1, all.len());
        }
    }
    file
}

/// Whether no source occurs twice.
pub open spec fn all_different(sources: Seq<Source>) -> bool {
    forall|i: int, j: int|
        0 <= i < sources.len() && 0 <= j < sources.len() && i != j ==> #[trigger] sources[i]
            != #[trigger] sources[j]
}

/// A file that holds a source once has it where it holds it: page `i` of the file is what
/// the `i`th recorded source means, however often the file has been rewritten.
pub proof fn law_a_source_is_found_where_its_file_holds_it(
    on_disk: Seq<Source>,
    pages: Seq<ObjectId>,
    i: int,
)
    requires
        all_different(on_disk),
        on_disk.len() == pages.len(),
        0 <= i < on_disk.len(),
    ensures
        object_for(on_disk, pages, on_disk[i]) == Some(pages[i]),
{
    lemma_object_at(on_disk, pages, i, on_disk.len());
    assert(on_disk.take(on_disk.len() as int) =~= on_disk);
}

proof fn lemma_object_at(on_disk: Seq<Source>, pages: Seq<ObjectId>, i: int, n: nat)
    requires
        all_different(on_disk),
        0 <= i < n <= on_disk.len(),
    ensures
        object_for(on_disk.take(n as int), pages, on_disk[i]) == Some(pages[i]),
    decreases n,
{
    let first = on_disk.take(n as int);
    assert(first.last() == on_disk[n - 1]);
    if i != n - 1 {
        assert(first.drop_last() =~= on_disk.take(n - 1));
        lemma_object_at(on_disk, pages, i, (n - 1) as nat);
    }
}

/// A file that was never rewritten has page `page` of its document as its page `page`.
pub proof fn law_a_fresh_file_has_its_pages_in_order(
    document: usize,
    pages: Seq<ObjectId>,
    page: usize,
)
    requires
        page < pages.len() <= usize::MAX,
    ensures
        object_for(order::pages_of(document, pages.len()), pages, Source { document, page })
            == Some(pages[page as int]),
{
    let on_disk = order::pages_of(document, pages.len());
    assert(on_disk[page as int] == (Source { document, page }));
    law_a_source_is_found_where_its_file_holds_it(on_disk, pages, page as int);
}

/// A source that a file does not hold is not found in it.
pub proof fn law_a_missing_source_is_not_found(
    on_disk: Seq<Source>,
    pages: Seq<ObjectId>,
    source: Source,
)
    ensures
        object_for(on_disk, pages, source) is None == !on_disk.contains(source),
    decreases on_disk.len(),
{
    if on_disk.len() > 0 {
        law_a_missing_source_is_not_found(on_disk.drop_last(), pages, source);
        if on_disk.drop_last().contains(source) {
            let k = choose|k: int|
                0 <= k < on_disk.drop_last().len() && on_disk.drop_last()[k] == source;
            assert(on_disk[k] == source);
        }
        if on_disk.contains(source) && on_disk.last() != source {
            let k = choose|k: int| 0 <= k < on_disk.len() && on_disk[k] == source;
            assert(on_disk.drop_last()[k] == source);
        }
    }
}

/// A save writes one page for each that is shown, in the order they are shown, and each is
/// the object that its source is in its own document's file.
pub proof fn law_the_pages_written_are_the_pages_shown(
    shown: Seq<Source>,
    files: Seq<FileView>,
    sources: Seq<Seq<char>>,
    destination: Seq<char>,
)
    requires
        objects_shown(shown, files, sources, destination) is Ok,
    ensures
        ({
            let ids = objects_shown(shown, files, sources, destination)->Ok_0;
            &&& ids.len() == shown.len()
            &&& forall|i: int|
                0 <= i < shown.len() ==> {
                    let file = files[(#[trigger] shown[i]).document as int];
                    &&& shown[i].document < files.len()
                    &&& object_for(file.on_disk, file.pages, shown[i]) == Some(ids[i])
                }
        }),
    decreases shown.len(),
{
    if shown.len() > 0 {
        law_the_pages_written_are_the_pages_shown(shown.drop_last(), files, sources, destination);
        let ids = objects_shown(shown, files, sources, destination)->Ok_0;
        let earlier = objects_shown(shown.drop_last(), files, sources, destination)->Ok_0;
        assert forall|i: int| 0 <= i < shown.len() implies {
            let file = files[(#[trigger] shown[i]).document as int];
            &&& shown[i].document < files.len()
            &&& object_for(file.on_disk, file.pages, shown[i]) == Some(ids[i])
        } by {
            if i < shown.len() - 1 {
                assert(shown.drop_last()[i] == shown[i]);
                assert(ids[i] == earlier[i]);
            }
        }
    }
}

} // verus!
