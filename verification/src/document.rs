//! What belongs to one open document: the files that contribute pages to it, the order those
//! are shown in, and the documents staged to place pages from.

use vstd::prelude::*;
use vstd::string::*;

use crate::order;
use crate::order::{OrderView, PageOrder, Source};
use crate::stage::StageId;
use crate::text;

verus! {

/// A failure while opening or parsing a PDF.
#[derive(Debug, Clone, PartialEq, Eq)]
pub enum DocumentError {
    /// The file could not be read from disk, for a reason that the system gives.
    Io { path: String, source: String },
    /// The bytes were not a PDF that could be parsed.
    Parse { detail: String },
    /// The parser panicked. That is a bug rather than an ordinary rejection of bad input.
    ParserPanicked,
}

/// A failure while opening or parsing a PDF, by its texts.
#[verifier::ext_equal]
pub enum DocumentErrorView {
    Io { path: Seq<char>, source: Seq<char> },
    Parse { detail: Seq<char> },
    ParserPanicked,
}

impl View for DocumentError {
    type V = DocumentErrorView;

    open spec fn view(&self) -> DocumentErrorView {
        match self {
            DocumentError::Io { path, source } => DocumentErrorView::Io {
                path: path@,
                source: source@,
            },
            DocumentError::Parse { detail } => DocumentErrorView::Parse { detail: detail@ },
            DocumentError::ParserPanicked => DocumentErrorView::ParserPanicked,
        }
    }
}

impl DocumentErrorView {
    /// The failure in words.
    pub open spec fn message(self) -> Seq<char> {
        match self {
            DocumentErrorView::Io { path, .. } => "could not read "@ + path,
            DocumentErrorView::Parse { detail } => "could not parse PDF: "@ + detail,
            DocumentErrorView::ParserPanicked =>
                "the PDF parser panicked; the file is likely malformed in a way it mishandles"@,
        }
    }
}

impl DocumentError {
    /// The failure in words.
    pub fn message(&self) -> (message: String)
        ensures
            message@ == self@.message(),
    {
        match self {
            DocumentError::Io { path, .. } => text::joined("could not read ", path.as_str()),
            DocumentError::Parse { detail } => text::joined(
                "could not parse PDF: ",
                detail.as_str(),
            ),
            DocumentError::ParserPanicked => String::from_str(
                "the PDF parser panicked; the file is likely malformed in a way it mishandles",
            ),
        }
    }
}

/// What became of the bytes of a file.
#[derive(Debug, Clone, PartialEq, Eq)]
pub enum Parsing {
    /// A document of so many pages.
    Pages(usize),
    /// The parser's own complaint.
    Refused(String),
    /// The parser panicked.
    Panicked,
}

/// Whether the file at `path` opened, once it has been read and parsed, or why not.
pub fn examined(path: &str, read: Result<Parsing, String>) -> (opened: Result<
    usize,
    DocumentError,
>)
    ensures
        match read {
            Err(source) => opened matches Err(error) && error@ == (DocumentErrorView::Io {
                path: path@,
                source: source@,
            }),
            Ok(Parsing::Refused(detail)) => opened matches Err(error) && error@ == (
            DocumentErrorView::Parse { detail: detail@ }),
            Ok(Parsing::Panicked) => opened matches Err(error) && error@
                == DocumentErrorView::ParserPanicked,
            Ok(Parsing::Pages(count)) => opened == Ok::<usize, DocumentError>(count),
        },
{
    match read {
        Err(source) => Err(DocumentError::Io { path: String::from_str(path), source }),
        Ok(Parsing::Refused(detail)) => Err(DocumentError::Parse { detail }),
        Ok(Parsing::Panicked) => Err(DocumentError::ParserPanicked),
        Ok(Parsing::Pages(count)) => Ok(count),
    }
}

/// One document contributing pages to what is open, and where it came from.
#[derive(Debug)]
pub struct OpenFile {
    pub path: String,
    pub page_count: usize,
}

/// A contributing document, by its text.
#[verifier::ext_equal]
pub struct FileView {
    pub path: Seq<char>,
    pub page_count: usize,
}

impl View for OpenFile {
    type V = FileView;

    open spec fn view(&self) -> FileView {
        FileView { path: self.path@, page_count: self.page_count }
    }
}

/// One staged document: its id, and which of the contributing documents it is.
#[derive(Debug)]
pub struct Staged {
    pub id: StageId,
    pub document: usize,
}

/// A staged document, by its number.
pub struct StagedView {
    pub id: usize,
    pub document: usize,
}

impl View for Staged {
    type V = StagedView;

    open spec fn view(&self) -> StagedView {
        StagedView { id: self.id.spec_get(), document: self.document }
    }
}

/// The documents, by their texts.
pub open spec fn files_in(files: Seq<OpenFile>) -> Seq<FileView> {
    files.map_values(|file: OpenFile| file@)
}

/// The staged documents, by their numbers.
pub open spec fn staging_in(staging: Seq<Staged>) -> Seq<StagedView> {
    staging.map_values(|staged: Staged| staged@)
}

/// Everything that belongs to one open document.
#[derive(Debug)]
pub struct OpenDocument {
    files: Vec<OpenFile>,
    order: PageOrder,
    staging: Vec<Staged>,
    next_stage: StageId,
}

/// What an [`OpenDocument`] holds.
#[verifier::ext_equal]
pub struct DocumentView {
    /// Every contributing document, the first being the one that was opened.
    pub files: Seq<FileView>,
    /// The order that pages are shown in.
    pub order: OrderView,
    /// The staged documents, in the order they were staged.
    pub staging: Seq<StagedView>,
    /// The id that the next staged document gets.
    pub next_stage: usize,
}

impl View for OpenDocument {
    type V = DocumentView;

    closed spec fn view(&self) -> DocumentView {
        DocumentView {
            files: files_in(self.files@),
            order: self.order@,
            staging: staging_in(self.staging@),
            next_stage: self.next_stage.spec_get(),
        }
    }
}

/// Which contributing document is staged as `id`, if one is.
pub open spec fn document_of(staging: Seq<StagedView>, id: usize) -> Option<usize>
    decreases staging.len(),
{
    if staging.len() == 0 {
        None
    } else if staging.first().id == id {
        Some(staging.first().document)
    } else {
        document_of(staging.drop_first(), id)
    }
}

/// The staged documents without `id`.
pub open spec fn without(staging: Seq<StagedView>, id: usize) -> Seq<StagedView> {
    staging.filter(|staged: StagedView| staged.id != id)
}

/// The id staged most recently, which is the highest.
pub open spec fn latest(staging: Seq<StagedView>) -> Option<usize>
    decreases staging.len(),
{
    if staging.len() == 0 {
        None
    } else {
        match latest(staging.drop_last()) {
            Some(id) => Some(
                if staging.last().id > id {
                    staging.last().id
                } else {
                    id
                },
            ),
            None => Some(staging.last().id),
        }
    }
}

/// The id that the document at `path` was staged as, most recently.
pub open spec fn staged_from(
    staging: Seq<StagedView>,
    files: Seq<FileView>,
    path: Seq<char>,
) -> Option<usize>
    decreases staging.len(),
{
    if staging.len() == 0 {
        None
    } else if files[staging.last().document as int].path == path {
        Some(staging.last().id)
    } else {
        staged_from(staging.drop_last(), files, path)
    }
}

impl DocumentView {
    /// A document that has just been opened.
    pub open spec fn fresh(path: Seq<char>, page_count: usize) -> DocumentView {
        DocumentView {
            files: seq![FileView { path, page_count }],
            order: OrderView::fresh(page_count),
            staging: Seq::empty(),
            next_stage: 1,
        }
    }

    /// There is a document that was opened, and every staged one is among those known.
    pub open spec fn wf(self) -> bool {
        &&& self.files.len() > 0
        &&& self.order.wf()
        &&& forall|i: int|
            0 <= i < self.staging.len() ==> (#[trigger] self.staging[i]).document
                < self.files.len()
    }

    /// Where the document was opened from, and is saved to.
    pub open spec fn primary_path(self) -> Seq<char> {
        self.files[0].path
    }

    /// Whether the order differs from the file.
    pub open spec fn unsaved(self) -> bool {
        self.order.order != self.order.saved
    }

    /// Another document known. Always a new one, even for a path that is known already: its
    /// file may have changed since.
    pub open spec fn with_file(self, path: Seq<char>, page_count: usize) -> DocumentView {
        DocumentView { files: self.files.push(FileView { path, page_count }), ..self }
    }

    /// The index that the last document known has.
    pub open spec fn last_file(self) -> usize {
        (self.files.len() - 1) as usize
    }

    /// Every page of another document added to the end. One without pages changes nothing that
    /// is shown.
    pub open spec fn with_pages_of(self, path: Seq<char>, page_count: usize) -> DocumentView {
        let known = self.with_file(path, page_count);
        if page_count == 0 {
            known
        } else {
            DocumentView { order: known.order.appended(known.last_file(), page_count), ..known }
        }
    }

    /// Another document staged, under a new id.
    pub open spec fn with_staged(self, path: Seq<char>, page_count: usize) -> DocumentView {
        let known = self.with_file(path, page_count);
        DocumentView {
            order: known.order.staged(known.last_file(), page_count),
            staging: known.staging.push(
                StagedView { id: known.next_stage, document: known.last_file() },
            ),
            next_stage: StageId::spec_next(known.next_stage),
            ..known
        }
    }

    /// `id` not staged any more. What was placed from it stays.
    pub open spec fn without_stage(self, id: usize) -> DocumentView {
        DocumentView { staging: without(self.staging, id), ..self }
    }

    /// The pages of the document staged as `id`, if one is.
    pub open spec fn staged_sources(self, id: usize) -> Option<Seq<Source>> {
        match document_of(self.staging, id) {
            Some(document) => Some(
                order::pages_of(document, self.files[document as int].page_count as nat),
            ),
            None => None,
        }
    }

    /// How many pages the document staged as `id` has. None if there is no such one.
    pub open spec fn staged_page_count(self, id: usize) -> usize {
        match document_of(self.staging, id) {
            Some(document) => self.files[document as int].page_count,
            None => 0,
        }
    }

    /// The order changed.
    pub open spec fn with_order(self, order: OrderView) -> DocumentView {
        DocumentView { order, ..self }
    }

    /// The file written to `path`, with the pages `written` in it. From now on that is the
    /// document's file.
    pub open spec fn saved_to(self, path: Seq<char>, written: Seq<Source>) -> DocumentView {
        DocumentView {
            files: self.files.update(0, FileView { path, page_count: self.files[0].page_count }),
            order: self.order.marked_saved(0, written),
            ..self
        }
    }
}

/// A staged document is among those known.
proof fn lemma_document_of(staging: Seq<StagedView>, id: usize, bound: nat)
    requires
        forall|i: int| 0 <= i < staging.len() ==> (#[trigger] staging[i]).document < bound,
    ensures
        document_of(staging, id) matches Some(document) ==> document < bound,
    decreases staging.len(),
{
    if staging.len() > 0 && staging.first().id != id {
        let rest = staging.drop_first();
        assert forall|i: int| 0 <= i < rest.len() implies (#[trigger] rest[i]).document
            < bound by {
            assert(rest[i] == staging[i + 1]);
        }
        lemma_document_of(rest, id, bound);
    } else if staging.len() > 0 {
        assert(staging[0].document < bound);
    }
}

impl OpenDocument {
    /// A document that has just been opened.
    pub fn new(path: String, page_count: usize) -> (document: OpenDocument)
        ensures
            document@ == DocumentView::fresh(path@, page_count),
            document@.wf(),
    {
        let mut files: Vec<OpenFile> = Vec::new();
        let ghost named = path@;
        files.push(OpenFile { path, page_count });
        let document = OpenDocument {
            files,
            order: PageOrder::identity(page_count),
            staging: Vec::new(),
            next_stage: StageId::first(),
        };
        proof {
            assert(document@.files =~= seq![FileView { path: named, page_count }]);
            assert(document@.staging =~= Seq::empty());
        }
        document
    }

    /// The order that pages are shown in.
    pub fn order(&self) -> (order: &PageOrder)
        ensures
            order@ == self@.order,
    {
        &self.order
    }

    /// Where the document was opened from, and is saved to.
    pub fn primary_path(&self) -> (path: &str)
        requires
            self@.wf(),
        ensures
            path@ == self@.primary_path(),
    {
        self.files[0].path.as_str()
    }

    /// Where every contributing document is, in the order that sources count them.
    pub fn source_paths(&self) -> (paths: Vec<String>)
        ensures
            paths@.len() == self@.files.len(),
            forall|i: int|
                0 <= i < paths@.len() ==> (#[trigger] paths@[i])@ == self@.files[i].path,
    {
        let mut paths: Vec<String> = Vec::new();
        let mut i: usize = 0;
        while i < self.files.len()
            invariant
                i <= self.files.len(),
                paths@.len() == i,
                forall|j: int| 0 <= j < i ==> (#[trigger] paths@[j])@ == self@.files[j].path,
            decreases self.files.len() - i,
        {
            paths.push(String::from_str(self.files[i].path.as_str()));
            i += 1;
        }
        paths
    }

    /// Another document known, the index of which is reported.
    fn add_file(&mut self, path: String, page_count: usize) -> (document: usize)
        requires
            old(self)@.wf(),
        ensures
            final(self)@ == old(self)@.with_file(path@, page_count),
            document == final(self)@.last_file(),
            document < usize::MAX,
            final(self)@.wf(),
    {
        let ghost named = path@;
        self.files.push(OpenFile { path, page_count });
        proof {
            assert(self@.files =~= old(self)@.files.push(FileView { path: named, page_count }));
            assert forall|i: int| 0 <= i < self@.staging.len() implies (#[trigger] self@.staging[i]).document
                < self@.files.len() by {
                assert(self@.staging[i] == old(self)@.staging[i]);
            }
        }
        self.files.len() - 1
    }

    /// Which contributing document is staged as `stage`, if one is.
    pub fn staged_document(&self, stage: StageId) -> (document: Option<usize>)
        requires
            self@.wf(),
        ensures
            document == document_of(self@.staging, stage.spec_get()),
            document matches Some(document) ==> document < self@.files.len(),
    {
        let ghost all = self@.staging;
        proof {
            lemma_document_of(all, stage.spec_get(), self@.files.len());
            assert(all.skip(0) =~= all);
        }
        let mut i: usize = 0;
        while i < self.staging.len()
            invariant
                i <= self.staging.len(),
                all == staging_in(self.staging@),
                document_of(all, stage.spec_get()) == document_of(
                    all.skip(i as int),
                    stage.spec_get(),
                ),
                document_of(all, stage.spec_get()) matches Some(document) ==> document
                    < self@.files.len(),
            decreases self.staging.len() - i,
        {
            proof {
                assert(all.skip(i as int).first() == self.staging@[i as int]@);
                assert(all.skip(i as int).drop_first() =~= all.skip(i + 1));
            }
            if self.staging[i].id.get() == stage.get() {
                return Some(self.staging[i].document);
            }
            i += 1;
        }
        None
    }

    /// How many pages the document staged as `stage` has. None if there is no such one.
    pub fn staged_page_count(&self, stage: StageId) -> (pages: usize)
        requires
            self@.wf(),
        ensures
            pages == self@.staged_page_count(stage.spec_get()),
    {
        match self.staged_document(stage) {
            Some(document) => self.files[document].page_count,
            None => 0,
        }
    }

    /// The pages of the document staged as `stage`, if one is.
    pub fn staged_sources(&self, stage: StageId) -> (sources: Option<Vec<Source>>)
        requires
            self@.wf(),
        ensures
            match sources {
                Some(sources) => self@.staged_sources(stage.spec_get()) == Some(sources@),
                None => self@.staged_sources(stage.spec_get()) is None,
            },
    {
        match self.staged_document(stage) {
            Some(document) => Some(order::every_page(document, self.files[document].page_count)),
            None => None,
        }
    }

    /// The staged document at `index`, counted in the order they were staged, and where it was
    /// staged from.
    pub fn stage_at(&self, index: usize) -> (staged: (StageId, &str))
        requires
            self@.wf(),
            index < self@.staging.len(),
        ensures
            staged.0.spec_get() == self@.staging[index as int].id,
            staged.1@ == self@.files[self@.staging[index as int].document as int].path,
    {
        let staged = &self.staging[index];
        proof {
            assert(self@.staging[index as int] == self.staging@[index as int]@);
        }
        (staged.id, self.files[staged.document].path.as_str())
    }

    /// How many documents are staged.
    pub fn stages(&self) -> (count: usize)
        ensures
            count == self@.staging.len(),
    {
        self.staging.len()
    }

    /// Which id a contributing document is staged as, if it is.
    pub fn stage_for_document(&self, document: usize) -> (stage: Option<StageId>)
        ensures
            match stage {
                Some(stage) => exists|i: int|
                    0 <= i < self@.staging.len() && #[trigger] self@.staging[i] == (StagedView {
                        id: stage.spec_get(),
                        document,
                    }) && forall|j: int|
                        0 <= j < i ==> (#[trigger] self@.staging[j]).document != document,
                None => forall|i: int|
                    0 <= i < self@.staging.len() ==> (#[trigger] self@.staging[i]).document
                        != document,
            },
    {
        let mut i: usize = 0;
        while i < self.staging.len()
            invariant
                i <= self.staging.len(),
                forall|j: int|
                    0 <= j < i ==> (#[trigger] self@.staging[j]).document != document,
            decreases self.staging.len() - i,
        {
            proof {
                assert(self@.staging[i as int] == self.staging@[i as int]@);
            }
            if self.staging[i].document == document {
                return Some(self.staging[i].id);
            }
            i += 1;
        }
        None
    }

    /// The id that the document at `path` was staged as, most recently.
    pub fn staged_from(&self, path: &str) -> (stage: Option<StageId>)
        requires
            self@.wf(),
        ensures
            match stage {
                Some(stage) => staged_from(self@.staging, self@.files, path@) == Some(
                    stage.spec_get(),
                ),
                None => staged_from(self@.staging, self@.files, path@) is None,
            },
    {
        let ghost all = self@.staging;
        let mut count: usize = self.staging.len();
        proof {
            assert(all.take(count as int) =~= all);
        }
        while count > 0
            invariant
                count <= self.staging.len(),
                self@.wf(),
                all == self@.staging,
                staged_from(all, self@.files, path@) == staged_from(
                    all.take(count as int),
                    self@.files,
                    path@,
                ),
            decreases count,
        {
            proof {
                assert(all.take(count as int).last() == self.staging@[count - 1]@);
                assert(all.take(count as int).drop_last() =~= all.take(count - 1));
                assert(all[count - 1].document < self@.files.len());
            }
            let document = self.staging[count - 1].document;
            if text::same_text(self.files[document].path.as_str(), path) {
                return Some(self.staging[count - 1].id);
            }
            count -= 1;
        }
        None
    }

    /// `stage` not staged any more. Reports whether it was.
    pub fn unstage(&mut self, stage: StageId) -> (changed: bool)
        requires
            old(self)@.wf(),
        ensures
            final(self)@ == old(self)@.without_stage(stage.spec_get()),
            final(self)@.wf(),
            changed == (final(self)@.staging.len() != old(self)@.staging.len()),
            !changed ==> final(self)@ == old(self)@,
    {
        let ghost all = self@.staging;
        let ghost id = stage.spec_get();
        let before = self.staging.len();
        let mut rest: Vec<Staged> = Vec::new();
        let mut i: usize = 0;
        proof {
            assert(without(all.take(0), id) =~= Seq::empty());
            assert(staging_in(rest@) =~= Seq::empty());
        }
        while i < self.staging.len()
            invariant
                i <= self.staging.len(),
                self.staging@ == old(self).staging@,
                all == staging_in(self.staging@),
                id == stage.spec_get(),
                staging_in(rest@) == without(all.take(i as int), id),
                rest@.len() <= i,
                rest@.len() == i ==> staging_in(rest@) == all.take(i as int),
                forall|j: int|
                    0 <= j < rest@.len() ==> exists|k: int|
                        0 <= k < i && (#[trigger] rest@[j])@ == #[trigger] all[k],
            decreases self.staging.len() - i,
        {
            let ghost earlier = rest@;
            proof {
                let next = all.take(i + 1);
                assert(next.drop_last() =~= all.take(i as int));
                assert(next.last() == self.staging@[i as int]@);
                reveal(Seq::filter);
            }
            if self.staging[i].id.get() != stage.get() {
                rest.push(Staged { id: self.staging[i].id, document: self.staging[i].document });
                proof {
                    assert(staging_in(rest@) =~= staging_in(earlier).push(all[i as int]));
                    assert forall|j: int| 0 <= j < rest@.len() implies exists|k: int|
                        0 <= k < i + 1 && (#[trigger] rest@[j])@ == #[trigger] all[k] by {
                        if j < earlier.len() {
                            assert(rest@[j] == earlier[j]);
                        } else {
                            assert(rest@[j]@ == all[i as int]);
                        }
                    }
                    if rest@.len() == i + 1 {
                        assert(staging_in(rest@) =~= all.take(i + 1));
                    }
                }
            }
            i += 1;
        }
        proof {
            assert(all.take(i as int) =~= all);
            assert forall|j: int| 0 <= j < rest@.len() implies (#[trigger] staging_in(
                rest@,
            )[j]).document < self@.files.len() by {
                assert(staging_in(rest@)[j] == rest@[j]@);
                let k = choose|k: int| 0 <= k < i && rest@[j]@ == #[trigger] all[k];
                assert(all[k].document < self@.files.len());
            }
        }
        self.staging = rest;
        self.staging.len() != before
    }

    /// The id staged most recently.
    pub fn latest(&self) -> (stage: Option<StageId>)
        ensures
            match stage {
                Some(stage) => latest(self@.staging) == Some(stage.spec_get()),
                None => latest(self@.staging) is None,
            },
    {
        let ghost all = self@.staging;
        let mut found: Option<StageId> = None;
        let mut i: usize = 0;
        proof {
            assert(all.take(0) =~= Seq::empty());
        }
        while i < self.staging.len()
            invariant
                i <= self.staging.len(),
                all == staging_in(self.staging@),
                match found {
                    Some(stage) => latest(all.take(i as int)) == Some(stage.spec_get()),
                    None => latest(all.take(i as int)) is None,
                },
            decreases self.staging.len() - i,
        {
            proof {
                assert(all.take(i + 1).drop_last() =~= all.take(i as int));
                assert(all.take(i + 1).last() == self.staging@[i as int]@);
            }
            found = match found {
                Some(stage) => if self.staging[i].id.get() > stage.get() {
                    Some(self.staging[i].id)
                } else {
                    Some(stage)
                },
                None => Some(self.staging[i].id),
            };
            i += 1;
        }
        proof {
            assert(all.take(i as int) =~= all);
        }
        found
    }
}

/// An edit of what is shown.
#[derive(Debug)]
pub enum PageEdit {
    /// Gather pages and put them down elsewhere.
    Move { positions: Vec<usize>, to: usize },
    /// Take pages out.
    Remove { positions: Vec<usize> },
    /// Put pages of a contributing document in.
    Insert { document: usize, pages: Vec<usize>, at: usize },
    /// Walk back the last edit.
    Undo,
}

/// An edit of what is shown, by its numbers.
#[verifier::ext_equal]
pub enum PageEditView {
    Move { positions: Seq<usize>, to: usize },
    Remove { positions: Seq<usize> },
    Insert { document: usize, pages: Seq<usize>, at: usize },
    Undo,
}

impl View for PageEdit {
    type V = PageEditView;

    open spec fn view(&self) -> PageEditView {
        match self {
            PageEdit::Move { positions, to } => PageEditView::Move {
                positions: positions@,
                to: *to,
            },
            PageEdit::Remove { positions } => PageEditView::Remove { positions: positions@ },
            PageEdit::Insert { document, pages, at } => PageEditView::Insert {
                document: *document,
                pages: pages@,
                at: *at,
            },
            PageEdit::Undo => PageEditView::Undo,
        }
    }
}

impl PageEditView {
    /// Whether the edit changes an order.
    pub open spec fn changes(self, order: OrderView) -> bool {
        match self {
            PageEditView::Move { positions, to } => order.can_move(positions, to),
            PageEditView::Remove { positions } => order.can_remove(positions),
            PageEditView::Insert { document, pages, at } => order.can_insert(document, pages, at),
            PageEditView::Undo => order.history.len() > 0,
        }
    }

    /// The order after the edit.
    pub open spec fn applied(self, order: OrderView) -> OrderView {
        if !self.changes(order) {
            order
        } else {
            match self {
                PageEditView::Move { positions, to } => order.moved(positions, to),
                PageEditView::Remove { positions } => order.removed(positions),
                PageEditView::Insert { document, pages, at } => order.inserted(
                    document,
                    pages,
                    at,
                ),
                PageEditView::Undo => order.undone(),
            }
        }
    }
}

impl OpenDocument {
    /// Applies an edit. Reports whether anything changed.
    pub fn edit(&mut self, edit: &PageEdit) -> (changed: bool)
        requires
            old(self)@.wf(),
        ensures
            final(self)@.wf(),
            changed == edit@.changes(old(self)@.order),
            final(self)@ == old(self)@.with_order(edit@.applied(old(self)@.order)),
    {
        let ghost before = self@;
        let changed = match edit {
            PageEdit::Move { positions, to } => self.order.move_pages(positions.as_slice(), *to),
            PageEdit::Remove { positions } => self.order.remove_pages(positions.as_slice()),
            PageEdit::Insert { document, pages, at } => self.order.insert_pages(
                *document,
                pages.as_slice(),
                *at,
            ),
            PageEdit::Undo => self.order.undo(),
        };
        proof {
            assert(self@.files =~= before.files);
            assert(self@.staging =~= before.staging);
        }
        changed
    }

    /// Adds every page of another document to the end. Reports whether anything that is shown
    /// changed.
    pub fn insert_file(&mut self, path: String, page_count: usize) -> (changed: bool)
        requires
            old(self)@.wf(),
        ensures
            final(self)@.wf(),
            changed == (page_count != 0),
            final(self)@ == old(self)@.with_pages_of(path@, page_count),
    {
        let document = self.add_file(path, page_count);
        let ghost known = self@;
        let changed = self.order.append(document, page_count);
        proof {
            assert(self@.files =~= known.files);
            assert(self@.staging =~= known.staging);
        }
        changed
    }

    /// Stages another document, which has at least one page, under a new id.
    pub fn stage(&mut self, path: String, page_count: usize) -> (stage: StageId)
        requires
            old(self)@.wf(),
            page_count > 0,
        ensures
            final(self)@.wf(),
            stage.spec_get() == old(self)@.next_stage,
            final(self)@ == old(self)@.with_staged(path@, page_count),
    {
        let document = self.add_file(path, page_count);
        let ghost known = self@;
        let _ = self.order.stage(document, page_count);
        let stage = self.next_stage;
        self.next_stage = stage.next();
        self.staging.push(Staged { id: stage, document });
        proof {
            assert(self@.files =~= known.files);
            assert(self@.staging =~= known.staging.push(
                StagedView { id: stage.spec_get(), document },
            ));
        }
        stage
    }

    /// Records that the document was written to `path` with the pages `written` in it. The
    /// order may have changed since the write began, so those are not what is shown.
    pub fn mark_saved(&mut self, path: String, written: &[Source])
        requires
            old(self)@.wf(),
        ensures
            final(self)@.wf(),
            final(self)@ == old(self)@.saved_to(path@, written@),
    {
        let ghost before = self@;
        let ghost named = path@;
        let page_count = self.files[0].page_count;
        self.files.set(0, OpenFile { path, page_count });
        self.order.mark_saved(0, written);
        proof {
            assert(self@.files =~= before.files.update(
                0,
                FileView { path: named, page_count: before.files[0].page_count },
            ));
            assert(self@.staging =~= before.staging);
        }
    }
}

} // verus!
