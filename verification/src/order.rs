//! What order the pages are in, and how to change it.
//!
//! An edit never touches a file. It is held as a list of **sources in display order**,
//! starting at one entry per page of the document the viewer was opened with. Moving a
//! page reorders the list; deleting one drops an entry; inserting another document's
//! pages adds entries that name it. The document on disk changes only on save.
//!
//! After any edit there are two page numbers in play, and both are `usize`. Variables
//! here are named `position` (where a page is shown) or `source` (which page it is),
//! never just `page`.
//!
//! A source's identity outlives its file's layout: saving rewrites a document's file,
//! compacted and renumbered, while the sources that name its pages never change. The
//! record that keeps the two apart is [`PageOrder::on_disk`].

use vstd::prelude::*;

verus! {

/// A page in one of the documents contributing to what is shown.
#[derive(Debug, Clone, Copy, PartialEq, Eq, Hash, PartialOrd, Ord, Structural)]
pub struct Source {
    /// Which contributing document, in the order it was added to the session. `0` is the
    /// document the viewer was opened with.
    pub document: usize,
    /// A page index within that document.
    pub page: usize,
}

impl Source {
    /// A page of the first contributing document.
    pub fn primary(page: usize) -> (source: Source)
        ensures
            source == (Source { document: 0, page }),
    {
        Source { document: 0, page }
    }
}

/// How many undo steps are remembered.
pub const UNDO_DEPTH: usize = 64;

/// The pages `0..count` of `document`, in order.
pub open spec fn pages_of(document: usize, count: nat) -> Seq<Source> {
    Seq::new(count, |page: int| Source { document, page: page as usize })
}

/// The named pages of `document`, in the order they are named.
pub open spec fn named_pages(document: usize, pages: Seq<usize>) -> Seq<Source> {
    Seq::new(pages.len(), |i: int| Source { document, page: pages[i] })
}

/// The entries of `order` whose position is among `positions` (`inside`), or is not
/// (`!inside`), in the order they are shown.
pub open spec fn select(order: Seq<Source>, positions: Seq<usize>, inside: bool) -> Seq<Source>
    decreases order.len(),
{
    if order.len() == 0 {
        Seq::empty()
    } else {
        let earlier = select(order.drop_last(), positions, inside);
        if positions.contains((order.len() - 1) as usize) == inside {
            earlier.push(order.last())
        } else {
            earlier
        }
    }
}

/// Whether `positions` names at least one page, and only pages that are shown.
pub open spec fn usable(positions: Seq<usize>, len: nat) -> bool {
    &&& positions.len() > 0
    &&& forall|i: int| 0 <= i < positions.len() ==> #[trigger] positions[i] < len
}

/// `block` put into `rest` so that it starts at `at`.
pub open spec fn splice(rest: Seq<Source>, block: Seq<Source>, at: int) -> Seq<Source> {
    rest.take(at) + block + rest.skip(at)
}

/// The order after the pages at `positions` were gathered and put down so that the group
/// starts at `to`, or as near to it as leaves the whole group inside the document.
pub open spec fn gathered(order: Seq<Source>, positions: Seq<usize>, to: int) -> Seq<Source> {
    let rest = select(order, positions, false);
    let landing = if to < rest.len() { to } else { rest.len() as int };
    splice(rest, select(order, positions, true), landing)
}

/// `s` made `len` long by repeating `filler`, or unchanged where it is that long already.
pub open spec fn padded<T>(s: Seq<T>, len: nat, filler: T) -> Seq<T> {
    if len <= s.len() {
        s
    } else {
        s + Seq::new((len - s.len()) as nat, |i: int| filler)
    }
}

/// What a [`PageOrder`] holds.
#[verifier::ext_equal]
pub struct OrderView {
    /// Sources, in display order.
    pub order: Seq<Source>,
    /// The order as it stands in the file.
    pub saved: Seq<Source>,
    /// Pages in each contributing document as it was added.
    pub source_lens: Seq<usize>,
    /// What each contributing document's file holds, in the order it holds it.
    pub on_disk: Seq<Seq<Source>>,
    /// Previous orders, most recent last.
    pub history: Seq<Seq<Source>>,
}

impl OrderView {
    /// The unedited order of a document with `count` pages.
    pub open spec fn fresh(count: usize) -> OrderView {
        let order = pages_of(0, count as nat);
        OrderView {
            order,
            saved: order,
            source_lens: seq![count],
            on_disk: seq![order],
            history: Seq::empty(),
        }
    }

    /// Every document has a length and a record of its file, and the history is bounded.
    pub open spec fn wf(self) -> bool {
        &&& self.source_lens.len() == self.on_disk.len()
        &&& self.history.len() <= UNDO_DEPTH
    }

    /// One more undo step, which goes back to the present order. The oldest step is
    /// dropped where there would be more than [`UNDO_DEPTH`].
    pub open spec fn remembered(self) -> Seq<Seq<Source>> {
        if self.history.len() == UNDO_DEPTH {
            self.history.drop_first().push(self.order)
        } else {
            self.history.push(self.order)
        }
    }

    /// One edit, which shows `order`.
    pub open spec fn edited(self, order: Seq<Source>) -> OrderView {
        OrderView { order, history: self.remembered(), ..self }
    }

    /// `document` known to have `count` pages, its file holding them in order.
    pub open spec fn staged(self, document: usize, count: usize) -> OrderView {
        let known = (document + 1) as nat;
        OrderView {
            source_lens: padded(self.source_lens, known, 0usize).update(document as int, count),
            on_disk: padded(self.on_disk, known, Seq::empty()).update(
                document as int,
                pages_of(document, count as nat),
            ),
            ..self
        }
    }

    /// Every page of `document` added to the end, as one undo step.
    pub open spec fn appended(self, document: usize, count: usize) -> OrderView {
        self.edited(self.order + pages_of(document, count as nat)).staged(document, count)
    }

    /// Whether `pages` of `document` can be put at `position`.
    pub open spec fn can_insert(self, document: usize, pages: Seq<usize>, position: usize) -> bool {
        &&& pages.len() > 0
        &&& position <= self.order.len()
        &&& document < self.source_lens.len()
        &&& forall|i: int|
            0 <= i < pages.len() ==> #[trigger] pages[i] < self.source_lens[document as int]
    }

    /// `pages` of `document` put at `position`, as one undo step.
    pub open spec fn inserted(self, document: usize, pages: Seq<usize>, position: usize) -> OrderView {
        self.edited(splice(self.order, named_pages(document, pages), position as int))
    }

    /// Whether moving the pages at `positions` to `to` changes the order.
    pub open spec fn can_move(self, positions: Seq<usize>, to: usize) -> bool {
        &&& usable(positions, self.order.len())
        &&& to < self.order.len()
        &&& gathered(self.order, positions, to as int) != self.order
    }

    /// The pages at `positions` moved to `to`, as one undo step.
    pub open spec fn moved(self, positions: Seq<usize>, to: usize) -> OrderView {
        self.edited(gathered(self.order, positions, to as int))
    }

    /// Whether the pages at `positions` can go: they exist, and they are not all there is.
    pub open spec fn can_remove(self, positions: Seq<usize>) -> bool {
        &&& usable(positions, self.order.len())
        &&& select(self.order, positions, false).len() > 0
    }

    /// The pages at `positions` gone, as one undo step.
    pub open spec fn removed(self, positions: Seq<usize>) -> OrderView {
        self.edited(select(self.order, positions, false))
    }

    /// One step back.
    pub open spec fn undone(self) -> OrderView {
        OrderView { order: self.history.last(), history: self.history.drop_last(), ..self }
    }

    /// `document`'s file known to hold `written`, which is what the whole order last
    /// matched on disk.
    pub open spec fn marked_saved(self, document: usize, written: Seq<Source>) -> OrderView {
        OrderView {
            saved: written,
            on_disk: if document < self.on_disk.len() {
                self.on_disk.update(document as int, written)
            } else {
                self.on_disk
            },
            ..self
        }
    }
}

/// The order pages are shown in, and the history to undo it.
#[derive(Debug, Clone, PartialEq, Eq)]
pub struct PageOrder {
    order: Vec<Source>,
    saved: Vec<Source>,
    source_lens: Vec<usize>,
    on_disk: Vec<Vec<Source>>,
    history: Vec<Vec<Source>>,
}

impl View for PageOrder {
    type V = OrderView;

    closed spec fn view(&self) -> OrderView {
        OrderView {
            order: self.order@,
            saved: self.saved@,
            source_lens: self.source_lens@,
            on_disk: self.on_disk@.map_values(|v: Vec<Source>| v@),
            history: self.history@.map_values(|v: Vec<Source>| v@),
        }
    }
}

/// The pages `0..count` of `document`, in order.
pub(crate) fn every_page(document: usize, count: usize) -> (pages: Vec<Source>)
    ensures
        pages@ == pages_of(document, count as nat),
{
    let mut pages: Vec<Source> = Vec::new();
    let mut page: usize = 0;
    while page < count
        invariant
            page <= count,
            pages@ == pages_of(document, page as nat),
        decreases count - page,
    {
        pages.push(Source { document, page });
        page += 1;
        proof {
            assert(pages@ =~= pages_of(document, page as nat));
        }
    }
    pages
}

/// A copy of `sources`.
pub(crate) fn copied(sources: &[Source]) -> (copy: Vec<Source>)
    ensures
        copy@ == sources@,
{
    let mut copy: Vec<Source> = Vec::new();
    let mut i: usize = 0;
    while i < sources.len()
        invariant
            i <= sources.len(),
            copy@ == sources@.take(i as int),
        decreases sources.len() - i,
    {
        copy.push(sources[i]);
        i += 1;
        proof {
            assert(copy@ =~= sources@.take(i as int));
        }
    }
    proof {
        assert(sources@.take(i as int) =~= sources@);
    }
    copy
}

/// Whether two lists name the same pages in the same order.
pub(crate) fn same_sources(left: &[Source], right: &[Source]) -> (same: bool)
    ensures
        same == (left@ == right@),
{
    if left.len() != right.len() {
        return false;
    }
    let mut i: usize = 0;
    while i < left.len()
        invariant
            i <= left.len(),
            left.len() == right.len(),
            forall|j: int| 0 <= j < i ==> left@[j] == right@[j],
        decreases left.len() - i,
    {
        if left[i] != right[i] {
            return false;
        }
        i += 1;
    }
    proof {
        assert(left@ =~= right@);
    }
    true
}

/// Whether `positions` holds `wanted`.
fn holds(positions: &[usize], wanted: usize) -> (held: bool)
    ensures
        held == positions@.contains(wanted),
{
    let mut i: usize = 0;
    while i < positions.len()
        invariant
            i <= positions.len(),
            forall|j: int| 0 <= j < i ==> positions@[j] != wanted,
        decreases positions.len() - i,
    {
        if positions[i] == wanted {
            return true;
        }
        i += 1;
    }
    false
}


impl PageOrder {
    /// Every contributing document has a length and a record of its file, and the history
    /// is bounded.
    pub open spec fn wf(&self) -> bool {
        self@.wf()
    }

    /// The unedited order of a document with `page_count` pages.
    pub fn identity(page_count: usize) -> (order: PageOrder)
        ensures
            order@ == OrderView::fresh(page_count),
            order.wf(),
    {
        let mut on_disk: Vec<Vec<Source>> = Vec::new();
        on_disk.push(every_page(0, page_count));
        let mut source_lens: Vec<usize> = Vec::new();
        source_lens.push(page_count);
        let order = PageOrder {
            order: every_page(0, page_count),
            saved: every_page(0, page_count),
            source_lens,
            on_disk,
            history: Vec::new(),
        };
        proof {
            assert(order@ =~~= OrderView::fresh(page_count));
        }
        order
    }

    /// How many pages are shown.
    pub fn len(&self) -> (len: usize)
        ensures
            len == self@.order.len(),
    {
        self.order.len()
    }

    /// Whether no pages are left.
    pub fn is_empty(&self) -> (empty: bool)
        ensures
            empty == (self@.order.len() == 0),
    {
        self.order.len() == 0
    }

    /// Pages in each contributing document as it was added, indexed by document. However
    /// many pages have since been deleted, this still names the document's full count.
    pub fn source_lens(&self) -> (lens: &[usize])
        ensures
            lens@ == self@.source_lens,
    {
        self.source_lens.as_slice()
    }

    /// The sources `document`'s file holds, in the order they sit in that file. `None` if
    /// there is no such document.
    pub fn on_disk(&self, document: usize) -> (sources: Option<&[Source]>)
        ensures
            match sources {
                Some(sources) => document < self@.on_disk.len() && sources@
                    == self@.on_disk[document as int],
                None => document >= self@.on_disk.len(),
            },
    {
        if document < self.on_disk.len() {
            Some(self.on_disk[document].as_slice())
        } else {
            None
        }
    }

    /// How many documents contribute pages, including the one this was opened with. The
    /// index that a document added next should use.
    pub fn document_count(&self) -> (count: usize)
        ensures
            count == self@.source_lens.len(),
    {
        self.source_lens.len()
    }

    /// How many steps can be undone.
    pub fn undo_steps(&self) -> (steps: usize)
        ensures
            steps == self@.history.len(),
    {
        self.history.len()
    }

    /// The source shown at `position`, or `None` if there is no such position.
    pub fn source_of(&self, position: usize) -> (source: Option<Source>)
        ensures
            source == (if position < self@.order.len() {
                Some(self@.order[position as int])
            } else {
                None::<Source>
            }),
    {
        if position < self.order.len() {
            Some(self.order[position])
        } else {
            None
        }
    }

    /// Sources in display order.
    pub fn as_slice(&self) -> (sources: &[Source])
        ensures
            sources@ == self@.order,
    {
        self.order.as_slice()
    }

    /// Whether this matches what is on disk.
    pub fn is_unedited(&self) -> (unedited: bool)
        ensures
            unedited == (self@.order == self@.saved),
    {
        same_sources(self.order.as_slice(), self.saved.as_slice())
    }

    /// Whether there is anything to undo.
    pub fn can_undo(&self) -> (can: bool)
        ensures
            can == (self@.history.len() > 0),
    {
        self.history.len() > 0
    }

    /// Records the present order so that [`PageOrder::undo`] can return to it.
    fn remember(&mut self)
        requires
            old(self).wf(),
        ensures
            final(self).wf(),
            final(self)@ == (OrderView { history: old(self)@.remembered(), ..old(self)@ }),
    {
        let ghost before = self@;
        let copy = copied(self.order.as_slice());
        if self.history.len() == UNDO_DEPTH {
            self.history.remove(0);
        }
        self.history.push(copy);
        proof {
            assert(self@.history =~~= before.remembered());
        }
    }

    /// Makes `document` a document of `page_count` pages whose file holds them in order.
    fn register(&mut self, document: usize, page_count: usize)
        requires
            old(self).wf(),
            document < usize::MAX,
        ensures
            final(self).wf(),
            final(self)@ == old(self)@.staged(document, page_count),
    {
        let ghost before = self@;
        let ghost known = (document + 1) as nat;
        while self.source_lens.len() <= document
            invariant
                document < usize::MAX,
                known == document + 1,
                before.wf(),
                self.order@ == before.order,
                self.saved@ == before.saved,
                self@.history == before.history,
                self@.source_lens == padded(before.source_lens, self@.source_lens.len(), 0usize),
                self@.on_disk == padded(before.on_disk, self@.on_disk.len(), Seq::empty()),
                self@.wf(),
                self@.source_lens.len() >= before.source_lens.len(),
                self@.source_lens.len() <= known || self@.source_lens.len() == before.source_lens.len(),
            decreases document + 1 - self.source_lens.len(),
        {
            let ghost step = self@;
            self.source_lens.push(0);
            self.on_disk.push(Vec::new());
            proof {
                let len = step.source_lens.len() + 1;
                assert(self@.source_lens =~= padded(before.source_lens, len, 0usize));
                assert(self@.on_disk =~= step.on_disk.push(Seq::empty()));
                assert(self@.on_disk =~= padded(before.on_disk, len, Seq::empty()));
                assert(self@.history =~= step.history);
            }
        }
        proof {
            assert(self@.source_lens =~= padded(before.source_lens, known, 0usize));
            assert(self@.on_disk =~= padded(before.on_disk, known, Seq::empty()));
        }
        let pages = every_page(document, page_count);
        self.source_lens[document] = page_count;
        self.on_disk[document] = pages;
        proof {
            assert(self@ =~~= before.staged(document, page_count));
        }
    }

    /// Appends every page of another contributing document to the end of the order, as one
    /// undo step.
    ///
    /// `document` is ordinarily [`PageOrder::document_count`]: a document already known is
    /// never reused, since its file may have changed between two inserts of one path. A
    /// no-op, reporting so, when `page_count` is zero.
    pub fn append(&mut self, document: usize, page_count: usize) -> (changed: bool)
        requires
            old(self).wf(),
            document < usize::MAX,
        ensures
            final(self).wf(),
            changed == (page_count != 0),
            final(self)@ == (if changed {
                old(self)@.appended(document, page_count)
            } else {
                old(self)@
            }),
    {
        if page_count == 0 {
            return false;
        }
        let ghost before = self@;
        self.remember();
        let mut pages = every_page(document, page_count);
        self.order.append(&mut pages);
        proof {
            assert(self@ =~~= before.edited(before.order + pages_of(document, page_count as nat)));
        }
        self.register(document, page_count);
        true
    }

    /// Registers a document that [`PageOrder::insert_pages`] can later place pages from,
    /// without showing any of them yet.
    ///
    /// Not an edit: neither what is shown nor the history changes. A no-op, reporting so,
    /// when `page_count` is zero.
    pub fn stage(&mut self, document: usize, page_count: usize) -> (changed: bool)
        requires
            old(self).wf(),
            document < usize::MAX,
        ensures
            final(self).wf(),
            changed == (page_count != 0),
            final(self)@ == (if changed {
                old(self)@.staged(document, page_count)
            } else {
                old(self)@
            }),
    {
        if page_count == 0 {
            return false;
        }
        self.register(document, page_count);
        true
    }

    /// Inserts `pages` of `document` as a contiguous block landing at `position`, in the
    /// order given, as one undo step.
    ///
    /// A no-op, reporting so, if `pages` is empty, if `document` is not known, if any page
    /// named is out of range for it, or if `position` is past the end. Naming one page
    /// twice inserts it twice.
    pub fn insert_pages(&mut self, document: usize, pages: &[usize], position: usize) -> (changed:
        bool)
        requires
            old(self).wf(),
        ensures
            final(self).wf(),
            changed == old(self)@.can_insert(document, pages@, position),
            final(self)@ == (if changed {
                old(self)@.inserted(document, pages@, position)
            } else {
                old(self)@
            }),
    {
        if pages.len() == 0 || position > self.order.len() || document >= self.source_lens.len() {
            return false;
        }
        let len = self.source_lens[document];
        let mut group: Vec<Source> = Vec::new();
        let mut i: usize = 0;
        while i < pages.len()
            invariant
                i <= pages.len(),
                forall|j: int| 0 <= j < i ==> #[trigger] pages@[j] < len,
                group@ == named_pages(document, pages@.take(i as int)),
                document < old(self)@.source_lens.len(),
                len == old(self)@.source_lens[document as int],
                *self == *old(self),
                old(self).wf(),
            decreases pages.len() - i,
        {
            if pages[i] >= len {
                return false;
            }
            group.push(Source { document, page: pages[i] });
            i += 1;
            proof {
                assert(group@ =~= named_pages(document, pages@.take(i as int)));
            }
        }
        let ghost before = self@;
        self.remember();
        let mut tail = self.order.split_off(position);
        self.order.append(&mut group);
        self.order.append(&mut tail);
        proof {
            assert(pages@.take(i as int) =~= pages@);
            assert(before.order.subrange(0, position as int) =~= before.order.take(position as int));
            assert(self@ =~~= before.inserted(document, pages@, position));
        }
        true
    }

    /// Records that `document`'s file was just rewritten to hold exactly `written`, and that
    /// `written` is what the whole order last matched on disk.
    ///
    /// Takes the order that was written rather than assuming it is the present one: a save
    /// runs off the UI thread, and the pages may have been moved again while it ran.
    pub fn mark_saved(&mut self, document: usize, written: &[Source])
        requires
            old(self).wf(),
        ensures
            final(self).wf(),
            final(self)@ == old(self)@.marked_saved(document, written@),
    {
        let ghost before = self@;
        self.saved = copied(written);
        if document < self.on_disk.len() {
            self.on_disk[document] = copied(written);
        }
        proof {
            assert(self@ =~~= before.marked_saved(document, written@));
        }
    }

    /// Sorted, deduplicated, in-range positions, or `None` if there is nothing to act on.
    ///
    /// A single out-of-range position makes the whole call a no-op: a caller that asked to
    /// move five pages and got four moved would have no way to tell.
    fn normalize(&self, positions: &[usize]) -> (taken: Option<Vec<usize>>)
        ensures
            match taken {
                Some(taken) => {
                    &&& usable(positions@, self@.order.len())
                    &&& forall|i: int, j: int|
                        0 <= i < j < taken@.len() ==> #[trigger] taken@[i] < #[trigger] taken@[j]
                    &&& forall|p: usize| taken@.contains(p) <==> positions@.contains(p)
                },
                None => !usable(positions@, self@.order.len()),
            },
    {
        if positions.len() == 0 {
            return None;
        }
        let len = self.order.len();
        let mut i: usize = 0;
        while i < positions.len()
            invariant
                i <= positions.len(),
                len == self@.order.len(),
                forall|j: int| 0 <= j < i ==> #[trigger] positions@[j] < len,
            decreases positions.len() - i,
        {
            if positions[i] >= len {
                return None;
            }
            i += 1;
        }
        let mut taken: Vec<usize> = Vec::new();
        let mut position: usize = 0;
        while position < len
            invariant
                position <= len,
                forall|j: int| 0 <= j < taken@.len() ==> #[trigger] taken@[j] < position,
                forall|i: int, j: int|
                    0 <= i < j < taken@.len() ==> #[trigger] taken@[i] < #[trigger] taken@[j],
                forall|p: usize|
                    taken@.contains(p) <==> #[trigger] positions@.contains(p) && p < position,
            decreases len - position,
        {
            let ghost before = taken@;
            if holds(positions, position) {
                taken.push(position);
                proof {
                    assert forall|p: usize|
                        taken@.contains(p) <==> #[trigger] positions@.contains(p) && p < position
                            + 1 by {
                        assert(taken@.last() == position);
                        if before.contains(p) {
                            let k = choose|k: int| 0 <= k < before.len() && before[k] == p;
                            assert(taken@[k] == p);
                        }
                    }
                }
            }
            position += 1;
        }
        Some(taken)
    }

    /// The entries whose position is among `taken`, and those whose is not.
    fn parted(&self, taken: &[usize]) -> (parts: (Vec<Source>, Vec<Source>))
        ensures
            parts.0@ == select(self@.order, taken@, true),
            parts.1@ == select(self@.order, taken@, false),
    {
        let mut group: Vec<Source> = Vec::new();
        let mut rest: Vec<Source> = Vec::new();
        let mut position: usize = 0;
        while position < self.order.len()
            invariant
                position <= self@.order.len(),
                group@ == select(self@.order.take(position as int), taken@, true),
                rest@ == select(self@.order.take(position as int), taken@, false),
            decreases self.order.len() - position,
        {
            let ghost next = self@.order.take(position + 1);
            proof {
                assert(next.drop_last() =~= self@.order.take(position as int));
                assert(next.last() == self@.order[position as int]);
            }
            if holds(taken, position) {
                group.push(self.order[position]);
            } else {
                rest.push(self.order[position]);
            }
            position += 1;
        }
        proof {
            assert(self@.order.take(position as int) =~= self@.order);
        }
        (group, rest)
    }

    /// Moves the page at `from` so that it sits at `to`. Returns whether anything changed.
    pub fn move_page(&mut self, from: usize, to: usize) -> (changed: bool)
        requires
            old(self).wf(),
        ensures
            final(self).wf(),
            changed == old(self)@.can_move(seq![from], to),
            final(self)@ == (if changed {
                old(self)@.moved(seq![from], to)
            } else {
                old(self)@
            }),
    {
        let mut positions: Vec<usize> = Vec::new();
        positions.push(from);
        proof {
            assert(positions@ =~= seq![from]);
        }
        self.move_pages(positions.as_slice(), to)
    }

    /// Moves every page in `positions` so that the group starts at `to`, keeping their
    /// relative order, as one undo step.
    ///
    /// `to` is where the group ends up **after** the move: `move_pages(&[0], 2)` on
    /// `[0, 1, 2, 3]` gives `[1, 2, 0, 3]`. Duplicate and unordered positions are fine. Out
    /// of range in either argument changes nothing.
    pub fn move_pages(&mut self, positions: &[usize], to: usize) -> (changed: bool)
        requires
            old(self).wf(),
        ensures
            final(self).wf(),
            changed == old(self)@.can_move(positions@, to),
            final(self)@ == (if changed {
                old(self)@.moved(positions@, to)
            } else {
                old(self)@
            }),
    {
        let ghost before = self@;
        let taken = match self.normalize(positions) {
            Some(taken) => taken,
            None => {
                return false;
            },
        };
        if to >= self.order.len() {
            return false;
        }
        let (mut group, mut rest) = self.parted(taken.as_slice());
        proof {
            lemma_select_by_membership(before.order, taken@, positions@, true);
            lemma_select_by_membership(before.order, taken@, positions@, false);
        }
        // Clamped so that the group lands wholly inside the document.
        let landing: usize = if to < rest.len() {
            to
        } else {
            rest.len()
        };
        let ghost kept = rest@;
        let mut tail = rest.split_off(landing);
        rest.append(&mut group);
        rest.append(&mut tail);
        proof {
            assert(rest@ =~= splice(kept, select(before.order, positions@, true), landing as int));
        }
        if same_sources(rest.as_slice(), self.order.as_slice()) {
            return false;
        }
        self.remember();
        self.order = rest;
        proof {
            assert(self@ =~~= before.moved(positions@, to));
        }
        true
    }

    /// Removes the page at `position`. Refuses to remove the last one: a PDF with no pages
    /// is not a valid PDF.
    pub fn remove(&mut self, position: usize) -> (changed: bool)
        requires
            old(self).wf(),
        ensures
            final(self).wf(),
            changed == old(self)@.can_remove(seq![position]),
            final(self)@ == (if changed {
                old(self)@.removed(seq![position])
            } else {
                old(self)@
            }),
    {
        let mut positions: Vec<usize> = Vec::new();
        positions.push(position);
        proof {
            assert(positions@ =~= seq![position]);
        }
        self.remove_pages(positions.as_slice())
    }

    /// Removes every page in `positions`, as one undo step. Refuses to remove them *all*,
    /// rather than guessing which one to leave.
    pub fn remove_pages(&mut self, positions: &[usize]) -> (changed: bool)
        requires
            old(self).wf(),
        ensures
            final(self).wf(),
            changed == old(self)@.can_remove(positions@),
            final(self)@ == (if changed {
                old(self)@.removed(positions@)
            } else {
                old(self)@
            }),
    {
        let ghost before = self@;
        let taken = match self.normalize(positions) {
            Some(taken) => taken,
            None => {
                return false;
            },
        };
        let (_group, rest) = self.parted(taken.as_slice());
        proof {
            lemma_select_by_membership(before.order, taken@, positions@, false);
        }
        if rest.len() == 0 {
            return false;
        }
        self.remember();
        self.order = rest;
        proof {
            assert(self@ =~~= before.removed(positions@));
        }
        true
    }

    /// Goes back one step. Returns whether there was a step to go back to.
    pub fn undo(&mut self) -> (changed: bool)
        requires
            old(self).wf(),
        ensures
            final(self).wf(),
            changed == (old(self)@.history.len() > 0),
            final(self)@ == (if changed {
                old(self)@.undone()
            } else {
                old(self)@
            }),
    {
        let ghost before = self@;
        match self.history.pop() {
            Some(previous) => {
                self.order = previous;
                proof {
                    assert(self@ =~~= before.undone());
                }
                true
            },
            None => {
                proof {
                    assert(self@ =~~= before);
                }
                false
            },
        }
    }
}

/// Which positions are meant depends on which are named, not on how often or in what order.
pub proof fn lemma_select_by_membership(
    order: Seq<Source>,
    left: Seq<usize>,
    right: Seq<usize>,
    inside: bool,
)
    requires
        forall|p: usize| left.contains(p) <==> right.contains(p),
    ensures
        select(order, left, inside) == select(order, right, inside),
    decreases order.len(),
{
    if order.len() > 0 {
        lemma_select_by_membership(order.drop_last(), left, right, inside);
    }
}

} // verus!
