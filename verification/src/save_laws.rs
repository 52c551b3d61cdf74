//! What holds of saves, and of one save after another.

use vstd::prelude::*;

use crate::order;
use crate::order::{OrderView, Source};
use crate::order_laws;
use crate::pdf;
use crate::pdf::ObjectId;
use crate::save;
use crate::save::{FileView, Loaded};

verus! {

/// Documents that no shown page belongs to are merged alike, whatever they are.
proof fn lemma_merged_alike(
    loaded: Seq<Loaded>,
    other: Seq<Loaded>,
    sources: Seq<Seq<char>>,
    order: OrderView,
    count: nat,
)
    requires
        loaded.len() == other.len(),
        0 < loaded.len(),
        count <= loaded.len(),
        forall|k: int|
            0 <= k < loaded.len() && save::needed(order.order, k) ==> #[trigger] loaded[k]
                == other[k],
    ensures
        save::merged(loaded, sources, order, count) == save::merged(other, sources, order, count),
    decreases count,
{
    if count <= 1 {
        assert(save::needed(order.order, 0));
        assert(loaded[0] == other[0]);
    } else {
        let k = count - 1;
        lemma_merged_alike(loaded, other, sources, order, k as nat);
        if save::referenced(order.order, k) {
            assert(save::needed(order.order, k));
            assert(loaded[k] == other[k]);
        }
    }
}

/// A document that no shown page belongs to cannot change what a save comes to, whatever its
/// file holds and whether or not it could be read. The first document is always read.
pub proof fn law_a_document_that_is_not_shown_cannot_change_a_save(
    loaded: Seq<Loaded>,
    other: Seq<Loaded>,
    sources: Seq<Seq<char>>,
    order: OrderView,
    destination: Seq<char>,
)
    requires
        loaded.len() == other.len(),
        0 < loaded.len(),
        forall|k: int|
            0 <= k < loaded.len() && save::needed(order.order, k) ==> #[trigger] loaded[k]
                == other[k],
    ensures
        save::saved_file(loaded, sources, order, destination) == save::saved_file(
            other,
            sources,
            order,
            destination,
        ),
{
    lemma_merged_alike(loaded, other, sources, order, loaded.len());
}

/// Nor can its file change what comes of reading: files that differ only where no shown page
/// belongs to them can be read as the same documents.
pub proof fn law_a_file_that_is_not_shown_is_not_looked_at(
    files: Seq<Result<Vec<u8>, String>>,
    other: Seq<Result<Vec<u8>, String>>,
    shown: Seq<Source>,
    loaded: Seq<Loaded>,
)
    requires
        files.len() == other.len(),
        forall|k: int|
            0 <= k < files.len() && save::needed(shown, k) ==> #[trigger] files[k] == other[k],
    ensures
        save::came_of_reading(files, shown, loaded) == save::came_of_reading(other, shown, loaded),
{
    if loaded.len() == files.len() {
        assert forall|k: int| 0 <= k < files.len() implies save::came_of_one(
            files[k],
            save::needed(shown, k),
            #[trigger] loaded[k],
        ) == save::came_of_one(other[k], save::needed(shown, k), loaded[k]) by {
            if save::needed(shown, k) {
                assert(files[k] == other[k]);
            }
        }
    }
}

/// Where a file whose pages are `on_disk` has `source`. Where it holds it more than once, its
/// last occurrence counts.
pub open spec fn place_in(on_disk: Seq<Source>, source: Source) -> Option<int>
    decreases on_disk.len(),
{
    if on_disk.len() == 0 {
        None
    } else if on_disk.last() == source {
        Some(on_disk.len() - 1)
    } else {
        place_in(on_disk.drop_last(), source)
    }
}

/// A source is the page at its place in the file, whatever objects the pages have.
pub proof fn law_a_source_is_the_page_at_its_place(
    on_disk: Seq<Source>,
    pages: Seq<ObjectId>,
    source: Source,
)
    ensures
        save::object_for(on_disk, pages, source) == (match place_in(on_disk, source) {
            Some(place) => Some(pages[place]),
            None => None,
        }),
        place_in(on_disk, source) is Some == on_disk.contains(source),
        place_in(on_disk, source) matches Some(place) ==> 0 <= place < on_disk.len()
            && on_disk[place] == source,
    decreases on_disk.len(),
{
    if on_disk.len() > 0 {
        let earlier = on_disk.drop_last();
        law_a_source_is_the_page_at_its_place(earlier, pages, source);
        if on_disk.last() == source {
            assert(on_disk[on_disk.len() - 1] == source);
        } else {
            if on_disk.contains(source) {
                let i = choose|i: int| 0 <= i < on_disk.len() && on_disk[i] == source;
                assert(earlier[i] == source);
            }
            if earlier.contains(source) {
                let i = choose|i: int| 0 <= i < earlier.len() && earlier[i] == source;
                assert(on_disk[i] == source);
            }
        }
    }
}

/// Whether `later` comes after `saved` with no page added: its files are as they were, and it
/// shows only pages that were shown.
pub open spec fn follows(saved: OrderView, later: OrderView) -> bool {
    &&& later.on_disk == saved.on_disk
    &&& forall|source: Source|
        #[trigger] later.order.contains(source) ==> saved.order.contains(source)
}

/// A page is shown just where the pages have it among them.
proof fn lemma_contained_by_count(order: Seq<Source>, source: Source)
    ensures
        order.contains(source) == (order.to_multiset().count(source) > 0),
{
    broadcast use vstd::seq_lib::group_to_multiset_ensures;

}

/// Moving and removing pages after a save adds none and touches no file.
pub proof fn law_moves_and_removals_follow_a_save(
    saved: OrderView,
    later: OrderView,
    positions: Seq<usize>,
    to: usize,
)
    requires
        follows(saved, later),
    ensures
        follows(saved, saved),
        follows(saved, later.moved(positions, to)),
        follows(saved, later.removed(positions)),
{
    order_laws::law_a_move_is_a_permutation(later, positions, to);
    order_laws::law_a_removal_takes_exactly_what_was_named(later, positions);
    let moved = later.moved(positions, to);
    let removed = later.removed(positions);
    assert forall|source: Source| #[trigger] moved.order.contains(
        source,
    ) implies saved.order.contains(source) by {
        lemma_contained_by_count(moved.order, source);
        lemma_contained_by_count(later.order, source);
    }
    assert forall|source: Source| #[trigger] removed.order.contains(
        source,
    ) implies saved.order.contains(source) by {
        lemma_contained_by_count(removed.order, source);
        lemma_contained_by_count(later.order, source);
        let taken = order::select(later.order, positions, true);
        assert(later.order.to_multiset().count(source) == removed.order.to_multiset().count(source)
            + taken.to_multiset().count(source));
    }
}

/// Pages that their files hold are found.
pub proof fn lemma_found(
    shown: Seq<Source>,
    files: Seq<FileView>,
    sources: Seq<Seq<char>>,
    destination: Seq<char>,
)
    requires
        forall|i: int|
            0 <= i < shown.len() ==> {
                &&& (#[trigger] shown[i]).document < files.len()
                &&& files[shown[i].document as int].on_disk.contains(shown[i])
            },
    ensures
        save::objects_shown(shown, files, sources, destination) is Ok,
    decreases shown.len(),
{
    if shown.len() > 0 {
        let earlier = shown.drop_last();
        assert forall|i: int| 0 <= i < earlier.len() implies {
            &&& (#[trigger] earlier[i]).document < files.len()
            &&& files[earlier[i].document as int].on_disk.contains(earlier[i])
        } by {
            assert(earlier[i] == shown[i]);
        }
        lemma_found(earlier, files, sources, destination);
        let source = shown.last();
        assert(shown[shown.len() - 1] == source);
        let file = files[source.document as int];
        law_a_source_is_the_page_at_its_place(file.on_disk, file.pages, source);
    }
}

/// Pages that a save found are found again, by their places, once the first file holds what
/// that save wrote.
proof fn lemma_pages_are_found_again(
    first: OrderView,
    later: OrderView,
    files: Seq<FileView>,
    again: Seq<FileView>,
    sources: Seq<Seq<char>>,
    destination: Seq<char>,
)
    requires
        save::objects_shown(first.order, files, sources, destination) is Ok,
        files.len() == first.on_disk.len(),
        first.on_disk.len() > 0,
        forall|k: int|
            0 <= k < files.len() && save::referenced(first.order, k) ==> (
            #[trigger] files[k]).on_disk == first.on_disk[k],
        follows(first.marked_saved(0, first.order), later),
        again.len() == files.len(),
        forall|k: int|
            0 <= k < again.len() && save::needed(later.order, k) ==> (#[trigger] again[k]).on_disk
                == later.on_disk[k],
    ensures
        save::objects_shown(later.order, again, sources, destination) is Ok,
        ({
            let ids = save::objects_shown(later.order, again, sources, destination)->Ok_0;
            &&& ids.len() == later.order.len()
            &&& forall|i: int|
                0 <= i < later.order.len() ==> {
                    let source = #[trigger] later.order[i];
                    let k = source.document as int;
                    if k == 0 {
                        let place = place_in(first.order, source)->0;
                        &&& 0 <= place < first.order.len()
                        &&& first.order[place] == source
                        &&& ids[i] == again[0].pages[place]
                    } else {
                        let place = place_in(first.on_disk[k], source)->0;
                        &&& 0 <= place < first.on_disk[k].len()
                        &&& first.on_disk[k][place] == source
                        &&& ids[i] == again[k].pages[place]
                        &&& save::object_for(files[k].on_disk, files[k].pages, source) == Some(
                            files[k].pages[place],
                        )
                    }
                }
        }),
{
    save::law_the_pages_written_are_the_pages_shown(first.order, files, sources, destination);
    assert forall|i: int| 0 <= i < later.order.len() implies {
        let source = #[trigger] later.order[i];
        let k = source.document as int;
        &&& k < again.len()
        &&& save::needed(later.order, k)
        &&& again[k].on_disk == later.on_disk[k]
        &&& later.on_disk[k].contains(source)
        &&& k != 0 ==> later.on_disk[k] == first.on_disk[k] && files[k].on_disk == first.on_disk[k]
        &&& k == 0 ==> later.on_disk[k] == first.order
    } by {
        let source = later.order[i];
        let k = source.document as int;
        assert(later.order.contains(source));
        let j = choose|j: int| 0 <= j < first.order.len() && first.order[j] == source;
        assert(first.order[j].document == k);
        assert(save::referenced(first.order, k));
        assert(save::referenced(later.order, k));
        law_a_source_is_the_page_at_its_place(files[k].on_disk, files[k].pages, source);
        assert(files[k].on_disk == first.on_disk[k]);
        assert(again[k].on_disk == later.on_disk[k]);
    }
    lemma_found(later.order, again, sources, destination);
    save::law_the_pages_written_are_the_pages_shown(later.order, again, sources, destination);
    let ids = save::objects_shown(later.order, again, sources, destination)->Ok_0;
    assert forall|i: int| 0 <= i < later.order.len() implies {
        let source = #[trigger] later.order[i];
        let k = source.document as int;
        if k == 0 {
            let place = place_in(first.order, source)->0;
            &&& 0 <= place < first.order.len()
            &&& first.order[place] == source
            &&& ids[i] == again[0].pages[place]
        } else {
            let place = place_in(first.on_disk[k], source)->0;
            &&& 0 <= place < first.on_disk[k].len()
            &&& first.on_disk[k][place] == source
            &&& ids[i] == again[k].pages[place]
            &&& save::object_for(files[k].on_disk, files[k].pages, source) == Some(
                files[k].pages[place],
            )
        }
    } by {
        let source = later.order[i];
        let k = source.document as int;
        law_a_source_is_the_page_at_its_place(again[k].on_disk, again[k].pages, source);
        law_a_source_is_the_page_at_its_place(files[k].on_disk, files[k].pages, source);
    }
}

/// The files that were merged are recorded as the order has them.
pub proof fn lemma_merged_records(
    loaded: Seq<Loaded>,
    sources: Seq<Seq<char>>,
    order: OrderView,
    count: nat,
)
    requires
        count > 0,
        save::merged(loaded, sources, order, count) is Ok,
        !(loaded[0] is Unneeded),
        forall|k: int|
            0 <= k < count && save::needed(order.order, k) ==> !((#[trigger] loaded[k]) is Unneeded),
    ensures
        ({
            let files = save::merged(loaded, sources, order, count)->Ok_0.files;
            &&& files.len() == count
            &&& forall|k: int|
                0 <= k < count && save::needed(order.order, k) ==> (#[trigger] files[k]).on_disk
                    == order.on_disk[k]
        }),
    decreases count,
{
    if count > 1 {
        let k = count - 1;
        lemma_merged_records(loaded, sources, order, k as nat);
        let earlier = save::merged(loaded, sources, order, k as nat)->Ok_0.files;
        let files = save::merged(loaded, sources, order, count)->Ok_0.files;
        assert(save::needed(order.order, k) ==> !(loaded[k] is Unneeded));
        assert forall|j: int| 0 <= j < count && save::needed(order.order, j) implies (
        #[trigger] files[j]).on_disk == order.on_disk[j] by {
            if j < k {
                assert(files[j] == earlier[j]);
            }
        }
    }
}

/// A second save over the same file finds the pages that the first one wrote.
///
/// `loaded` is what the first save of `first` read, and `reloaded` what is read for one made
/// later, after the first was recorded and pages were only moved or removed. Where the files
/// read again are ones that can be merged, every page is found. One of the first document is
/// at the place where the first save wrote it, and one of another document is at the place
/// where the first save found it.
pub proof fn law_a_second_save_finds_the_same_pages(
    first: OrderView,
    later: OrderView,
    loaded: Seq<Loaded>,
    reloaded: Seq<Loaded>,
    sources: Seq<Seq<char>>,
    destination: Seq<char>,
)
    requires
        save::composed(loaded, sources, first, destination) is Ok,
        loaded.len() == first.on_disk.len(),
        loaded.len() > 0,
        forall|k: int|
            0 <= k < loaded.len() && save::needed(first.order, k) ==> !((
            #[trigger] loaded[k]) is Unneeded),
        follows(first.marked_saved(0, first.order), later),
        reloaded.len() == loaded.len(),
        forall|k: int|
            0 <= k < reloaded.len() && save::needed(later.order, k) ==> !((
            #[trigger] reloaded[k]) is Unneeded),
        save::merged(reloaded, sources, later, reloaded.len()) is Ok,
    ensures
        ({
            let files = save::merged(loaded, sources, first, loaded.len())->Ok_0.files;
            let again = save::merged(reloaded, sources, later, reloaded.len())->Ok_0.files;
            let ids = save::objects_shown(later.order, again, sources, destination);
            &&& ids is Ok
            &&& ids->Ok_0.len() == later.order.len()
            &&& forall|i: int|
                0 <= i < later.order.len() ==> {
                    let source = #[trigger] later.order[i];
                    let k = source.document as int;
                    if k == 0 {
                        let place = place_in(first.order, source)->0;
                        &&& 0 <= place < first.order.len()
                        &&& first.order[place] == source
                        &&& ids->Ok_0[i] == again[0].pages[place]
                    } else {
                        let place = place_in(first.on_disk[k], source)->0;
                        &&& 0 <= place < first.on_disk[k].len()
                        &&& first.on_disk[k][place] == source
                        &&& ids->Ok_0[i] == again[k].pages[place]
                        &&& save::object_for(files[k].on_disk, files[k].pages, source) == Some(
                            files[k].pages[place],
                        )
                    }
                }
        }),
{
    let files = save::merged(loaded, sources, first, loaded.len())->Ok_0.files;
    let again = save::merged(reloaded, sources, later, reloaded.len())->Ok_0.files;
    assert(save::needed(first.order, 0));
    assert(save::needed(later.order, 0));
    assert(!(loaded[0] is Unneeded));
    assert(!(reloaded[0] is Unneeded));
    lemma_merged_records(loaded, sources, first, loaded.len());
    lemma_merged_records(reloaded, sources, later, reloaded.len());
    lemma_pages_are_found_again(first, later, files, again, sources, destination);
}

/// A second save over the same file is owed where the first one was.
///
/// `loaded` is what the first save of `first` read, and `reloaded` what is read for one made
/// later, after the first was recorded and pages were only moved or removed. The first file
/// now holds what the first save wrote: where it reads as a document with as many pages as
/// were written, and there are numbers enough, nothing stands in the way of the second save,
/// so that [`save::save_loaded`] returns a file and
/// [`law_a_second_save_finds_the_same_pages`] says which pages it holds.
pub proof fn law_a_second_save_is_owed_where_the_first_was(
    first: OrderView,
    later: OrderView,
    loaded: Seq<Loaded>,
    reloaded: Seq<Loaded>,
)
    requires
        save::can_be_saved(loaded, first),
        loaded.len() == first.on_disk.len(),
        loaded.len() > 0,
        follows(first.marked_saved(0, first.order), later),
        later.order.len() <= i64::MAX,
        reloaded.len() == loaded.len(),
        reloaded[0] is Document,
        save::savable(reloaded[0]->Document_0, first.order),
        forall|k: int|
            0 < k < loaded.len() && save::referenced(later.order, k) ==> #[trigger] reloaded[k]
                == loaded[k],
        pdf::max_id_in(reloaded[0]->Document_0) + save::objects_added(
            loaded,
            later.order,
            loaded.len(),
        ) + 2 <= u32::MAX,
    ensures
        save::can_be_saved(reloaded, later),
{
    assert forall|i: int| 0 <= i < later.order.len() implies {
        let source = #[trigger] later.order[i];
        let k = source.document as int;
        &&& k < loaded.len()
        &&& later.on_disk[k].contains(source)
        &&& save::referenced(first.order, k)
    } by {
        let source = later.order[i];
        assert(later.order.contains(source));
        let j = choose|j: int| 0 <= j < first.order.len() && first.order[j] == source;
        assert(first.order[j].document == source.document);
    }
    assert forall|k: int| 0 <= k < reloaded.len() && save::needed(later.order, k) implies {
        &&& (#[trigger] reloaded[k]) is Document
        &&& save::savable(reloaded[k]->Document_0, later.on_disk[k])
        &&& k > 0 ==> {
            &&& pdf::tree_holds_together(reloaded[k]->Document_0)
            &&& pdf::objects_in(reloaded[k]->Document_0).dom().len() <= 0x7fff_ffff
        }
    } by {
        if k > 0 {
            assert(save::referenced(later.order, k));
            let i = choose|i: int|
                0 <= i < later.order.len() && #[trigger] later.order[i].document == k;
            assert(save::referenced(first.order, later.order[i].document as int));
            assert(save::needed(first.order, k));
            assert(reloaded[k] == loaded[k]);
        }
    }
    lemma_objects_added_alike(loaded, reloaded, later.order, loaded.len());
}

/// Documents that are the same where they are shown add as many objects.
proof fn lemma_objects_added_alike(
    loaded: Seq<Loaded>,
    other: Seq<Loaded>,
    shown: Seq<Source>,
    count: nat,
)
    requires
        loaded.len() == other.len(),
        count <= loaded.len(),
        forall|k: int|
            0 < k < loaded.len() && save::referenced(shown, k) ==> #[trigger] other[k]
                == loaded[k],
    ensures
        save::objects_added(other, shown, count) == save::objects_added(loaded, shown, count),
    decreases count,
{
    if count > 1 {
        let k = count - 1;
        lemma_objects_added_alike(loaded, other, shown, k as nat);
        if save::referenced(shown, k) {
            assert(other[k] == loaded[k]);
        }
    }
}

} // verus!
