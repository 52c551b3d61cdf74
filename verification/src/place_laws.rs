//! What holds of paths, of pages kept at hand and of the steps that replace a file.

use vstd::prelude::*;

use crate::atomic::{acts, partial_path, ActView, ProgressView, ReplacementView};
use crate::edits;
use crate::failure;
use crate::label;
use crate::order::Source;
use crate::retain;
use crate::save::SaveErrorView;
use crate::tiles;
use crate::view::PageNumber;

verus! {

/// A replacement writes beside the destination, under its name and an ending, and only once that
/// has succeeded renames what was written to the destination. If writing fails it ends with that
/// failure and touches nothing else; if renaming fails what was written is taken away and the
/// replacement ends with the failure of the renaming.
pub proof fn law_the_steps_that_replace_a_file(
    destination: Seq<char>,
    reason: Seq<char>,
    removal: Option<Seq<char>>,
)
    ensures
        ({
            let start = ReplacementView { destination, progress: ProgressView::Writing };
            let beside = destination + ".porpoise-partial"@;
            let failed = ActView::End(
                Some(SaveErrorView::Write { path: destination, detail: reason }),
            );
            &&& partial_path(destination) == beside
            &&& acts(start, seq![None, None]) == seq![
                ActView::Rename { from: beside, to: destination },
                ActView::End(None),
            ]
            &&& acts(start, seq![Some(reason)]) == seq![failed]
            &&& acts(start, seq![None, Some(reason), removal]) == seq![
                ActView::Rename { from: beside, to: destination },
                ActView::Remove { path: beside },
                failed,
            ]
        }),
{
    let start = ReplacementView { destination, progress: ProgressView::Writing };
    let beside = destination + ".porpoise-partial"@;
    let failed = ActView::End(Some(SaveErrorView::Write { path: destination, detail: reason }));
    let well = seq![None::<Seq<char>>, None];
    let badly = seq![Some(reason)];
    let late = seq![None, Some(reason), removal];
    assert(well.drop_first() =~= seq![None]);
    assert(seq![None::<Seq<char>>].drop_first() =~= Seq::empty());
    assert(badly.drop_first() =~= Seq::empty());
    assert(late.drop_first() =~= seq![Some(reason), removal]);
    assert(seq![Some(reason), removal].drop_first() =~= seq![removal]);
    assert(seq![removal].drop_first() =~= Seq::<Option<Seq<char>>>::empty());
    reveal_with_fuel(acts, 4);
    assert(acts(start, well) =~= seq![
        ActView::Rename { from: beside, to: destination },
        ActView::End(None),
    ]);
    assert(acts(start, badly) =~= seq![failed]);
    assert(acts(start, late) =~= seq![
        ActView::Rename { from: beside, to: destination },
        ActView::Remove { path: beside },
        failed,
    ]);
}

/// Whether `name` can stand as the last part of a path: it has something in it, no separator, and
/// is not one of the two names for where one is and for what is above.
pub open spec fn is_name(name: Seq<char>) -> bool {
    &&& name.len() > 0
    &&& forall|i: int| 0 <= i < name.len() ==> #[trigger] name[i] != '/' && name[i] != '\\'
    &&& name != seq!['.']
    &&& name != seq!['.', '.']
}

/// Whether `folder` is nothing or ends with a separator.
pub open spec fn is_folder(folder: Seq<char>) -> bool {
    folder.len() > 0 ==> folder.last() == '/' || folder.last() == '\\'
}

proof fn lemma_last_part(folder: Seq<char>, name: Seq<char>)
    requires
        is_folder(folder),
        forall|i: int| 0 <= i < name.len() ==> #[trigger] name[i] != '/' && name[i] != '\\',
    ensures
        label::last_part(folder + name) == name,
    decreases name.len(),
{
    let path = folder + name;
    if name.len() == 0 {
        assert(path =~= folder);
        assert(label::last_part(path) =~= name);
    } else {
        let front = name.drop_last();
        assert forall|i: int| 0 <= i < front.len() implies #[trigger] front[i] != '/' && front[i]
            != '\\' by {
            assert(front[i] == name[i]);
        }
        lemma_last_part(folder, front);
        assert(path.drop_last() =~= folder + front);
        assert(path.last() == name[name.len() - 1]);
        assert(front.push(name.last()) =~= name);
    }
}

/// A path is shown by the name behind its last separator, whatever stands before that. Separators
/// at the end do not count.
pub proof fn law_a_path_is_shown_by_its_last_name(
    folder: Seq<char>,
    name: Seq<char>,
    separator: char,
)
    requires
        is_folder(folder),
        is_name(name),
        !label::is_drive(folder + name),
        separator == '/' || separator == '\\',
    ensures
        label::label_of(folder + name) == name,
        label::label_of((folder + name).push(separator)) == name,
{
    let path = folder + name;
    lemma_last_part(folder, name);
    assert(path.last() == name[name.len() - 1]);
    let longer = path.push(separator);
    assert(longer.drop_last() =~= path);
    assert(label::file_name_in(path) == Some(name));
    assert(label::file_name_in(longer) == Some(name));
}

/// A drive is a letter with a colon behind it and nothing more, and has no name in it.
pub proof fn law_what_a_drive_is(path: Seq<char>)
    ensures
        label::is_drive(path) <==> path.len() == 2 && path[1] == ':' && ('a' <= path[0] <= 'z'
            || 'A' <= path[0] <= 'Z'),
        label::is_drive(path) ==> label::label_of(path) == path && !label::names_a_pdf(path),
{
    if label::is_drive(path) {
        lemma_last_part(Seq::empty(), path);
        assert(Seq::<char>::empty() + path =~= path);
        assert(label::last_part(path)[1] == ':');
        assert(seq!['.', '.'][1] == '.');
        assert(seq!['.'].len() == 1);
        assert(label::file_name_in(path) is None);
    }
}

/// A separator at the end of a path does not count, and neither does a single dot behind one.
pub proof fn law_where_one_is_does_not_count(path: Seq<char>, separator: char)
    requires
        separator == '/' || separator == '\\',
    ensures
        label::file_name_in(path.push(separator)) == label::file_name_in(path),
        label::file_name_in(path.push(separator).push('.')) == label::file_name_in(path),
        label::names_a_pdf(path.push(separator)) == label::names_a_pdf(path),
        label::names_a_pdf(path.push(separator).push('.')) == label::names_a_pdf(path),
{
    let longer = path.push(separator);
    let dotted = longer.push('.');
    assert(longer.drop_last() =~= path);
    assert(dotted.drop_last() =~= longer);
    lemma_last_part(longer, seq!['.']);
    assert(longer + seq!['.'] =~= dotted);
    assert(dotted.last() == '.');
}

/// What is above has no name: a path that ends so is shown whole, and so is one with nothing in
/// it, and neither names a PDF.
pub proof fn law_what_is_above_has_no_name(folder: Seq<char>)
    requires
        is_folder(folder),
    ensures
        label::label_of(folder + seq!['.', '.']) == folder + seq!['.', '.'],
        !label::names_a_pdf(folder + seq!['.', '.']),
        label::label_of(Seq::empty()) == Seq::<char>::empty(),
        !label::names_a_pdf(Seq::empty()),
{
    let path = folder + seq!['.', '.'];
    lemma_last_part(folder, seq!['.', '.']);
    assert(seq!['.', '.'].len() == 2 && seq!['.'].len() == 1);
    assert(path.last() == '.');
    assert(label::file_name_in(path) is None);
}

/// How a path is shown: by the name in it, and whole where it has none.
pub proof fn law_how_a_path_is_shown(path: Seq<char>)
    ensures
        label::file_name_in(path) is None ==> label::label_of(path) == path,
        label::file_name_in(path) is Some ==> label::label_of(path) == label::file_name_in(path)->0,
{
}

/// A path names a PDF exactly where its name has something before an ending of a dot and the
/// three letters, large or small.
pub proof fn law_a_pdf_is_told_by_its_ending(folder: Seq<char>, name: Seq<char>)
    requires
        is_folder(folder),
        is_name(name),
    ensures
        label::names_a_pdf(folder + name) <==> {
            let n = name.len() as int;
            &&& n >= 5
            &&& name[n - 4] == '.'
            &&& name[n - 3] == 'p' || name[n - 3] == 'P'
            &&& name[n - 2] == 'd' || name[n - 2] == 'D'
            &&& name[n - 1] == 'f' || name[n - 1] == 'F'
        },
{
    let path = folder + name;
    lemma_last_part(folder, name);
    assert(path.last() == name[name.len() - 1]);
    let n = name.len() as int;
    if label::is_drive(path) {
        assert(label::file_name_in(path) is None);
        assert(n <= 2);
    } else {
        assert(label::file_name_in(path) == Some(name));
        lemma_three_letters(name);
    }
}

proof fn lemma_three_letters(name: Seq<char>)
    ensures
        ({
            let n = name.len() as int;
            (label::extension_of(name) is Some && label::extension_of(name)->0.len() == 3) == (n
                >= 5 && name[n - 4] == '.' && name[n - 3] != '.' && name[n - 2] != '.' && name[n
                - 1] != '.')
        }),
        label::extension_of(name) is Some && label::extension_of(name)->0.len() == 3
            ==> label::extension_of(name)->0 == name.skip(name.len() - 3),
{
    let n = name.len() as int;
    reveal_with_fuel(label::extension_of, 5);
    if n >= 4 {
        let a = name.drop_last();
        let b = a.drop_last();
        let c = b.drop_last();
        assert(a.last() == name[n - 2]);
        assert(b.last() == name[n - 3]);
        assert(c.last() == name[n - 4]);
        if n >= 5 && name[n - 4] == '.' && name[n - 3] != '.' && name[n - 2] != '.' && name[n - 1]
            != '.' {
            assert(label::extension_of(name)->0 =~= name.skip(n - 3));
        }
        if label::extension_of(name) is Some && name[n - 1] != '.' && name[n - 2] != '.' && name[n
            - 3] != '.' && name[n - 4] != '.' {
            assert(label::extension_of(c) is Some);
            assert(label::extension_of(c)->0.len() >= 1);
        }
    }
}

/// A page that times out gets two more attempts, and keeps those it has left; one that fails
/// otherwise gets none. So it is given up on after the third timeout and not before.
pub proof fn law_a_page_gets_three_attempts(attempts: nat, left: u8, previous: Option<u8>)
    ensures
        failure::retries_after(true, None) == 2,
        failure::retries_after(true, Some(left)) == left,
        failure::retries_after(false, previous) == 0,
        attempts >= 1 ==> (failure::retries_over(attempts) == 0 <==> attempts >= 3),
{
    failure::law_a_page_that_keeps_timing_out_is_given_up_on(attempts);
}

/// A position is kept where it is at most the margin before the first visible one, or less than
/// the margin behind the last.
pub proof fn law_what_is_kept_around_what_is_visible(
    start: usize,
    end: usize,
    margin: usize,
    position: usize,
)
    requires
        position < usize::MAX,
    ensures
        retain::first_kept(start, margin) <= position < retain::end_kept(end, margin) <==> start
            <= position + margin && position < end + margin,
{
}

/// Of what was found where it was looked for, every page that is there is kept, in the order
/// found, and nothing else.
pub proof fn law_every_page_found_is_kept(found: Seq<Option<Source>>, more: Seq<Option<Source>>)
    ensures
        retain::present(found + more) == retain::present(found) + retain::present(more),
        forall|source: Source|
            retain::present(seq![Some(source)]) == seq![source],
        retain::present(seq![None]) == Seq::<Source>::empty(),
        retain::present(Seq::empty()) == Seq::<Source>::empty(),
    decreases more.len(),
{
    reveal_with_fuel(retain::present, 2);
    assert forall|source: Source| retain::present(seq![Some(source)]) == seq![source] by {
        let one = seq![Some(source)];
        assert(one.drop_last() =~= Seq::empty());
        assert(retain::present(one) =~= seq![source]);
    }
    assert(seq![None::<Source>].drop_last() =~= Seq::empty());
    if more.len() == 0 {
        assert(found + more =~= found);
        assert(retain::present(found) + retain::present(more) =~= retain::present(found));
    } else {
        law_every_page_found_is_kept(found, more.drop_last());
        assert((found + more).drop_last() =~= found + more.drop_last());
        assert((found + more).last() == more.last());
        assert(retain::present(found + more) =~= retain::present(found) + retain::present(more));
    }
}

/// A buffer is a picture where it has four bytes for each pixel, and there is a pixel.
pub proof fn law_four_bytes_a_pixel(width: u32, height: u32, bytes: nat)
    ensures
        tiles::fits(width, height, bytes) <==> bytes > 0 && bytes == 4 * (width * height),
{
    assert((width > 0 && height > 0) ==> width * height > 0) by (nonlinear_arith);
    assert(width * height > 0 ==> (width > 0 && height > 0)) by (nonlinear_arith);
}

/// The page on screen is one of the document's where its number is at most how many there are.
pub proof fn law_when_a_page_is_on_screen(current: PageNumber, pages: usize)
    requires
        current.spec_get() >= 1,
    ensures
        edits::on_a_page(current, pages) <==> current.spec_get() <= pages,
{
}

} // verus!
