//! What is said about the pages of a document without opening a window.

use vstd::prelude::*;
use vstd::string::*;

use crate::text;

verus! {

/// Width and height of a page, in whole points.
pub type Size = (i64, i64);

/// How many sizes are listed when pages differ.
pub const LISTED_SIZES: usize = 5;

/// Whether one size comes before another: by width, and by height among those as wide.
pub open spec fn before(left: Size, right: Size) -> bool {
    left.0 < right.0 || (left.0 == right.0 && left.1 < right.1)
}

/// Each size comes before those after it.
pub open spec fn ascending(sizes: Seq<Size>) -> bool {
    forall|i: int, j: int|
        0 <= i < j < sizes.len() ==> before(#[trigger] sizes[i], #[trigger] sizes[j])
}

/// Puts a size where it belongs in an ascending list, unless it is there already.
fn put_in_order(sizes: &mut Vec<Size>, size: Size)
    requires
        ascending(old(sizes)@),
    ensures
        ascending(final(sizes)@),
        final(sizes)@.to_set() == old(sizes)@.to_set().insert(size),
{
    let mut at: usize = 0;
    while at < sizes.len() && (sizes[at].0 < size.0 || (sizes[at].0 == size.0 && sizes[at].1
        < size.1))
        invariant
            at <= sizes.len(),
            ascending(sizes@),
            sizes@ == old(sizes)@,
            forall|j: int| 0 <= j < at ==> before(#[trigger] sizes@[j], size),
        decreases sizes.len() - at,
    {
        at += 1;
    }
    let ghost known = sizes@;
    if at < sizes.len() && sizes[at].0 == size.0 && sizes[at].1 == size.1 {
        proof {
            assert(known[at as int] == size);
            assert(known.contains(size));
            assert(known.to_set().insert(size) =~= known.to_set());
        }
        return;
    }
    sizes.insert(at, size);
    proof {
        assert forall|i: int, j: int| 0 <= i < j < sizes@.len() implies before(
            #[trigger] sizes@[i],
            #[trigger] sizes@[j],
        ) by {
            let from = if i < at {
                i
            } else {
                i - 1
            };
            let to = if j < at {
                j
            } else {
                j - 1
            };
            if i != at && j != at {
                assert(before(known[from], known[to]));
            } else if i == at {
                assert(before(size, known[at as int]));
                if to != at {
                    assert(before(known[at as int], known[to]));
                }
            } else {
                assert(before(known[i], size));
            }
        }
        assert forall|s: Size| sizes@.to_set().contains(s) == known.to_set().insert(
            size,
        ).contains(s) by {
            if known.contains(s) {
                let j = known.index_of(s);
                if j < at {
                    assert(sizes@[j] == s);
                } else {
                    assert(sizes@[j + 1] == s);
                }
            }
            if s == size {
                assert(sizes@[at as int] == s);
            }
            if sizes@.contains(s) {
                let j = sizes@.index_of(s);
                if j < at {
                    assert(known[j] == s);
                } else if j > at {
                    assert(known[j - 1] == s);
                }
            }
        }
        assert(sizes@.to_set() =~= known.to_set().insert(size));
    }
}

/// The sizes that occur, ascending, each once.
pub fn distinct(sizes: &[Size]) -> (found: Vec<Size>)
    ensures
        ascending(found@),
        found@.to_set() == sizes@.to_set(),
{
    let mut found: Vec<Size> = Vec::new();
    let mut i: usize = 0;
    proof {
        assert(found@.to_set() =~= sizes@.take(0).to_set());
    }
    while i < sizes.len()
        invariant
            i <= sizes.len(),
            ascending(found@),
            found@.to_set() == sizes@.take(i as int).to_set(),
        decreases sizes.len() - i,
    {
        put_in_order(&mut found, sizes[i]);
        proof {
            let earlier = sizes@.take(i as int);
            let later = sizes@.take(i + 1);
            assert(later =~= earlier.push(sizes@[i as int]));
            assert forall|s: Size| later.to_set().contains(s) == earlier.to_set().insert(
                sizes@[i as int],
            ).contains(s) by {
                if earlier.contains(s) {
                    assert(later[earlier.index_of(s)] == s);
                }
                if s == sizes@[i as int] {
                    assert(later[i as int] == s);
                }
                if later.contains(s) {
                    let j = later.index_of(s);
                    if j < i {
                        assert(earlier[j] == s);
                    }
                }
            }
            assert(later.to_set() =~= earlier.to_set().insert(sizes@[i as int]));
        }
        i += 1;
    }
    proof {
        assert(sizes@.take(i as int) =~= sizes@);
    }
    found
}

/// A size in words.
pub open spec fn size_text(size: Size) -> Seq<char> {
    text::signed_text(size.0 as int) + "x"@ + text::signed_text(size.1 as int) + " pt"@
}

/// A size in words.
fn say_size(size: Size) -> (said: String)
    ensures
        said@ == size_text(size),
{
    let mut said = text::signed(size.0);
    said.append("x");
    said.append(text::signed(size.1).as_str());
    said.append(" pt");
    said
}

/// What is said of the sizes that occur: the one there is, or how many there are and the first
/// few of them. That pages differ in size is worth saying outright.
pub open spec fn size_lines(sizes: Seq<Size>) -> Seq<Seq<char>> {
    if sizes.len() == 1 {
        seq!["  page size:     "@ + size_text(sizes[0]) + " (uniform)"@]
    } else {
        let listed = if sizes.len() < LISTED_SIZES {
            sizes.len()
        } else {
            LISTED_SIZES as nat
        };
        seq!["  page sizes:    "@ + text::decimal_text(sizes.len()) + " distinct"@] + Seq::new(
            listed,
            |i: int| "                 "@ + size_text(sizes[i]),
        ) + (if sizes.len() > LISTED_SIZES {
            seq![
                "                 ... and "@ + text::decimal_text(
                    (sizes.len() - LISTED_SIZES) as nat,
                ) + " more"@,
            ]
        } else {
            Seq::empty()
        })
    }
}

/// The texts of lines.
pub open spec fn texts(lines: Seq<String>) -> Seq<Seq<char>> {
    lines.map_values(|line: String| line@)
}

/// Adds a line.
fn push(lines: &mut Vec<String>, line: String)
    ensures
        texts(final(lines)@) == texts(old(lines)@).push(line@),
{
    let ghost added = line@;
    lines.push(line);
    proof {
        assert(texts(lines@) =~= texts(old(lines)@).push(added));
    }
}

/// What is said of the sizes that occur.
pub fn describe_sizes(sizes: &[Size]) -> (lines: Vec<String>)
    ensures
        texts(lines@) == size_lines(sizes@),
{
    let mut lines: Vec<String> = Vec::new();
    proof {
        assert(texts(lines@) =~= Seq::empty());
    }
    if sizes.len() == 1 {
        let mut line = String::from_str("  page size:     ");
        line.append(say_size(sizes[0]).as_str());
        line.append(" (uniform)");
        push(&mut lines, line);
        proof {
            assert(texts(lines@) =~= size_lines(sizes@));
        }
        return lines;
    }
    let mut line = String::from_str("  page sizes:    ");
    line.append(text::decimal(sizes.len()).as_str());
    line.append(" distinct");
    push(&mut lines, line);
    let ghost first = texts(lines@);
    let mut i: usize = 0;
    while i < sizes.len() && i < LISTED_SIZES
        invariant
            i <= sizes.len(),
            i <= LISTED_SIZES,
            texts(lines@) == first + Seq::new(
                i as nat,
                |k: int| "                 "@ + size_text(sizes@[k]),
            ),
        decreases sizes.len() - i,
    {
        let line = text::joined("                 ", say_size(sizes[i]).as_str());
        push(&mut lines, line);
        i += 1;
        proof {
            assert(texts(lines@) =~= first + Seq::new(
                i as nat,
                |k: int| "                 "@ + size_text(sizes@[k]),
            ));
        }
    }
    if sizes.len() > LISTED_SIZES {
        let mut line = String::from_str("                 ... and ");
        line.append(text::decimal(sizes.len() - LISTED_SIZES).as_str());
        line.append(" more");
        push(&mut lines, line);
    }
    proof {
        assert(texts(lines@) =~= size_lines(sizes@));
    }
    lines
}

} // verus!
