//! Which pages the grid shows, from what was typed in the search box.
//!
//! It searches page numbers, not page text. The box filters as you type, so every prefix of
//! a real query is a query too: a range missing its upper bound is read as just the lower
//! one, and only a leading dash means "from the start".

use vstd::prelude::*;

use crate::text;

verus! {

/// The parts of `s` between separators: one more than there are separators.
pub open spec fn split(s: Seq<char>, separator: char) -> Seq<Seq<char>>
    decreases s.len(),
{
    if s.len() == 0 {
        seq![Seq::empty()]
    } else {
        let parts = split(s.drop_last(), separator);
        if s.last() == separator {
            parts.push(Seq::empty())
        } else {
            parts.update(parts.len() - 1, parts.last().push(s.last()))
        }
    }
}

/// Where the first dash in `s` is, at or after `from`.
pub open spec fn first_dash(s: Seq<char>, from: int) -> Option<int>
    decreases s.len() - from,
{
    if from >= s.len() {
        None
    } else if s[from] == '-' {
        Some(from)
    } else {
        first_dash(s, from + 1)
    }
}

/// Whether `c` is an ASCII digit.
pub open spec fn is_digit(c: char) -> bool {
    '0' <= c <= '9'
}

/// The number that the digits in `s` write out.
pub open spec fn value_of(s: Seq<char>) -> nat
    decreases s.len(),
{
    if s.len() == 0 {
        0
    } else {
        value_of(s.drop_last()) * 10 + (s.last() as nat - '0' as nat) as nat
    }
}

/// One end of a range, or one number on its own.
///
/// "Nothing there" and "not a number" have to be told apart: an absent bound opens the
/// range, while a nonsensical one voids it.
#[derive(Debug, Clone, Copy, PartialEq, Eq, Structural)]
pub enum Bound {
    /// Nothing between the separators.
    Missing,
    /// A number. Zero is kept, because clamping it to the first page is what makes `0-2`
    /// mean pages 1 to 2 while `0` alone still means no page.
    Number(usize),
    /// Not a number at all.
    Nonsense,
}

/// What `s` says as a bound. A number too long to count to is as good as the largest one.
pub open spec fn bound_of(s: Seq<char>) -> Bound {
    let digits = text::trimmed(s);
    if digits.len() == 0 {
        Bound::Missing
    } else if forall|i: int| 0 <= i < digits.len() ==> is_digit(#[trigger] digits[i]) {
        Bound::Number(
            if value_of(digits) <= usize::MAX {
                value_of(digits) as usize
            } else {
                usize::MAX
            },
        )
    } else {
        Bound::Nonsense
    }
}

/// The page numbers from one to the other that a part of a query names, in the order
/// written, for a document of `page_count` pages.
pub open spec fn range_of(part: Seq<char>, page_count: usize) -> Option<(usize, usize)> {
    let token = text::trimmed(part);
    match first_dash(token, 0) {
        Some(dash) => match (bound_of(token.take(dash)), bound_of(token.skip(dash + 1))) {
            (Bound::Nonsense, _) => None,
            (_, Bound::Nonsense) => None,
            (Bound::Missing, Bound::Missing) => Some((1, page_count)),
            (Bound::Missing, Bound::Number(high)) => Some((1, high)),
            (Bound::Number(low), Bound::Missing) => Some((low, low)),
            (Bound::Number(low), Bound::Number(high)) => Some((low, high)),
        },
        None => match bound_of(token) {
            Bound::Number(single) => Some((single, single)),
            _ => None,
        },
    }
}

/// Whether page `number` lies in a range, whichever way round it is written.
pub open spec fn in_range(range: (usize, usize), number: int) -> bool {
    ||| range.0 <= number <= range.1
    ||| range.1 <= number <= range.0
}

/// Whether a query names page `number` of a document of `page_count` pages.
pub open spec fn matches_query(query: Seq<char>, page_count: usize, number: int) -> bool {
    exists|i: int|
        0 <= i < split(query, ',').len() && (range_of(
            #[trigger] split(query, ',')[i],
            page_count,
        ) matches Some(range) && in_range(range, number))
}

/// Which pages the grid is showing.
#[derive(Debug, Clone, PartialEq, Eq, Default)]
pub enum PageFilter {
    /// Nothing typed: every page.
    #[default]
    All,
    /// A query resolved to these display positions, ascending. Possibly empty, which means
    /// "nothing matched" rather than "no filter".
    Only(Vec<usize>),
}

/// Whether `positions` are exactly those of the pages that `query` names, ascending.
pub open spec fn resolves(query: Seq<char>, page_count: usize, positions: Seq<usize>) -> bool {
    &&& forall|i: int, j: int|
        0 <= i < j < positions.len() ==> #[trigger] positions[i] < #[trigger] positions[j]
    &&& forall|p: usize|
        #[trigger] positions.contains(p) <==> p < page_count && matches_query(
            query,
            page_count,
            p + 1,
        )
}

/// The parts of `s` between commas.
fn parts(s: &[char]) -> (parts: Vec<Vec<char>>)
    ensures
        parts@.len() == split(s@, ',').len(),
        forall|i: int| 0 <= i < parts@.len() ==> (#[trigger] parts@[i])@ == split(s@, ',')[i],
{
    let mut parts: Vec<Vec<char>> = Vec::new();
    let mut part: Vec<char> = Vec::new();
    let mut i: usize = 0;
    proof {
        assert(s@.take(0) =~= Seq::empty());
    }
    while i < s.len()
        invariant
            i <= s.len(),
            split(s@.take(i as int), ',').len() == parts@.len() + 1,
            forall|j: int|
                0 <= j < parts@.len() ==> (#[trigger] parts@[j])@ == split(
                    s@.take(i as int),
                    ',',
                )[j],
            split(s@.take(i as int), ',').last() == part@,
        decreases s.len() - i,
    {
        let ghost earlier = split(s@.take(i as int), ',');
        let ghost next = s@.take(i + 1);
        proof {
            assert(next.drop_last() =~= s@.take(i as int));
            assert(next.last() == s@[i as int]);
        }
        if s[i] == ',' {
            parts.push(part);
            part = Vec::new();
            proof {
                assert(split(next, ',') =~= earlier.push(Seq::empty()));
            }
        } else {
            part.push(s[i]);
        }
        i += 1;
    }
    proof {
        assert(s@.take(i as int) =~= s@);
    }
    parts.push(part);
    parts
}

/// Reads one bound.
pub fn bound(s: &str) -> (bound: Bound)
    ensures
        bound == bound_of(s@),
{
    let chars = text::chars_of(s);
    bound_in(chars.as_slice())
}

/// Reads one bound.
fn bound_in(s: &[char]) -> (bound: Bound)
    ensures
        bound == bound_of(s@),
{
    let digits = text::trim(s);
    if digits.len() == 0 {
        return Bound::Missing;
    }
    let mut value: usize = 0;
    let mut i: usize = 0;
    let mut over: bool = false;
    while i < digits.len()
        invariant
            i <= digits.len(),
            digits@ == text::trimmed(s@),
            digits.len() > 0,
            forall|j: int| 0 <= j < i ==> is_digit(#[trigger] digits@[j]),
            !over ==> value == value_of(digits@.take(i as int)),
            over ==> value_of(digits@.take(i as int)) > usize::MAX,
        decreases digits.len() - i,
    {
        let c = digits[i];
        if c < '0' || c > '9' {
            proof {
                assert(!is_digit(digits@[i as int]));
            }
            return Bound::Nonsense;
        }
        let ghost next = digits@.take(i + 1);
        let digit = (c as u32 - '0' as u32) as usize;
        proof {
            assert(next.drop_last() =~= digits@.take(i as int));
            assert(next.last() == c);
        }
        if !over {
            if value > (usize::MAX - digit) / 10 {
                proof {
                    assert(value * 10 + digit > usize::MAX) by (nonlinear_arith)
                        requires
                            value > (usize::MAX - digit) / 10,
                            digit <= usize::MAX,
                    ;
                }
                over = true;
            } else {
                proof {
                    assert(value * 10 + digit <= usize::MAX) by (nonlinear_arith)
                        requires
                            value <= (usize::MAX - digit) / 10,
                            digit <= usize::MAX,
                    ;
                }
                value = value * 10 + digit;
            }
        }
        i += 1;
    }
    proof {
        assert(digits@.take(i as int) =~= digits@);
    }
    if over {
        Bound::Number(usize::MAX)
    } else {
        Bound::Number(value)
    }
}

/// The range that a part of a query names.
fn range(part: &[char], page_count: usize) -> (range: Option<(usize, usize)>)
    ensures
        range == range_of(part@, page_count),
{
    let token = text::trim(part);
    let mut dash: usize = 0;
    while dash < token.len() && token[dash] != '-'
        invariant
            dash <= token.len(),
            first_dash(token@, 0) == first_dash(token@, dash as int),
        decreases token.len() - dash,
    {
        dash += 1;
    }
    if dash < token.len() {
        let from = vstd::slice::slice_subrange(token, 0, dash);
        let to = vstd::slice::slice_subrange(token, dash + 1, token.len());
        proof {
            assert(from@ =~= token@.take(dash as int));
            assert(to@ =~= token@.skip(dash + 1));
        }
        match (bound_in(from), bound_in(to)) {
            (Bound::Nonsense, _) => None,
            (_, Bound::Nonsense) => None,
            (Bound::Missing, Bound::Missing) => Some((1, page_count)),
            (Bound::Missing, Bound::Number(high)) => Some((1, high)),
            (Bound::Number(low), Bound::Missing) => Some((low, low)),
            (Bound::Number(low), Bound::Number(high)) => Some((low, high)),
        }
    } else {
        match bound_in(token) {
            Bound::Number(single) => Some((single, single)),
            Bound::Missing => None,
            Bound::Nonsense => None,
        }
    }
}

impl PageFilter {
    /// Reads a query against a document of `page_count` pages.
    ///
    /// Never fails: anything unreadable simply matches nothing. Page numbers count from 1.
    pub fn parse(query: &str, page_count: usize) -> (filter: PageFilter)
        ensures
            match filter {
                PageFilter::All => text::trimmed(query@).len() == 0,
                PageFilter::Only(positions) => text::trimmed(query@).len() > 0 && resolves(
                    query@,
                    page_count,
                    positions@,
                ),
            },
    {
        let chars = text::chars_of(query);
        if text::trim(chars.as_slice()).len() == 0 {
            return PageFilter::All;
        }
        let tokens = parts(chars.as_slice());
        let mut ranges: Vec<(usize, usize)> = Vec::new();
        let mut i: usize = 0;
        while i < tokens.len()
            invariant
                i <= tokens.len(),
                tokens@.len() == split(query@, ',').len(),
                forall|j: int|
                    0 <= j < tokens@.len() ==> (#[trigger] tokens@[j])@ == split(query@, ',')[j],
                forall|r: (usize, usize)|
                    #[trigger] ranges@.contains(r) <==> exists|j: int|
                        0 <= j < i && range_of(#[trigger] split(query@, ',')[j], page_count)
                            == Some(r),
            decreases tokens.len() - i,
        {
            let ghost before = ranges@;
            let ghost part = split(query@, ',')[i as int];
            match range(tokens[i].as_slice(), page_count) {
                Some(one) => {
                    ranges.push(one);
                    proof {
                        assert forall|r: (usize, usize)|
                            #[trigger] ranges@.contains(r) <==> exists|j: int|
                                0 <= j < i + 1 && range_of(
                                    #[trigger] split(query@, ',')[j],
                                    page_count,
                                ) == Some(r) by {
                            if before.contains(r) {
                                let k = choose|k: int| 0 <= k < before.len() && before[k] == r;
                                assert(ranges@[k] == r);
                            }
                            if r == one {
                                assert(ranges@[before.len() as int] == r);
                                assert(range_of(split(query@, ',')[i as int], page_count) == Some(
                                    r,
                                ));
                            }
                            if ranges@.contains(r) && r != one {
                                let k = choose|k: int| 0 <= k < ranges@.len() && ranges@[k] == r;
                                assert(before[k] == r);
                            }
                        }
                    }
                },
                None => {},
            }
            i += 1;
        }
        let mut positions: Vec<usize> = Vec::new();
        let mut position: usize = 0;
        while position < page_count
            invariant
                position <= page_count,
                i == split(query@, ',').len(),
                forall|r: (usize, usize)|
                    #[trigger] ranges@.contains(r) <==> exists|j: int|
                        0 <= j < i && range_of(#[trigger] split(query@, ',')[j], page_count)
                            == Some(r),
                forall|k: int| 0 <= k < positions@.len() ==> #[trigger] positions@[k] < position,
                forall|a: int, b: int|
                    0 <= a < b < positions@.len() ==> #[trigger] positions@[a]
                        < #[trigger] positions@[b],
                forall|p: usize|
                    #[trigger] positions@.contains(p) <==> p < position && matches_query(
                        query@,
                        page_count,
                        p + 1,
                    ),
            decreases page_count - position,
        {
            let number = position + 1;
            let named = any_holds(ranges.as_slice(), number);
            let ghost before = positions@;
            proof {
                if named {
                    let k = choose|k: int|
                        0 <= k < ranges@.len() && in_range(#[trigger] ranges@[k], number as int);
                    assert(ranges@.contains(ranges@[k]));
                    let j = choose|j: int|
                        0 <= j < i && range_of(#[trigger] split(query@, ',')[j], page_count)
                            == Some(ranges@[k]);
                    assert(matches_query(query@, page_count, number as int));
                }
                if matches_query(query@, page_count, number as int) {
                    let j = choose|j: int|
                        0 <= j < split(query@, ',').len() && (range_of(
                            #[trigger] split(query@, ',')[j],
                            page_count,
                        ) matches Some(range) && in_range(range, number as int));
                    let r = range_of(split(query@, ',')[j], page_count)->0;
                    assert(ranges@.contains(r));
                    let k = choose|k: int| 0 <= k < ranges@.len() && ranges@[k] == r;
                    assert(in_range(ranges@[k], number as int));
                }
            }
            if named {
                positions.push(position);
                proof {
                    assert forall|p: usize|
                        #[trigger] positions@.contains(p) <==> p < position + 1 && matches_query(
                            query@,
                            page_count,
                            p + 1,
                        ) by {
                        if before.contains(p) {
                            let k = choose|k: int| 0 <= k < before.len() && before[k] == p;
                            assert(positions@[k] == p);
                        }
                        if p == position {
                            assert(positions@[before.len() as int] == p);
                        }
                        if positions@.contains(p) && p != position {
                            let k = choose|k: int| 0 <= k < positions@.len() && positions@[k] == p;
                            assert(before[k] == p);
                        }
                    }
                }
            }
            position += 1;
        }
        PageFilter::Only(positions)
    }

    /// Whether a query is narrowing the grid. True even when the query matched nothing.
    pub fn is_narrowed(&self) -> (narrowed: bool)
        ensures
            narrowed == (self is Only),
    {
        matches!(self, PageFilter::Only(_))
    }

    /// How many pages the grid will show.
    pub open spec fn spec_shown(&self, page_count: usize) -> nat {
        match self {
            PageFilter::All => page_count as nat,
            PageFilter::Only(positions) => positions@.len(),
        }
    }

    /// How many pages the grid will show.
    pub fn shown(&self, page_count: usize) -> (shown: usize)
        ensures
            shown == self.spec_shown(page_count),
    {
        match self {
            PageFilter::All => page_count,
            PageFilter::Only(positions) => positions.len(),
        }
    }

    /// The display position that the grid should draw in its `slot`th cell.
    pub fn position_at(&self, slot: usize, page_count: usize) -> (position: Option<usize>)
        ensures
            position == (if slot >= self.spec_shown(page_count) {
                None::<usize>
            } else {
                Some(
                    match self {
                        PageFilter::All => slot,
                        PageFilter::Only(positions) => positions@[slot as int],
                    },
                )
            }),
    {
        match self {
            PageFilter::All => if slot < page_count {
                Some(slot)
            } else {
                None
            },
            PageFilter::Only(positions) => if slot < positions.len() {
                Some(positions[slot])
            } else {
                None
            },
        }
    }
}

/// Whether one of `ranges` holds `number`.
fn any_holds(ranges: &[(usize, usize)], number: usize) -> (held: bool)
    ensures
        held == (exists|k: int|
            0 <= k < ranges@.len() && in_range(#[trigger] ranges@[k], number as int)),
{
    let mut k: usize = 0;
    while k < ranges.len()
        invariant
            k <= ranges.len(),
            forall|j: int| 0 <= j < k ==> !in_range(#[trigger] ranges@[j], number as int),
        decreases ranges.len() - k,
    {
        let (low, high) = ranges[k];
        if (low <= number && number <= high) || (high <= number && number <= low) {
            proof {
                assert(in_range(ranges@[k as int], number as int));
            }
            return true;
        }
        k += 1;
    }
    false
}

/// A query resolves to positions of the document only, each once, ascending.
pub proof fn law_a_filter_names_only_pages_there_are(
    query: Seq<char>,
    page_count: usize,
    positions: Seq<usize>,
)
    requires
        resolves(query, page_count, positions),
    ensures
        forall|i: int| 0 <= i < positions.len() ==> #[trigger] positions[i] < page_count,
        positions.no_duplicates(),
{
    assert forall|i: int| 0 <= i < positions.len() implies #[trigger] positions[i] < page_count by {
        assert(positions.contains(positions[i]));
    }
    assert forall|i: int, j: int|
        0 <= i < positions.len() && 0 <= j < positions.len() && i != j implies positions[i]
        != positions[j] by {
        if i < j {
            assert(positions[i] < positions[j]);
        } else {
            assert(positions[j] < positions[i]);
        }
    }
}

/// A range written backwards names the pages that it names forwards.
pub proof fn law_a_backwards_range_is_the_same_range(low: usize, high: usize, number: int)
    ensures
        in_range((low, high), number) == in_range((high, low), number),
{
}

} // verus!
