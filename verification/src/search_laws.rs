//! What a query means, said of its text.

use vstd::prelude::*;

use crate::search;
use crate::search::Bound;
use crate::text;
use crate::text_laws;
use crate::text_laws::{is_blank, is_numeral, number_written};

verus! {

/// Whether `positions` are, ascending, those of the pages from number `low` to number `high`
/// that a document of `page_count` pages has.
pub open spec fn names_pages(
    positions: Seq<usize>,
    page_count: usize,
    low: int,
    high: int,
) -> bool {
    &&& forall|i: int, j: int|
        0 <= i < j < positions.len() ==> #[trigger] positions[i] < #[trigger] positions[j]
    &&& forall|p: usize|
        (exists|i: int| 0 <= i < positions.len() && #[trigger] positions[i] == p)
            <==> #[trigger] (p + 1) <= page_count && low <= p + 1 <= high
}

/// The numbers that digits write and that a query reads from them are the same.
proof fn lemma_value_is_what_is_written(s: Seq<char>)
    requires
        forall|i: int| 0 <= i < s.len() ==> '0' <= #[trigger] s[i] <= '9',
    ensures
        search::value_of(s) == number_written(s),
    decreases s.len(),
{
    if s.len() > 0 {
        let front = s.drop_last();
        assert forall|i: int| 0 <= i < front.len() implies '0' <= #[trigger] front[i] <= '9' by {
            assert(front[i] == s[i]);
        }
        lemma_value_is_what_is_written(front);
        text_laws::lemma_one_more_digit(front, s.last());
        assert(front.push(s.last()) =~= s);
        assert('0' <= s[s.len() - 1] <= '9');
    }
}

proof fn lemma_digits_are_no_space(s: Seq<char>)
    requires
        is_numeral(s),
    ensures
        text::trimmed(s) == s,
        !text::is_space(s[0]),
        !text::is_space(s.last()),
{
    assert('0' <= s[0] <= '9');
    assert('0' <= s[s.len() - 1] <= '9');
    text_laws::lemma_nothing_to_trim(s);
}

proof fn lemma_bound_of_digits(s: Seq<char>)
    requires
        is_numeral(s),
    ensures
        search::bound_of(s) == Bound::Number(
            if number_written(s) <= usize::MAX {
                number_written(s) as usize
            } else {
                usize::MAX
            },
        ),
        number_written(s) >= 0,
{
    lemma_digits_are_no_space(s);
    lemma_value_is_what_is_written(s);
    assert forall|i: int| 0 <= i < s.len() implies search::is_digit(#[trigger] s[i]) by {}
}

proof fn lemma_nothing_is_missing()
    ensures
        search::bound_of(Seq::empty()) == Bound::Missing,
{
}

/// Where there is no separator there is one part.
proof fn lemma_one_part(s: Seq<char>, separator: char)
    requires
        forall|i: int| 0 <= i < s.len() ==> #[trigger] s[i] != separator,
    ensures
        search::split(s, separator) == seq![s],
    decreases s.len(),
{
    if s.len() > 0 {
        let front = s.drop_last();
        assert forall|i: int| 0 <= i < front.len() implies #[trigger] front[i] != separator by {
            assert(front[i] == s[i]);
        }
        lemma_one_part(front, separator);
        assert(s.last() == s[s.len() - 1]);
        assert(front.push(s.last()) =~= s);
        assert(search::split(s, separator) =~= seq![s]);
    } else {
        assert(s =~= Seq::empty());
        assert(search::split(s, separator) =~= seq![s]);
    }
}

proof fn lemma_there_is_a_part(s: Seq<char>, separator: char)
    ensures
        search::split(s, separator).len() > 0,
    decreases s.len(),
{
    if s.len() > 0 {
        lemma_there_is_a_part(s.drop_last(), separator);
    }
}

/// Of two texts put together the parts are those of each, but the last of the one and the first
/// of the other are one part.
proof fn lemma_parts_together(a: Seq<char>, b: Seq<char>, separator: char)
    ensures
        ({
            let left = search::split(a, separator);
            let right = search::split(b, separator);
            search::split(a + b, separator) == left.drop_last() + seq![left.last() + right[0]]
                + right.drop_first()
        }),
    decreases b.len(),
{
    let left = search::split(a, separator);
    let right = search::split(b, separator);
    lemma_there_is_a_part(a, separator);
    lemma_there_is_a_part(b, separator);
    if b.len() == 0 {
        assert(a + b =~= a);
        assert(left.last() + right[0] =~= left.last());
        assert(left.drop_last() + seq![left.last() + right[0]] + right.drop_first() =~= left);
    } else {
        let front = b.drop_last();
        lemma_parts_together(a, front, separator);
        lemma_there_is_a_part(front, separator);
        assert((a + b).drop_last() =~= a + front);
        assert((a + b).last() == b.last());
        let earlier = search::split(front, separator);
        let whole = left.drop_last() + seq![left.last() + earlier[0]] + earlier.drop_first();
        let wanted = left.drop_last() + seq![left.last() + right[0]] + right.drop_first();
        if b.last() == separator {
            assert(whole.push(Seq::empty()) =~= wanted);
        } else {
            let last = whole.last().push(b.last());
            assert(whole.update(whole.len() - 1, last) =~= wanted) by {
                if earlier.len() == 1 {
                    assert(whole.last() == left.last() + earlier[0]);
                    assert(last =~= left.last() + right[0]);
                } else {
                    assert(whole.last() == earlier.last());
                    assert(right[0] == earlier[0]);
                }
            }
        }
    }
}

proof fn lemma_first_dash(s: Seq<char>, from: int, at: int)
    requires
        0 <= from <= at < s.len(),
        s[at] == '-',
        forall|i: int| from <= i < at ==> #[trigger] s[i] != '-',
    ensures
        search::first_dash(s, from) == Some(at),
    decreases at - from,
{
    if from < at {
        assert(s[from] != '-');
        lemma_first_dash(s, from + 1, at);
    }
}

proof fn lemma_no_dash(s: Seq<char>, from: int)
    requires
        0 <= from <= s.len(),
        forall|i: int| from <= i < s.len() ==> #[trigger] s[i] != '-',
    ensures
        search::first_dash(s, from) is None,
    decreases s.len() - from,
{
    if from < s.len() {
        assert(s[from] != '-');
        lemma_no_dash(s, from + 1);
    }
}

/// A query of one part names what its part does.
proof fn lemma_one_range(query: Seq<char>, page_count: usize, number: int)
    requires
        forall|i: int| 0 <= i < query.len() ==> #[trigger] query[i] != ',',
    ensures
        search::matches_query(query, page_count, number) == (search::range_of(
            query,
            page_count,
        ) matches Some(range) && search::in_range(range, number)),
{
    lemma_one_part(query, ',');
    assert(search::split(query, ',')[0] == query);
}

/// What positions a query that names the numbers of one range resolves to.
proof fn lemma_resolves_to_a_range(
    query: Seq<char>,
    page_count: usize,
    positions: Seq<usize>,
    low: int,
    high: int,
)
    requires
        search::resolves(query, page_count, positions),
        forall|number: int|
            1 <= number <= page_count ==> (#[trigger] search::matches_query(
                query,
                page_count,
                number,
            ) <==> low <= number <= high),
    ensures
        names_pages(positions, page_count, low, high),
{
    assert forall|p: usize|
        (exists|i: int| 0 <= i < positions.len() && #[trigger] positions[i] == p)
            <==> #[trigger] (p + 1) <= page_count && low <= p + 1 <= high by {
        assert(positions.contains(p) <==> p < page_count && search::matches_query(
            query,
            page_count,
            p + 1,
        ));
        if exists|i: int| 0 <= i < positions.len() && #[trigger] positions[i] == p {
            let i = choose|i: int| 0 <= i < positions.len() && #[trigger] positions[i] == p;
            assert(positions.contains(p));
        }
        if positions.contains(p) {
            let i = choose|i: int| 0 <= i < positions.len() && positions[i] == p;
            assert(positions[i] == p);
        }
        if p < page_count {
            assert(search::matches_query(query, page_count, p + 1) <==> low <= p + 1 <= high);
        }
    }
}

/// Two numbers with a dash between them name the pages from the one to the other, whichever way
/// round they are written.
pub proof fn law_a_range_names_the_pages_between(
    from: Seq<char>,
    to: Seq<char>,
    page_count: usize,
    positions: Seq<usize>,
)
    requires
        is_numeral(from),
        is_numeral(to),
        page_count < usize::MAX,
        search::resolves(from + seq!['-'] + to, page_count, positions),
    ensures
        number_written(from) <= number_written(to) ==> names_pages(
            positions,
            page_count,
            number_written(from),
            number_written(to),
        ),
        number_written(to) <= number_written(from) ==> names_pages(
            positions,
            page_count,
            number_written(to),
            number_written(from),
        ),
{
    let query = from + seq!['-'] + to;
    lemma_digits_are_no_space(from);
    lemma_digits_are_no_space(to);
    assert(query.last() == to.last());
    text_laws::lemma_nothing_to_trim(query);
    assert forall|i: int| 0 <= i < query.len() implies #[trigger] query[i] != ',' by {
        if i < from.len() {
            assert(query[i] == from[i]);
        } else if i > from.len() {
            assert(query[i] == to[i - from.len() - 1]);
        }
    }
    lemma_first_dash(query, 0, from.len() as int);
    assert(query.take(from.len() as int) =~= from);
    assert(query.skip(from.len() as int + 1) =~= to);
    lemma_bound_of_digits(from);
    lemma_bound_of_digits(to);
    let a = number_written(from);
    let b = number_written(to);
    let low = if a <= b {
        a
    } else {
        b
    };
    let high = if a <= b {
        b
    } else {
        a
    };
    assert forall|number: int| 1 <= number <= page_count implies (
    #[trigger] search::matches_query(query, page_count, number) <==> low <= number <= high) by {
        lemma_one_range(query, page_count, number);
    }
    lemma_resolves_to_a_range(query, page_count, positions, low, high);
}

/// One number names its page, and no page where there is none of that number.
pub proof fn law_a_number_names_its_page(
    digits: Seq<char>,
    page_count: usize,
    positions: Seq<usize>,
)
    requires
        is_numeral(digits),
        page_count < usize::MAX,
        search::resolves(digits, page_count, positions),
    ensures
        names_pages(positions, page_count, number_written(digits), number_written(digits)),
{
    lemma_digits_are_no_space(digits);
    lemma_no_dash(digits, 0);
    lemma_bound_of_digits(digits);
    let n = number_written(digits);
    assert forall|number: int| 1 <= number <= page_count implies (
    #[trigger] search::matches_query(digits, page_count, number) <==> n <= number <= n) by {
        lemma_one_range(digits, page_count, number);
    }
    lemma_resolves_to_a_range(digits, page_count, positions, n, n);
}

/// A dash with a number behind it names the pages up to that one.
pub proof fn law_a_leading_dash_starts_at_the_first_page(
    to: Seq<char>,
    page_count: usize,
    positions: Seq<usize>,
)
    requires
        is_numeral(to),
        number_written(to) >= 1,
        page_count < usize::MAX,
        search::resolves(seq!['-'] + to, page_count, positions),
    ensures
        names_pages(positions, page_count, 1, number_written(to)),
{
    let query = seq!['-'] + to;
    lemma_digits_are_no_space(to);
    assert(query.last() == to.last());
    text_laws::lemma_nothing_to_trim(query);
    assert forall|i: int| 0 <= i < query.len() implies #[trigger] query[i] != ',' by {
        if i > 0 {
            assert(query[i] == to[i - 1]);
        }
    }
    lemma_first_dash(query, 0, 0);
    assert(query.take(0) =~= Seq::empty());
    assert(query.skip(1) =~= to);
    lemma_nothing_is_missing();
    lemma_bound_of_digits(to);
    let high = number_written(to);
    assert forall|number: int| 1 <= number <= page_count implies (
    #[trigger] search::matches_query(query, page_count, number) <==> 1 <= number <= high) by {
        lemma_one_range(query, page_count, number);
    }
    lemma_resolves_to_a_range(query, page_count, positions, 1, high);
}

/// A number with a dash behind it, as it stands while a range is being typed, names its page.
pub proof fn law_a_range_without_its_end_names_its_start(
    from: Seq<char>,
    page_count: usize,
    positions: Seq<usize>,
)
    requires
        is_numeral(from),
        page_count < usize::MAX,
        search::resolves(from + seq!['-'], page_count, positions),
    ensures
        names_pages(positions, page_count, number_written(from), number_written(from)),
{
    let query = from + seq!['-'];
    lemma_digits_are_no_space(from);
    text_laws::lemma_nothing_to_trim(query);
    assert forall|i: int| 0 <= i < query.len() implies #[trigger] query[i] != ',' by {
        if i < from.len() {
            assert(query[i] == from[i]);
        }
    }
    lemma_first_dash(query, 0, from.len() as int);
    assert(query.take(from.len() as int) =~= from);
    assert(query.skip(from.len() as int + 1) =~= Seq::empty());
    lemma_nothing_is_missing();
    lemma_bound_of_digits(from);
    let n = number_written(from);
    assert forall|number: int| 1 <= number <= page_count implies (
    #[trigger] search::matches_query(query, page_count, number) <==> n <= number <= n) by {
        lemma_one_range(query, page_count, number);
    }
    lemma_resolves_to_a_range(query, page_count, positions, n, n);
}

/// A dash alone names every page.
pub proof fn law_a_dash_alone_names_every_page(page_count: usize, positions: Seq<usize>)
    requires
        search::resolves(seq!['-'], page_count, positions),
    ensures
        names_pages(positions, page_count, 1, page_count as int),
{
    let query = seq!['-'];
    text_laws::lemma_nothing_to_trim(query);
    lemma_first_dash(query, 0, 0);
    assert(query.take(0) =~= Seq::empty());
    assert(query.skip(1) =~= Seq::empty());
    lemma_nothing_is_missing();
    assert forall|number: int| 1 <= number <= page_count implies (
    #[trigger] search::matches_query(query, page_count, number) <==> 1 <= number <= page_count) by {
        lemma_one_range(query, page_count, number);
    }
    lemma_resolves_to_a_range(query, page_count, positions, 1, page_count as int);
}

/// A list names what the query before a comma names and what the one behind it names.
pub proof fn law_a_list_names_what_its_parts_name(
    left: Seq<char>,
    right: Seq<char>,
    page_count: usize,
    before: Seq<usize>,
    behind: Seq<usize>,
    positions: Seq<usize>,
)
    requires
        search::resolves(left, page_count, before),
        search::resolves(right, page_count, behind),
        search::resolves(left + seq![','] + right, page_count, positions),
    ensures
        forall|p: usize| #[trigger]
            positions.contains(p) <==> before.contains(p) || behind.contains(p),
        forall|i: int, j: int|
            0 <= i < j < positions.len() ==> #[trigger] positions[i] < #[trigger] positions[j],
{
    let query = left + seq![','] + right;
    let these = search::split(left, ',');
    let those = search::split(right, ',');
    let comma = left.push(',');
    lemma_there_is_a_part(left, ',');
    lemma_there_is_a_part(right, ',');
    assert(comma.drop_last() =~= left);
    assert(search::split(comma, ',') == these.push(Seq::empty()));
    lemma_parts_together(comma, right, ',');
    assert(comma + right =~= query);
    assert(Seq::<char>::empty() + those[0] =~= those[0]);
    let all = search::split(query, ',');
    assert(all =~= these + those);
    assert forall|p: usize| #[trigger]
        positions.contains(p) <==> before.contains(p) || behind.contains(p) by {
        let number = p + 1;
        assert(before.contains(p) <==> p < page_count && search::matches_query(
            left,
            page_count,
            number,
        ));
        assert(behind.contains(p) <==> p < page_count && search::matches_query(
            right,
            page_count,
            number,
        ));
        if search::matches_query(left, page_count, number) {
            let i = choose|i: int|
                0 <= i < these.len() && (search::range_of(
                    #[trigger] these[i],
                    page_count,
                ) matches Some(range) && search::in_range(range, number));
            assert(all[i] == these[i]);
        }
        if search::matches_query(right, page_count, number) {
            let i = choose|i: int|
                0 <= i < those.len() && (search::range_of(
                    #[trigger] those[i],
                    page_count,
                ) matches Some(range) && search::in_range(range, number));
            assert(all[these.len() + i] == those[i]);
        }
        if search::matches_query(query, page_count, number) {
            let i = choose|i: int|
                0 <= i < all.len() && (search::range_of(
                    #[trigger] all[i],
                    page_count,
                ) matches Some(range) && search::in_range(range, number));
            if i < these.len() {
                assert(all[i] == these[i]);
            } else {
                assert(all[i] == those[i - these.len()]);
            }
        }
    }
}

/// White space around a part of a query changes nothing.
pub proof fn law_white_space_around_a_part_changes_nothing(
    lead: Seq<char>,
    part: Seq<char>,
    tail: Seq<char>,
    page_count: usize,
    positions: Seq<usize>,
    padded: Seq<usize>,
)
    requires
        is_blank(lead),
        is_blank(tail),
        forall|i: int| 0 <= i < part.len() ==> #[trigger] part[i] != ',',
        search::resolves(part, page_count, positions),
        search::resolves(lead + part + tail, page_count, padded),
    ensures
        forall|p: usize| #[trigger] padded.contains(p) <==> positions.contains(p),
{
    let query = lead + part + tail;
    assert forall|i: int| 0 <= i < query.len() implies #[trigger] query[i] != ',' by {
        if i < lead.len() {
            assert(query[i] == lead[i]);
            assert(text::is_space(lead[i]));
        } else if i < lead.len() + part.len() {
            assert(query[i] == part[i - lead.len()]);
        } else {
            assert(query[i] == tail[i - lead.len() - part.len()]);
            assert(text::is_space(tail[i - lead.len() - part.len()]));
        }
    }
    text_laws::law_white_space_around_a_text_is_taken_off(lead, part, tail);
    assert forall|p: usize| #[trigger] padded.contains(p) <==> positions.contains(p) by {
        lemma_one_range(query, page_count, p + 1);
        lemma_one_range(part, page_count, p + 1);
        assert(positions.contains(p) <==> p < page_count && search::matches_query(
            part,
            page_count,
            p + 1,
        ));
    }
}

/// What is not white space is kept when white space is taken off.
proof fn lemma_kept_by_trimming(s: Seq<char>, at: int)
    requires
        0 <= at < s.len(),
        !text::is_space(s[at]),
    ensures
        exists|i: int|
            0 <= i < text::trimmed(s).len() && #[trigger] text::trimmed(s)[i] == s[at],
{
    let (lead, tail) = text_laws::law_trimming_takes_only_white_space_off_the_ends(s);
    let kept = text::trimmed(s);
    if at < lead.len() {
        assert(s[at] == lead[at]);
    } else if at >= lead.len() + kept.len() {
        assert(s[at] == tail[at - lead.len() - kept.len()]);
    } else {
        assert(kept[at - lead.len()] == s[at]);
    }
}

proof fn lemma_bound_of_nonsense(s: Seq<char>, at: int)
    requires
        0 <= at < s.len(),
        !text::is_space(s[at]),
        !('0' <= s[at] <= '9'),
    ensures
        search::bound_of(s) == Bound::Nonsense,
{
    lemma_kept_by_trimming(s, at);
    let kept = text::trimmed(s);
    let i = choose|i: int| 0 <= i < kept.len() && #[trigger] kept[i] == s[at];
    assert(!search::is_digit(kept[i]));
}

/// A part with a character in it that is no digit, no dash and no white space names no page.
pub proof fn law_an_unreadable_part_names_no_page(
    part: Seq<char>,
    at: int,
    page_count: usize,
    positions: Seq<usize>,
)
    requires
        forall|i: int| 0 <= i < part.len() ==> #[trigger] part[i] != ',',
        0 <= at < part.len(),
        !('0' <= part[at] <= '9'),
        part[at] != '-',
        !text::is_space(part[at]),
        search::resolves(part, page_count, positions),
    ensures
        positions.len() == 0,
{
    lemma_kept_by_trimming(part, at);
    let token = text::trimmed(part);
    let k = choose|k: int| 0 <= k < token.len() && #[trigger] token[k] == part[at];
    lemma_dash_found(token, 0);
    match search::first_dash(token, 0) {
        Some(dash) => {
            if k < dash {
                assert(token.take(dash)[k] == token[k]);
                lemma_bound_of_nonsense(token.take(dash), k);
            } else {
                assert(token.skip(dash + 1)[k - dash - 1] == token[k]);
                lemma_bound_of_nonsense(token.skip(dash + 1), k - dash - 1);
            }
        },
        None => {
            lemma_bound_of_nonsense(token, k);
        },
    }
    if positions.len() > 0 {
        let p = positions[0];
        assert(positions.contains(p));
        lemma_one_range(part, page_count, p + 1);
    }
}

/// White space on either side of the dash of a range changes nothing.
pub proof fn law_white_space_around_the_dash_changes_nothing(
    from: Seq<char>,
    gap: Seq<char>,
    other: Seq<char>,
    to: Seq<char>,
    page_count: usize,
    spaced: Seq<usize>,
    positions: Seq<usize>,
)
    requires
        is_numeral(from),
        is_numeral(to),
        is_blank(gap),
        is_blank(other),
        search::resolves(from + gap + seq!['-'] + other + to, page_count, spaced),
        search::resolves(from + seq!['-'] + to, page_count, positions),
    ensures
        forall|p: usize| #[trigger] spaced.contains(p) <==> positions.contains(p),
        forall|i: int, j: int|
            0 <= i < j < spaced.len() ==> #[trigger] spaced[i] < #[trigger] spaced[j],
{
    let wide = from + gap + seq!['-'] + other + to;
    let tight = from + seq!['-'] + to;
    let at = (from.len() + gap.len()) as int;
    lemma_digits_are_no_space(from);
    lemma_digits_are_no_space(to);
    assert(wide[0] == from[0] && tight[0] == from[0]);
    assert(wide.last() == to.last() && tight.last() == to.last());
    text_laws::lemma_nothing_to_trim(wide);
    text_laws::lemma_nothing_to_trim(tight);
    assert forall|i: int| 0 <= i < wide.len() implies #[trigger] wide[i] != ',' && (i != at
        ==> wide[i] != '-') by {
        if i < from.len() {
            assert(wide[i] == from[i]);
        } else if i < at {
            assert(wide[i] == gap[i - from.len()]);
            assert(text::is_space(gap[i - from.len()]));
        } else if i == at {
            assert(wide[i] == '-');
        } else if i < at + 1 + other.len() {
            assert(wide[i] == other[i - at - 1]);
            assert(text::is_space(other[i - at - 1]));
        } else {
            assert(wide[i] == to[i - at - 1 - other.len()]);
        }
    }
    assert forall|i: int| 0 <= i < tight.len() implies #[trigger] tight[i] != ',' && (i
        != from.len() ==> tight[i] != '-') by {
        if i < from.len() {
            assert(tight[i] == from[i]);
        } else if i > from.len() {
            assert(tight[i] == to[i - from.len() - 1]);
        }
    }
    lemma_first_dash(wide, 0, at);
    lemma_first_dash(tight, 0, from.len() as int);
    assert(wide.take(at) =~= Seq::<char>::empty() + from + gap);
    assert(wide.skip(at + 1) =~= other + to + Seq::<char>::empty());
    assert(tight.take(from.len() as int) =~= from);
    assert(tight.skip(from.len() as int + 1) =~= to);
    text_laws::law_white_space_around_a_text_is_taken_off(Seq::empty(), from, gap);
    text_laws::law_white_space_around_a_text_is_taken_off(other, to, Seq::empty());
    assert(search::range_of(wide, page_count) == search::range_of(tight, page_count));
    assert forall|p: usize| #[trigger] spaced.contains(p) <==> positions.contains(p) by {
        lemma_one_range(wide, page_count, p + 1);
        lemma_one_range(tight, page_count, p + 1);
    }
}

/// A part with nothing in it but white space names no page.
pub proof fn law_a_blank_part_names_no_page(
    part: Seq<char>,
    page_count: usize,
    positions: Seq<usize>,
)
    requires
        is_blank(part),
        search::resolves(part, page_count, positions),
    ensures
        positions.len() == 0,
{
    assert forall|i: int| 0 <= i < part.len() implies #[trigger] part[i] != ',' by {
        assert(text::is_space(part[i]));
    }
    text_laws::law_white_space_around_a_text_is_taken_off(part, Seq::empty(), Seq::empty());
    assert(part + Seq::empty() + Seq::empty() =~= part);
    text_laws::lemma_nothing_to_trim(Seq::empty());
    lemma_nothing_is_missing();
    if positions.len() > 0 {
        let p = positions[0];
        assert(positions.contains(p));
        lemma_one_range(part, page_count, p + 1);
    }
}

/// A part with two dashes in it names no page.
pub proof fn law_two_dashes_name_no_page(
    part: Seq<char>,
    one: int,
    two: int,
    page_count: usize,
    positions: Seq<usize>,
)
    requires
        forall|i: int| 0 <= i < part.len() ==> #[trigger] part[i] != ',',
        0 <= one < two < part.len(),
        part[one] == '-',
        part[two] == '-',
        search::resolves(part, page_count, positions),
    ensures
        positions.len() == 0,
{
    let (lead, tail) = text_laws::law_trimming_takes_only_white_space_off_the_ends(part);
    let token = text::trimmed(part);
    if one < lead.len() {
        assert(part[one] == lead[one]);
    }
    if two >= lead.len() + token.len() {
        assert(part[two] == tail[two - lead.len() - token.len()]);
    }
    let a = one - lead.len();
    let b = two - lead.len();
    assert(token[a] == '-' && token[b] == '-');
    if search::first_dash(token, 0) is None {
        lemma_dash_not_missed(token, 0, a);
    }
    lemma_dash_found(token, 0);
    lemma_dash_not_missed(token, 0, a);
    let dash = search::first_dash(token, 0)->0;
    let right = token.skip(dash + 1);
    assert(right[b - dash - 1] == '-');
    lemma_bound_of_nonsense(right, b - dash - 1);
    if positions.len() > 0 {
        let p = positions[0];
        assert(positions.contains(p));
        lemma_one_range(part, page_count, p + 1);
    }
}

proof fn lemma_dash_not_missed(s: Seq<char>, from: int, at: int)
    requires
        0 <= from <= at < s.len(),
        s[at] == '-',
    ensures
        search::first_dash(s, from) matches Some(first) && from <= first <= at,
    decreases at - from,
{
    if s[from] != '-' {
        lemma_dash_not_missed(s, from + 1, at);
    }
}

/// Two numbers with only white space between them name no page.
pub proof fn law_two_numbers_without_a_dash_name_no_page(
    one: Seq<char>,
    gap: Seq<char>,
    two: Seq<char>,
    page_count: usize,
    positions: Seq<usize>,
)
    requires
        is_numeral(one),
        is_numeral(two),
        is_blank(gap),
        gap.len() > 0,
        search::resolves(one + gap + two, page_count, positions),
    ensures
        positions.len() == 0,
{
    let part = one + gap + two;
    lemma_digits_are_no_space(one);
    lemma_digits_are_no_space(two);
    assert(part[0] == one[0]);
    assert(part.last() == two.last());
    text_laws::lemma_nothing_to_trim(part);
    assert forall|i: int| 0 <= i < part.len() implies #[trigger] part[i] != ',' && part[i] != '-' by {
        if i < one.len() {
            assert(part[i] == one[i]);
        } else if i < one.len() + gap.len() {
            assert(part[i] == gap[i - one.len()]);
            assert(text::is_space(gap[i - one.len()]));
        } else {
            assert(part[i] == two[i - one.len() - gap.len()]);
        }
    }
    lemma_no_dash(part, 0);
    let at = one.len() as int;
    assert(part[at] == gap[0]);
    assert(text::is_space(gap[0]));
    assert(!search::is_digit(part[at]));
    assert(search::bound_of(part) == Bound::Nonsense);
    if positions.len() > 0 {
        let p = positions[0];
        assert(positions.contains(p));
        lemma_one_range(part, page_count, p + 1);
    }
}

/// A dash with zero behind it names the first page.
pub proof fn law_a_dash_before_zero_names_the_first_page(
    to: Seq<char>,
    page_count: usize,
    positions: Seq<usize>,
)
    requires
        is_numeral(to),
        number_written(to) == 0,
        page_count < usize::MAX,
        search::resolves(seq!['-'] + to, page_count, positions),
    ensures
        names_pages(positions, page_count, 1, 1),
{
    let query = seq!['-'] + to;
    lemma_digits_are_no_space(to);
    assert(query.last() == to.last());
    text_laws::lemma_nothing_to_trim(query);
    assert forall|i: int| 0 <= i < query.len() implies #[trigger] query[i] != ',' by {
        if i > 0 {
            assert(query[i] == to[i - 1]);
        }
    }
    lemma_first_dash(query, 0, 0);
    assert(query.take(0) =~= Seq::empty());
    assert(query.skip(1) =~= to);
    lemma_nothing_is_missing();
    lemma_bound_of_digits(to);
    assert forall|number: int| 1 <= number <= page_count implies (
    #[trigger] search::matches_query(query, page_count, number) <==> 1 <= number <= 1) by {
        lemma_one_range(query, page_count, number);
    }
    lemma_resolves_to_a_range(query, page_count, positions, 1, 1);
}

proof fn lemma_dash_found(s: Seq<char>, from: int)
    requires
        0 <= from <= s.len(),
    ensures
        search::first_dash(s, from) matches Some(at) ==> from <= at < s.len() && s[at] == '-',
    decreases s.len() - from,
{
    if from < s.len() && s[from] != '-' {
        lemma_dash_found(s, from + 1);
    }
}

} // verus!
