//! What holds of numbers written out and of white space taken off.

use vstd::arithmetic::power::*;
use vstd::prelude::*;

use crate::text;

verus! {

/// Whether `s` is made of decimal digits, of which it has at least one.
pub open spec fn is_numeral(s: Seq<char>) -> bool {
    &&& s.len() > 0
    &&& forall|i: int| 0 <= i < s.len() ==> '0' <= #[trigger] s[i] <= '9'
}

/// The number that digits write, each counting for its place.
pub open spec fn number_written(s: Seq<char>) -> int
    decreases s.len(),
{
    if s.len() == 0 {
        0
    } else {
        (s[0] as int - '0' as int) * pow(10, (s.len() - 1) as nat) + number_written(s.skip(1))
    }
}

/// One more digit makes ten times the number, and the digit.
pub proof fn lemma_one_more_digit(s: Seq<char>, c: char)
    ensures
        number_written(s.push(c)) == 10 * number_written(s) + (c as int - '0' as int),
    decreases s.len(),
{
    let longer = s.push(c);
    if s.len() == 0 {
        assert(longer.skip(1) =~= Seq::empty());
        assert(number_written(longer.skip(1)) == 0);
        reveal(pow);
        assert(pow(10, 0) == 1);
    } else {
        let rest = s.skip(1);
        lemma_one_more_digit(rest, c);
        assert(longer.skip(1) =~= rest.push(c));
        let n = (s.len() - 1) as nat;
        reveal(pow);
        assert(pow(10, n + 1) == 10 * pow(10, n));
        let d = s[0] as int - '0' as int;
        assert(longer[0] == s[0]);
        assert((longer.len() - 1) as nat == n + 1);
        assert(d * (10 * pow(10, n)) == 10 * (d * pow(10, n))) by (nonlinear_arith);
    }
}

/// A number in decimal is made of digits that write just that number, without a zero in front
/// unless it is zero itself.
pub proof fn law_a_number_in_decimal_writes_itself(n: nat)
    ensures
        is_numeral(text::decimal_text(n)),
        number_written(text::decimal_text(n)) == n,
        text::decimal_text(n)[0] == '0' ==> n == 0 && text::decimal_text(n).len() == 1,
    decreases n,
{
    if n < 10 {
        assert(text::decimal_text(n).skip(1) =~= Seq::empty());
        assert(number_written(text::decimal_text(n).skip(1)) == 0);
        reveal(pow);
        assert(pow(10, 0) == 1);
        let d = text::decimal_text(n)[0] as int - '0' as int;
        assert(d * 1 == d);
    } else {
        law_a_number_in_decimal_writes_itself(n / 10);
        let front = text::decimal_text(n / 10);
        let c = text::digit_char(n % 10);
        lemma_one_more_digit(front, c);
        assert(front.push(c)[0] == front[0]);
        assert forall|i: int| 0 <= i < front.push(c).len() implies '0' <= #[trigger] front.push(
            c,
        )[i] <= '9' by {
            if i < front.len() {
                assert(front.push(c)[i] == front[i]);
            }
        }
    }
}

/// A number with a sign is its size in decimal, with a minus in front where it is below zero.
pub proof fn law_a_signed_number_writes_itself(n: int)
    ensures
        ({
            let written = text::signed_text(n);
            let digits = if n < 0 {
                written.skip(1)
            } else {
                written
            };
            &&& n < 0 ==> written[0] == '-'
            &&& is_numeral(digits)
            &&& number_written(digits) == if n < 0 {
                -n
            } else {
                n
            }
        }),
{
    let size = if n < 0 {
        (-n) as nat
    } else {
        n as nat
    };
    law_a_number_in_decimal_writes_itself(size);
    if n < 0 {
        assert(text::signed_text(n).skip(1) =~= text::decimal_text(size));
    }
}

/// Whether `s` is white space and nothing else.
pub open spec fn is_blank(s: Seq<char>) -> bool {
    forall|i: int| 0 <= i < s.len() ==> text::is_space(#[trigger] s[i])
}

/// Among the characters of ASCII, white space is the tab, the line breaks and the blank.
pub proof fn law_what_is_white_space(c: char)
    requires
        c as int <= 127,
    ensures
        text::is_space(c) <==> c == ' ' || 9 <= c as int <= 13,
{
}

/// Beyond ASCII, white space is the next line, the blank that does not break, the blank of Ogham,
/// the blanks of set widths, the separators of lines and paragraphs, the narrow blank that does
/// not break, the blank of formulas and the ideographic one.
pub proof fn law_what_is_white_space_beyond_ascii(c: char)
    requires
        c as int > 127,
    ensures
        text::is_space(c) <==> c == '\u{85}' || c == '\u{A0}' || c == '\u{1680}' || '\u{2000}' <= c
            <= '\u{200A}' || c == '\u{2028}' || c == '\u{2029}' || c == '\u{202F}' || c
            == '\u{205F}' || c == '\u{3000}',
{
}

proof fn lemma_start_trimmed(s: Seq<char>) -> (lead: Seq<char>)
    ensures
        s == lead + text::trimmed_start(s),
        is_blank(lead),
        text::trimmed_start(s).len() > 0 ==> !text::is_space(text::trimmed_start(s)[0]),
    decreases s.len(),
{
    if s.len() > 0 && text::is_space(s.first()) {
        let rest = s.drop_first();
        let lead = lemma_start_trimmed(rest);
        let longer = seq![s.first()] + lead;
        assert(s =~= longer + text::trimmed_start(rest)) by {
            assert(s =~= seq![s.first()] + rest);
        }
        assert forall|i: int| 0 <= i < longer.len() implies text::is_space(
            #[trigger] longer[i],
        ) by {
            if i > 0 {
                assert(longer[i] == lead[i - 1]);
            }
        }
        longer
    } else {
        assert(s =~= Seq::<char>::empty() + s);
        Seq::empty()
    }
}

proof fn lemma_end_trimmed(s: Seq<char>) -> (tail: Seq<char>)
    ensures
        s == text::trimmed_end(s) + tail,
        is_blank(tail),
        text::trimmed_end(s).len() > 0 ==> !text::is_space(text::trimmed_end(s).last()),
    decreases s.len(),
{
    if s.len() > 0 && text::is_space(s.last()) {
        let rest = s.drop_last();
        let tail = lemma_end_trimmed(rest);
        let longer = tail.push(s.last());
        assert(s =~= text::trimmed_end(rest) + longer) by {
            assert(s =~= rest.push(s.last()));
        }
        assert forall|i: int| 0 <= i < longer.len() implies text::is_space(
            #[trigger] longer[i],
        ) by {
            if i < tail.len() {
                assert(longer[i] == tail[i]);
            }
        }
        longer
    } else {
        assert(s =~= s + Seq::<char>::empty());
        Seq::empty()
    }
}

/// Taking white space off a text takes white space off its two ends and nothing else, and
/// leaves none at either.
pub proof fn law_trimming_takes_only_white_space_off_the_ends(s: Seq<char>) -> (ends: (
    Seq<char>,
    Seq<char>,
))
    ensures
        s == ends.0 + text::trimmed(s) + ends.1,
        is_blank(ends.0),
        is_blank(ends.1),
        text::trimmed(s).len() > 0 ==> !text::is_space(text::trimmed(s)[0]) && !text::is_space(
            text::trimmed(s).last(),
        ),
{
    let lead = lemma_start_trimmed(s);
    let middle = text::trimmed_start(s);
    let tail = lemma_end_trimmed(middle);
    assert(s =~= lead + text::trimmed(s) + tail);
    if text::trimmed(s).len() > 0 {
        assert(middle[0] == text::trimmed(s)[0]);
    }
    (lead, tail)
}

/// White space put around a text is taken off again.
pub proof fn law_white_space_around_a_text_is_taken_off(
    lead: Seq<char>,
    s: Seq<char>,
    tail: Seq<char>,
)
    requires
        is_blank(lead),
        is_blank(tail),
    ensures
        text::trimmed(lead + s + tail) == text::trimmed(s),
    decreases lead.len() + tail.len(),
{
    let whole = lead + s + tail;
    if lead.len() > 0 {
        assert(whole.first() == lead[0]);
        assert(text::is_space(whole.first()));
        let less = lead.drop_first();
        assert forall|i: int| 0 <= i < less.len() implies text::is_space(#[trigger] less[i]) by {
            assert(less[i] == lead[i + 1]);
        }
        assert(whole.drop_first() =~= less + s + tail);
        law_white_space_around_a_text_is_taken_off(less, s, tail);
    } else if tail.len() > 0 {
        let less = tail.drop_last();
        assert forall|i: int| 0 <= i < less.len() implies text::is_space(#[trigger] less[i]) by {
            assert(less[i] == tail[i]);
        }
        law_white_space_around_a_text_is_taken_off(lead, s, less);
        let shorter = lead + s + less;
        assert(whole =~= shorter.push(tail.last()));
        assert(text::is_space(tail[tail.len() - 1]));
        lemma_one_more_space(shorter, tail.last());
    } else {
        assert(whole =~= s);
    }
}

proof fn lemma_one_more_space(s: Seq<char>, c: char)
    requires
        text::is_space(c),
    ensures
        text::trimmed(s.push(c)) == text::trimmed(s),
    decreases s.len(),
{
    let longer = s.push(c);
    if s.len() == 0 {
        assert(longer.drop_first() =~= s);
    } else if text::is_space(s.first()) {
        assert(longer.drop_first() =~= s.drop_first().push(c));
        lemma_one_more_space(s.drop_first(), c);
    } else {
        assert(longer.first() == s.first());
        assert(longer.drop_last() =~= s);
    }
}

/// A text with no white space at either end is left as it is.
pub proof fn lemma_nothing_to_trim(s: Seq<char>)
    requires
        s.len() > 0 ==> !text::is_space(s[0]) && !text::is_space(s.last()),
    ensures
        text::trimmed(s) == s,
{
}

} // verus!
