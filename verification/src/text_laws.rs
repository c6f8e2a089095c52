//! What the text primitives promise, told by positions and characters.

use crate::text::{
    all_digits, decimal, digit, digits_value, drop_spaces, first_at, int_text, is_space,
    lemma_decimal_value, parse_int, parse_nat, second_word, skip_spaces, trimmed, word,
};
use vstd::prelude::*;

verus! {

/// White space by its code points, which are those with the Unicode property
/// White_Space.
pub proof fn law_white_space_by_code_point(c: char)
    ensures
        is_space(c) <==> {
            let u = c as int;
            u == 9 || u == 10 || u == 11 || u == 12 || u == 13 || u == 32 || u == 0x85 || u == 0xa0
                || u == 0x1680 || (0x2000 <= u && u <= 0x200a) || u == 0x2028 || u == 0x2029 || u
                == 0x202f || u == 0x205f || u == 0x3000
        },
{
}

/// Whether a text is white space throughout.
pub open spec fn blank(s: Seq<char>) -> bool {
    forall|i: int| 0 <= i < s.len() ==> is_space(#[trigger] s[i])
}

/// Whether a text holds no white space.
pub open spec fn solid(s: Seq<char>) -> bool {
    forall|i: int| 0 <= i < s.len() ==> !is_space(#[trigger] s[i])
}

proof fn lemma_skip_blank(a: Seq<char>, b: Seq<char>)
    requires
        blank(a),
        b.len() > 0 ==> !is_space(b[0]),
    ensures
        skip_spaces(a + b) == b,
    decreases a.len(),
{
    let s = a + b;
    if a.len() > 0 {
        assert(s[0] == a[0]);
        assert(s.skip(1) == a.skip(1) + b);
        assert forall|i: int| 0 <= i < a.skip(1).len() implies is_space(#[trigger] a.skip(1)[i]) by {
            assert(a.skip(1)[i] == a[i + 1]);
        }
        lemma_skip_blank(a.skip(1), b);
    } else {
        assert(s == b);
    }
}

proof fn lemma_drop_blank(a: Seq<char>, b: Seq<char>)
    requires
        blank(b),
        a.len() > 0 ==> !is_space(a.last()),
    ensures
        drop_spaces(a + b) == a,
    decreases b.len(),
{
    let s = a + b;
    if b.len() > 0 {
        assert(s.last() == b[b.len() - 1]);
        assert(s.drop_last() == a + b.drop_last());
        assert forall|i: int| 0 <= i < b.drop_last().len() implies is_space(
            #[trigger] b.drop_last()[i],
        ) by {
            assert(b.drop_last()[i] == b[i]);
        }
        lemma_drop_blank(a, b.drop_last());
    } else {
        assert(s == a);
    }
}

/// Trimming takes off the white space at both ends and nothing else: whatever
/// white space stands around a text that has none at its ends, the text is what
/// is left; and of white space alone nothing is left.
pub proof fn law_trimming_takes_off_the_ends(before: Seq<char>, s: Seq<char>, after: Seq<char>)
    requires
        blank(before),
        blank(after),
        s.len() > 0 ==> !is_space(s[0]) && !is_space(s.last()),
    ensures
        trimmed(before + s + after) == s,
{
    let rest = s + after;
    assert(before + s + after == before + rest);
    if s.len() > 0 {
        assert(rest[0] == s[0]);
        lemma_skip_blank(before, rest);
        lemma_drop_blank(s, after);
    } else {
        assert forall|i: int| 0 <= i < (before + rest).len() implies is_space(
            #[trigger] (before + rest)[i],
        ) by {
            if i < before.len() {
                assert((before + rest)[i] == before[i]);
            } else {
                assert((before + rest)[i] == after[i - before.len()]);
            }
        }
        lemma_skip_blank(before + rest, Seq::<char>::empty());
        assert(before + rest + Seq::<char>::empty() == before + rest);
        assert(drop_spaces(Seq::<char>::empty()) == Seq::<char>::empty());
        assert(s == Seq::<char>::empty());
    }
}

proof fn lemma_word_of(a: Seq<char>, b: Seq<char>)
    requires
        solid(a),
        b.len() > 0 ==> is_space(b[0]),
    ensures
        word(a + b) == a,
    decreases a.len(),
{
    let s = a + b;
    if a.len() > 0 {
        assert(s[0] == a[0]);
        assert(s.skip(1) == a.skip(1) + b);
        assert forall|i: int| 0 <= i < a.skip(1).len() implies !is_space(
            #[trigger] a.skip(1)[i],
        ) by {
            assert(a.skip(1)[i] == a[i + 1]);
        }
        lemma_word_of(a.skip(1), b);
        assert(seq![a[0]] + a.skip(1) == a);
    } else {
        assert(s == b);
        assert(a == Seq::<char>::empty());
    }
}

/// The second word of a line is what stands between the white space behind the
/// first word and the next white space or the end, whatever the words are; a
/// line of fewer words has none.
pub proof fn law_second_words(
    before: Seq<char>,
    first: Seq<char>,
    gap: Seq<char>,
    second: Seq<char>,
    rest: Seq<char>,
)
    requires
        blank(before),
        solid(first),
        first.len() > 0,
        blank(gap),
        gap.len() > 0,
        solid(second),
        second.len() > 0,
        rest.len() > 0 ==> is_space(rest[0]),
    ensures
        second_word(before + first + gap + second + rest) == Some(second),
        second_word(before + first + gap) is None,
        second_word(before + first) is None,
        second_word(before) is None,
{
    let empty = Seq::<char>::empty();
    let s = before + first + gap + second + rest;
    let tail = second + rest;
    let line = first + (gap + tail);
    assert(s == before + line);
    assert(line[0] == first[0]);
    lemma_skip_blank(before, line);
    assert((gap + tail)[0] == gap[0]);
    lemma_word_of(first, gap + tail);
    assert(line.skip(first.len() as int) == gap + tail);
    assert(tail[0] == second[0]);
    lemma_skip_blank(gap, tail);
    lemma_word_of(second, rest);

    let one = first + gap;
    assert(before + first + gap == before + one);
    assert(one[0] == first[0]);
    lemma_skip_blank(before, one);
    lemma_word_of(first, gap);
    assert(one.skip(first.len() as int) == gap);
    lemma_skip_blank(gap, empty);
    assert(gap + empty == gap);

    lemma_skip_blank(before, first);
    lemma_word_of(first, empty);
    assert(first + empty == first);
    assert(first.skip(first.len() as int) == empty);
    lemma_skip_blank(empty, empty);
    assert(empty + empty == empty);

    lemma_skip_blank(before, empty);
    assert(before + empty == before);
    lemma_word_of(empty, empty);
    assert(empty.skip(0) == empty);
}

/// A text without the plus sign that it starts with, if it does.
pub open spec fn behind_plus(s: Seq<char>) -> Seq<char> {
    if s.len() > 0 && s[0] == '+' {
        s.skip(1)
    } else {
        s
    }
}

/// A text is a natural number up to a bound exactly where it is one decimal
/// digit or more, behind a plus sign or not, and what they write is no greater.
pub proof fn law_naturals_by_their_digits(s: Seq<char>, max: nat)
    ensures
        parse_nat(s, max) is Some <==> {
            &&& behind_plus(s).len() > 0
            &&& forall|i: int|
                0 <= i < behind_plus(s).len() ==> '0' <= #[trigger] behind_plus(s)[i] <= '9'
            &&& digits_value(behind_plus(s)) <= max
        },
        parse_nat(s, max) matches Some(n) ==> n == digits_value(behind_plus(s)),
{
}

/// One more digit makes ten times as much and the digit.
pub proof fn law_digits_by_weight(s: Seq<char>, c: char)
    requires
        '0' <= c <= '9',
    ensures
        digits_value(s.push(c)) == 10 * digits_value(s) + (c as int - '0' as int),
        digits_value(seq![]) == 0,
{
    assert(s.push(c).drop_last() == s);
}

/// A text is an integer exactly where it is a natural number that 64 bits hold,
/// or a minus sign and one digit or more that write no more than the greatest
/// negative one.
pub proof fn law_integers_by_their_digits(s: Seq<char>)
    ensures
        parse_int(s) matches Some(v) ==> -0x8000_0000_0000_0000 <= v <= 0xffff_ffff_ffff_ffff,
        s.len() > 0 && s[0] == '-' ==> (parse_int(s) is Some <==> s.len() > 1 && all_digits(
            s.skip(1),
        ) && digits_value(s.skip(1)) <= 0x8000_0000_0000_0000),
        s.len() > 0 && s[0] == '-' && parse_int(s) is Some ==> parse_int(s)->0 == -digits_value(
            s.skip(1),
        ),
        !(s.len() > 0 && s[0] == '-') ==> (parse_int(s) is Some <==> parse_nat(
            s,
            0xffff_ffff_ffff_ffff,
        ) is Some),
        !(s.len() > 0 && s[0] == '-') && parse_int(s) is Some ==> parse_int(s)->0 == parse_nat(
            s,
            0xffff_ffff_ffff_ffff,
        )->0,
{
}

/// The first place of a character: it stands there, and nowhere before; and it
/// is the end where the character does not occur.
pub proof fn law_first_places(s: Seq<char>, c: char)
    ensures
        0 <= first_at(s, c) <= s.len(),
        first_at(s, c) < s.len() ==> s[first_at(s, c)] == c,
        forall|i: int| 0 <= i < first_at(s, c) ==> #[trigger] s[i] != c,
    decreases s.len(),
{
    if s.len() > 0 && s[0] != c {
        let t = s.skip(1);
        law_first_places(t, c);
        assert forall|i: int| 0 <= i < first_at(s, c) implies #[trigger] s[i] != c by {
            if i > 0 {
                assert(t[i - 1] == s[i]);
            }
        }
    }
}

/// A decimal numeral has no leading zero, and begins with a minus sign exactly
/// where the number is negative.
pub proof fn law_numerals_have_no_leading_zeros(n: nat, i: int)
    ensures
        decimal(n).len() > 1 ==> decimal(n)[0] != '0',
        n > 0 ==> decimal(n)[0] != '0',
        i < 0 <==> int_text(i)[0] == '-',
        i < 0 ==> int_text(i).skip(1) == decimal((-i) as nat),
        i >= 0 ==> int_text(i) == decimal(i as nat),
    decreases n,
{
    lemma_decimal_value(n);
    lemma_first_digit(n);
    if i < 0 {
        assert(int_text(i).skip(1) == decimal((-i) as nat));
    } else {
        lemma_decimal_value(i as nat);
        assert('0' <= decimal(i as nat)[0] <= '9');
    }
}

proof fn lemma_first_digit(n: nat)
    ensures
        decimal(n).len() > 0,
        decimal(n).len() > 1 ==> n > 0,
        n > 0 ==> decimal(n)[0] != '0',
    decreases n,
{
    if n >= 10 {
        lemma_first_digit(n / 10);
        assert(decimal(n)[0] == decimal(n / 10)[0]);
    } else {
        assert(decimal(n) == seq![digit(n as int)]);
        lemma_digit_of(n as int);
    }
}

proof fn lemma_digit_of(d: int)
    requires
        0 <= d < 10,
    ensures
        digit(d) == '0' ==> d == 0,
{
}

} // verus!
