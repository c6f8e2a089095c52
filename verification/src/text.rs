//! Text as sequences of characters: the numerals, splits and comparisons the
//! rest of the crate is stated in, and the few standard string operations
//! that are taken on trust.

use vstd::prelude::*;
use vstd::string::StringExecFns;
use vstd::utf8::{
    decode_utf8, encode_utf8, encode_utf8_decode_utf8, encode_utf8_valid_utf8, valid_utf8,
};

verus! {

/// `String::push` appends one character at the end.
pub assume_specification[ String::push ](s: &mut String, ch: char)
    ensures
        final(s)@ == old(s)@.push(ch),
;

/// The text that `str::to_uppercase` gives for a text.
pub uninterp spec fn uppercase_text(s: Seq<char>) -> Seq<char>;

/// Calls `str::to_uppercase`, the Unicode uppercase mapping. The result is
/// named and nothing more is said of it: the mapping is a table.
#[verifier::external_body]
pub(crate) fn to_uppercase(s: &str) -> (r: String)
    ensures
        r@ == uppercase_text(s@),
{
    s.to_uppercase()
}

/// The text that `String::from_utf8_lossy` gives for a byte string.
pub uninterp spec fn lossy_text(bytes: Seq<u8>) -> Seq<char>;

/// Calls `String::from_utf8_lossy`. Bytes that are valid UTF-8 come back as
/// the text they encode; what stands in the place of each malformed stretch
/// is named only.
#[verifier::external_body]
fn from_utf8_lossy(bytes: &[u8]) -> (r: String)
    ensures
        r@ == lossy_text(bytes@),
        valid_utf8(bytes@) ==> r@ == decode_utf8(bytes@),
{
    String::from_utf8_lossy(bytes).into_owned()
}

/// The text of a byte string: what it encodes where it is valid UTF-8, and what
/// lossy decoding gives where it is not.
pub open spec fn bytes_text(bytes: Seq<u8>) -> Seq<char> {
    if valid_utf8(bytes) {
        decode_utf8(bytes)
    } else {
        lossy_text(bytes)
    }
}

/// The text of a byte string.
pub(crate) fn text_from(bytes: &[u8]) -> (r: String)
    ensures
        r@ == bytes_text(bytes@),
{
    from_utf8_lossy(bytes)
}

/// The text of a text's own bytes is the text.
pub proof fn law_utf8_text_reads_back(s: Seq<char>)
    ensures
        bytes_text(encode_utf8(s)) == s,
{
    encode_utf8_valid_utf8(s);
    encode_utf8_decode_utf8(s);
}

/// The text that the `Debug` formatting of a string gives: the string in
/// quotation marks, with its control and quoting characters escaped.
pub uninterp spec fn debug_text(s: Seq<char>) -> Seq<char>;

/// Formats a string through `std::fmt::Debug`. The result is named only: which
/// characters are escaped is a Unicode table.
#[verifier::external_body]
pub(crate) fn debug_format(s: &str) -> (r: String)
    ensures
        r@ == debug_text(s@),
{
    format!("{s:?}")
}

/// The characters of a string.
pub(crate) fn chars_of(s: &str) -> (r: Vec<char>)
    ensures
        r@ == s@,
{
    let mut r: Vec<char> = Vec::new();
    for c in it: s.chars()
        invariant
            it.seq() == s@,
            r@ == s@.take(it.index() as int),
    {
        r.push(c);
    }
    r
}

/// The string made of a range of characters.
pub(crate) fn text_of(chars: &[char], from: usize, to: usize) -> (r: String)
    requires
        from <= to <= chars@.len(),
    ensures
        r@ == chars@.subrange(from as int, to as int),
{
    let mut r = String::new();
    let mut i: usize = from;
    while i < to
        invariant
            from <= i <= to <= chars@.len(),
            r@ == chars@.subrange(from as int, i as int),
        decreases to - i,
    {
        r.push(chars[i]);
        i += 1;
        assert(chars@.subrange(from as int, i as int) == chars@.subrange(
            from as int,
            i - 1,
        ).push(chars@[i - 1]));
    }
    r
}

/// Whether two strings are the same text.
pub(crate) fn same_text(a: &str, b: &str) -> (r: bool)
    ensures
        r == (a@ == b@),
{
    proof {
        encode_utf8_decode_utf8(a@);
        encode_utf8_decode_utf8(b@);
    }
    same_bytes(a.as_bytes(), b.as_bytes())
}

/// Whether two byte strings are the same.
pub(crate) fn same_bytes(a: &[u8], b: &[u8]) -> (r: bool)
    ensures
        r == (a@ == b@),
{
    if a.len() != b.len() {
        return false;
    }
    let mut i: usize = 0;
    while i < a.len()
        invariant
            a@.len() == b@.len(),
            i <= a@.len(),
            forall|k: int| 0 <= k < i ==> a@[k] == b@[k],
        decreases a@.len() - i,
    {
        if a[i] != b[i] {
            return false;
        }
        i += 1;
    }
    assert(a@ == b@);
    true
}

// ---------------------------------------------------------------------------
// Numerals
// ---------------------------------------------------------------------------
/// The digit character of `d` in a base up to sixteen, lowercase.
pub open spec fn digit(d: int) -> char
    recommends
        0 <= d < 16,
{
    if d < 10 {
        (48 + d) as char
    } else {
        (87 + d) as char
    }
}

/// The digit character of a value below sixteen.
pub(crate) fn digit_of(d: u8) -> (c: char)
    requires
        d < 16,
    ensures
        c == digit(d as int),
{
    if d < 10 {
        (48 + d) as char
    } else {
        (87 + d) as char
    }
}

/// The numeral of `n` in a base, with no leading zeros.
pub open spec fn numeral(n: nat, base: nat) -> Seq<char>
    recommends
        2 <= base <= 16,
    decreases n,
{
    if base < 2 || n < base {
        seq![digit(n as int)]
    } else {
        proof {
            assert(n / base < n) by (nonlinear_arith)
                requires
                    n >= base,
                    base >= 2,
            ;
        }
        numeral(n / base, base).push(digit((n % base) as int))
    }
}

/// The decimal numeral of a natural number.
pub open spec fn decimal(n: nat) -> Seq<char> {
    numeral(n, 10)
}

/// The decimal numeral of an integer, with a minus sign where it is negative.
pub open spec fn int_text(i: int) -> Seq<char> {
    if i < 0 {
        seq!['-'] + decimal((-i) as nat)
    } else {
        decimal(i as nat)
    }
}

/// The lowest `width` hexadecimal digits of `n`, with leading zeros.
pub open spec fn hex_fixed(n: nat, width: nat) -> Seq<char>
    decreases width,
{
    if width == 0 {
        seq![]
    } else {
        hex_fixed(n / 16, (width - 1) as nat).push(digit((n % 16) as int))
    }
}

/// Appends a numeral.
pub(crate) fn push_numeral(out: &mut String, n: u128, base: u128)
    requires
        2 <= base <= 16,
    ensures
        final(out)@ == old(out)@ + numeral(n as nat, base as nat),
    decreases n,
{
    if n >= base {
        assert(n / base < n) by (nonlinear_arith)
            requires
                n >= base,
                base >= 2,
        ;
        push_numeral(out, n / base, base);
    }
    assert(n % base < base) by (nonlinear_arith)
        requires
            base >= 2,
    ;
    assert(n < base ==> n % base == n) by (nonlinear_arith)
        requires
            base >= 2,
    ;
    let d: u8 = (n % base) as u8;
    out.push(digit_of(d));
    assert(out@ == old(out)@ + numeral(n as nat, base as nat));
}

/// Appends a decimal numeral.
pub(crate) fn push_decimal(out: &mut String, n: u128)
    ensures
        final(out)@ == old(out)@ + decimal(n as nat),
{
    push_numeral(out, n, 10);
}

/// Appends the decimal numeral of an integer.
pub(crate) fn push_int(out: &mut String, i: i128)
    ensures
        final(out)@ == old(out)@ + int_text(i as int),
{
    if i < 0 {
        out.push('-');
        if i == i128::MIN {
            push_decimal(out, 0x8000_0000_0000_0000_0000_0000_0000_0000);
        } else {
            push_decimal(out, (-i) as u128);
        }
        assert(out@ == old(out)@ + (seq!['-'] + decimal((-i) as nat)));
    } else {
        push_decimal(out, i as u128);
    }
}

/// Appends the lowest `width` hexadecimal digits of a number.
pub(crate) fn push_hex_fixed(out: &mut String, n: u64, width: usize)
    ensures
        final(out)@ == old(out)@ + hex_fixed(n as nat, width as nat),
    decreases width,
{
    if width > 0 {
        push_hex_fixed(out, n / 16, width - 1);
        out.push(digit_of((n % 16) as u8));
    }
    assert(out@ == old(out)@ + hex_fixed(n as nat, width as nat));
}

/// Whether a text is a run of decimal digits.
pub open spec fn all_digits(s: Seq<char>) -> bool {
    forall|i: int| 0 <= i < s.len() ==> '0' <= #[trigger] s[i] <= '9'
}

/// The number that a run of decimal digits writes.
pub open spec fn digits_value(s: Seq<char>) -> nat
    decreases s.len(),
{
    if s.len() == 0 {
        0
    } else {
        digits_value(s.drop_last()) * 10 + (s.last() as nat - 48) as nat
    }
}

/// The natural number that a text writes: one digit or more, with or without a
/// plus sign, no greater than `max`.
pub open spec fn parse_nat(s: Seq<char>, max: nat) -> Option<nat> {
    let d = if s.len() > 0 && s[0] == '+' {
        s.skip(1)
    } else {
        s
    };
    if d.len() > 0 && all_digits(d) && digits_value(d) <= max {
        Some(digits_value(d))
    } else {
        None
    }
}

/// The integer that a text writes: one digit or more, with or without a sign,
/// no less than the least signed and no greater than the greatest unsigned
/// 64-bit integer.
pub open spec fn parse_int(s: Seq<char>) -> Option<int> {
    if s.len() > 0 && s[0] == '-' {
        let d = s.skip(1);
        if d.len() > 0 && all_digits(d) && digits_value(d) <= 0x8000_0000_0000_0000 {
            Some(-(digits_value(d) as int))
        } else {
            None
        }
    } else {
        match parse_nat(s, u64::MAX as nat) {
            Some(n) => Some(n as int),
            None => None,
        }
    }
}

/// The digits of a decimal numeral are decimal, and their value is the number.
pub(crate) proof fn lemma_decimal_value(n: nat)
    ensures
        decimal(n).len() > 0,
        all_digits(decimal(n)),
        digits_value(decimal(n)) == n,
    decreases n,
{
    reveal_with_fuel(digits_value, 2);
    if n >= 10 {
        let head = decimal(n / 10);
        lemma_decimal_value(n / 10);
        lemma_digit_decimal(n % 10);
        assert(decimal(n) == head.push(digit((n % 10) as int)));
        assert(decimal(n).drop_last() == head);
        assert forall|i: int| 0 <= i < decimal(n).len() implies '0' <= #[trigger] decimal(n)[i]
            <= '9' by {
            if i < head.len() {
                assert(decimal(n)[i] == head[i]);
            }
        }
    } else {
        lemma_digit_decimal(n);
        assert(decimal(n) == seq![digit(n as int)]);
        assert(decimal(n).drop_last() == Seq::<char>::empty());
    }
}

proof fn lemma_digit_decimal(d: nat)
    requires
        d < 10,
    ensures
        '0' <= digit(d as int) <= '9',
        digit(d as int) as nat == 48 + d,
{
}

/// A numeral reads back as the number it was written for.
pub proof fn law_numerals_read_back(i: int)
    requires
        i64::MIN <= i <= u64::MAX,
    ensures
        parse_int(int_text(i)) == Some(i),
{
    if i < 0 {
        lemma_decimal_value((-i) as nat);
        assert(int_text(i).skip(1) == decimal((-i) as nat));
    } else {
        lemma_decimal_value(i as nat);
        assert('0' <= decimal(i as nat)[0] <= '9');
    }
}

/// An unsigned numeral reads back as the number it was written for, where the
/// number is in range.
pub proof fn law_decimals_read_back(n: nat, max: nat)
    ensures
        parse_nat(decimal(n), max) == if n <= max {
            Some(n)
        } else {
            None
        },
{
    lemma_decimal_value(n);
    assert('0' <= decimal(n)[0] <= '9');
}

proof fn lemma_digits_value_grows(s: Seq<char>, i: int)
    requires
        0 <= i <= s.len(),
        all_digits(s),
    ensures
        digits_value(s.take(i)) <= digits_value(s),
    decreases s.len() - i,
{
    if i < s.len() {
        lemma_digits_value_grows(s, i + 1);
        assert(s.take(i + 1).drop_last() == s.take(i));
    } else {
        assert(s.take(i) == s);
    }
}

/// The value of the digits of a text from an index on, up to a bound.
pub(crate) fn digits_from(s: &[char], from: usize, max: u64) -> (r: Option<u64>)
    requires
        from <= s@.len(),
    ensures
        ({
            let d = s@.skip(from as int);
            if d.len() > 0 && all_digits(d) && digits_value(d) <= max {
                r == Some(digits_value(d) as u64)
            } else {
                r is None
            }
        }),
{
    let ghost d = s@.skip(from as int);
    if from == s.len() {
        return None;
    }
    let mut i: usize = from;
    let mut v: u64 = 0;
    while i < s.len()
        invariant
            from <= i <= s@.len(),
            d == s@.skip(from as int),
            all_digits(d.take(i - from)),
            v == digits_value(d.take(i - from)),
            v <= max,
        decreases s@.len() - i,
    {
        let c = s[i];
        assert(d[i - from] == c);
        if c < '0' || c > '9' {
            return None;
        }
        let ghost t = d.take(i - from + 1);
        assert(t.drop_last() == d.take(i - from));
        assert(t.last() == c);
        assert(all_digits(t)) by {
            assert forall|k: int| 0 <= k < t.len() implies '0' <= #[trigger] t[k] <= '9' by {
                if k < i - from {
                    assert(t[k] == d.take(i - from)[k]);
                }
            }
        }
        let w: u128 = (v as u128) * 10 + (c as u128 - 48);
        assert(w == digits_value(t));
        if w > max as u128 {
            proof {
                if all_digits(d) {
                    lemma_digits_value_grows(d, i - from + 1);
                }
            }
            return None;
        }
        v = w as u64;
        i += 1;
    }
    assert(d.take(i - from) == d);
    Some(v)
}

/// The unsigned 64-bit number that a text writes.
pub(crate) fn parse_u64(s: &[char]) -> (r: Option<u64>)
    ensures
        match parse_nat(s@, u64::MAX as nat) {
            Some(n) => r == Some(n as u64),
            None => r is None,
        },
{
    if s.len() > 0 && s[0] == '+' {
        digits_from(s, 1, u64::MAX)
    } else {
        assert(s@.skip(0) == s@);
        digits_from(s, 0, u64::MAX)
    }
}

/// The integer of 64 bits, signed or unsigned, that a text writes.
pub(crate) fn parse_integer(s: &[char]) -> (r: Option<i128>)
    ensures
        match parse_int(s@) {
            Some(n) => r == Some(n as i128) && i64::MIN <= n <= u64::MAX,
            None => r is None,
        },
{
    if s.len() > 0 && s[0] == '-' {
        match digits_from(s, 1, 0x8000_0000_0000_0000) {
            Some(v) => Some(-(v as i128)),
            None => None,
        }
    } else {
        match parse_u64(s) {
            Some(v) => Some(v as i128),
            None => None,
        }
    }
}

// ---------------------------------------------------------------------------
// White space
// ---------------------------------------------------------------------------
/// The characters with the Unicode property White_Space.
pub open spec fn is_space(c: char) -> bool {
    ||| 0x09 <= c as u32 <= 0x0d
    ||| c as u32 == 0x20
    ||| c as u32 == 0x85
    ||| c as u32 == 0xa0
    ||| c as u32 == 0x1680
    ||| 0x2000 <= c as u32 <= 0x200a
    ||| c as u32 == 0x2028
    ||| c as u32 == 0x2029
    ||| c as u32 == 0x202f
    ||| c as u32 == 0x205f
    ||| c as u32 == 0x3000
}

/// Whether a character is white space.
pub fn is_whitespace(c: char) -> (r: bool)
    ensures
        r == is_space(c),
{
    let u: u32 = c as u32;
    (0x09 <= u && u <= 0x0d) || u == 0x20 || u == 0x85 || u == 0xa0 || u == 0x1680 || (0x2000 <= u
        && u <= 0x200a) || u == 0x2028 || u == 0x2029 || u == 0x202f || u == 0x205f || u == 0x3000
}

/// A text without its leading white space.
pub open spec fn skip_spaces(s: Seq<char>) -> Seq<char>
    decreases s.len(),
{
    if s.len() > 0 && is_space(s[0]) {
        skip_spaces(s.skip(1))
    } else {
        s
    }
}

/// A text without its trailing white space.
pub open spec fn drop_spaces(s: Seq<char>) -> Seq<char>
    decreases s.len(),
{
    if s.len() > 0 && is_space(s.last()) {
        drop_spaces(s.drop_last())
    } else {
        s
    }
}

/// A text without its leading and trailing white space.
pub open spec fn trimmed(s: Seq<char>) -> Seq<char> {
    drop_spaces(skip_spaces(s))
}

/// The first word of a text that starts with one: what stands before the
/// first white space.
pub open spec fn word(s: Seq<char>) -> Seq<char>
    decreases s.len(),
{
    if s.len() > 0 && !is_space(s[0]) {
        seq![s[0]] + word(s.skip(1))
    } else {
        seq![]
    }
}

/// The word that follows the first word of a text, if there is one.
pub open spec fn second_word(s: Seq<char>) -> Option<Seq<char>> {
    let first = skip_spaces(s);
    let rest = skip_spaces(first.skip(word(first).len() as int));
    if rest.len() == 0 {
        None
    } else {
        Some(word(rest))
    }
}

/// The index at which the white space from `from` on ends.
pub(crate) fn spaces_end(s: &[char], from: usize) -> (i: usize)
    requires
        from <= s@.len(),
    ensures
        from <= i <= s@.len(),
        s@.skip(i as int) == skip_spaces(s@.skip(from as int)),
        i < s@.len() ==> !is_space(s@[i as int]),
{
    let mut i: usize = from;
    while i < s.len() && is_whitespace(s[i])
        invariant
            from <= i <= s@.len(),
            skip_spaces(s@.skip(i as int)) == skip_spaces(s@.skip(from as int)),
        decreases s@.len() - i,
    {
        assert(s@.skip(i as int)[0] == s@[i as int]);
        assert(s@.skip(i as int).skip(1) == s@.skip(i + 1));
        i += 1;
    }
    i
}

/// The index at which the word from `from` on ends.
pub(crate) fn word_end(s: &[char], from: usize) -> (i: usize)
    requires
        from <= s@.len(),
    ensures
        from <= i <= s@.len(),
        s@.subrange(from as int, i as int) == word(s@.skip(from as int)),
{
    let mut i: usize = from;
    while i < s.len() && !is_whitespace(s[i])
        invariant
            from <= i <= s@.len(),
            s@.subrange(from as int, i as int) + word(s@.skip(i as int)) == word(
                s@.skip(from as int),
            ),
        decreases s@.len() - i,
    {
        let ghost t = s@.skip(i as int);
        assert(t[0] == s@[i as int]);
        assert(t.skip(1) == s@.skip(i + 1));
        assert(s@.subrange(from as int, i + 1) + word(s@.skip(i + 1)) == s@.subrange(
            from as int,
            i as int,
        ) + (seq![t[0]] + word(t.skip(1))));
        i += 1;
    }
    assert(word(s@.skip(i as int)) == Seq::<char>::empty());
    assert(s@.subrange(from as int, i as int) + Seq::<char>::empty() == s@.subrange(
        from as int,
        i as int,
    ));
    i
}

/// The bounds of a text without its leading and trailing white space.
pub(crate) fn trim_bounds(s: &[char]) -> (r: (usize, usize))
    ensures
        r.0 <= r.1 <= s@.len(),
        s@.subrange(r.0 as int, r.1 as int) == trimmed(s@),
{
    assert(s@.skip(0) == s@);
    let from = spaces_end(s, 0);
    let mut to: usize = s.len();
    assert(s@.subrange(from as int, to as int) == s@.skip(from as int));
    while to > from && is_whitespace(s[to - 1])
        invariant
            from <= to <= s@.len(),
            drop_spaces(s@.subrange(from as int, to as int)) == trimmed(s@),
        decreases to,
    {
        assert(s@.subrange(from as int, to as int).last() == s@[to - 1]);
        assert(s@.subrange(from as int, to as int).drop_last() == s@.subrange(
            from as int,
            to - 1,
        ));
        to -= 1;
    }
    if to > from {
        assert(s@.subrange(from as int, to as int).last() == s@[to - 1]);
    }
    (from, to)
}

// ---------------------------------------------------------------------------
// Splitting and joining
// ---------------------------------------------------------------------------
/// The texts of a sequence of strings.
pub open spec fn texts(v: Seq<String>) -> Seq<Seq<char>> {
    v.map_values(|s: String| s@)
}

/// The pieces of a text between the separators: one more than there are
/// separators.
pub open spec fn split(s: Seq<char>, sep: char) -> Seq<Seq<char>>
    decreases s.len(),
{
    if s.len() == 0 {
        seq![seq![]]
    } else {
        let before = split(s.drop_last(), sep);
        if s.last() == sep {
            before.push(seq![])
        } else {
            before.drop_last().push(before.last().push(s.last()))
        }
    }
}

/// The pieces put together again, with a separator between every two.
pub open spec fn join(parts: Seq<Seq<char>>, sep: Seq<char>) -> Seq<char>
    decreases parts.len(),
{
    if parts.len() == 0 {
        seq![]
    } else if parts.len() == 1 {
        parts[0]
    } else {
        join(parts.drop_last(), sep) + sep + parts.last()
    }
}

/// The index of the first occurrence of a character, or the length of the text
/// where there is none.
pub open spec fn first_at(s: Seq<char>, c: char) -> int
    decreases s.len(),
{
    if s.len() == 0 || s[0] == c {
        0
    } else {
        1 + first_at(s.skip(1), c)
    }
}

pub(crate) proof fn lemma_first_at_contains(s: Seq<char>, c: char)
    ensures
        0 <= first_at(s, c) <= s.len(),
        first_at(s, c) < s.len() <==> s.contains(c),
    decreases s.len(),
{
    if s.len() > 0 && s[0] != c {
        let rest = s.skip(1);
        lemma_first_at_contains(rest, c);
        if s.contains(c) {
            let k = s.index_of(c);
            assert(rest[k - 1] == c);
        }
        if rest.contains(c) {
            let k = rest.index_of(c);
            assert(s[k + 1] == c);
        }
    } else if s.len() > 0 {
        assert(s[0] == c);
    }
}

/// Whether a text starts with another.
pub open spec fn starts_with(s: Seq<char>, prefix: Seq<char>) -> bool {
    prefix.len() <= s.len() && s.take(prefix.len() as int) == prefix
}

pub proof fn lemma_split_nonempty(s: Seq<char>, sep: char)
    ensures
        split(s, sep).len() > 0,
    decreases s.len(),
{
    if s.len() > 0 {
        lemma_split_nonempty(s.drop_last(), sep);
    }
}

/// Joining what `join` joins with one more piece.
pub(crate) proof fn lemma_join_push(parts: Seq<Seq<char>>, sep: Seq<char>, last: Seq<char>)
    ensures
        parts.len() > 0 ==> join(parts.push(last), sep) == join(parts, sep) + sep + last,
        parts.len() == 0 ==> join(parts.push(last), sep) == last,
{
    assert(parts.push(last).drop_last() == parts);
}

/// A split loses nothing: joining the pieces with the separator gives the text
/// back.
pub proof fn law_split_joins_back(s: Seq<char>, sep: char)
    ensures
        join(split(s, sep), seq![sep]) == s,
    decreases s.len(),
{
    if s.len() > 0 {
        let before = split(s.drop_last(), sep);
        law_split_joins_back(s.drop_last(), sep);
        lemma_split_nonempty(s.drop_last(), sep);
        if s.last() == sep {
            lemma_join_push(before, seq![sep], seq![]);
            assert(join(before, seq![sep]) + seq![sep] + Seq::<char>::empty() == s);
        } else {
            let head = before.drop_last();
            assert(head.push(before.last()) == before);
            lemma_join_push(head, seq![sep], before.last());
            lemma_join_push(head, seq![sep], before.last().push(s.last()));
            if head.len() > 0 {
                assert(join(head, seq![sep]) + seq![sep] + before.last().push(s.last()) == (join(
                    head,
                    seq![sep],
                ) + seq![sep] + before.last()).push(s.last()));
            }
            assert(s.drop_last().push(s.last()) == s);
        }
    }
}

/// No piece of a split holds the separator.
pub proof fn law_split_pieces_lack_separator(s: Seq<char>, sep: char)
    ensures
        forall|i: int|
            0 <= i < split(s, sep).len() ==> !(#[trigger] split(s, sep)[i]).contains(sep),
    decreases s.len(),
{
    if s.len() > 0 {
        let before = split(s.drop_last(), sep);
        law_split_pieces_lack_separator(s.drop_last(), sep);
        lemma_split_nonempty(s.drop_last(), sep);
        assert forall|i: int| 0 <= i < split(s, sep).len() implies !(#[trigger] split(
            s,
            sep,
        )[i]).contains(sep) by {
            if i < before.len() - 1 || (s.last() == sep && i < before.len()) {
                assert(split(s, sep)[i] == before[i]);
            } else if s.last() != sep {
                let piece = split(s, sep)[i];
                assert(piece == before.last().push(s.last()));
                assert(before.last() == before[before.len() - 1]);
                if piece.contains(sep) {
                    let k = piece.index_of(sep);
                    assert(before.last()[k] == sep);
                }
            }
        }
    }
}

/// A text without the separator lengthens the last piece.
proof fn lemma_split_extends(a: Seq<char>, e: Seq<char>, sep: char)
    requires
        !e.contains(sep),
    ensures
        split(a + e, sep) == split(a, sep).drop_last().push(split(a, sep).last() + e),
    decreases e.len(),
{
    lemma_split_nonempty(a, sep);
    let before = split(a, sep);
    if e.len() > 0 {
        let f = e.drop_last();
        assert(!f.contains(sep)) by {
            assert forall|i: int| 0 <= i < f.len() implies #[trigger] f[i] != sep by {
                assert(e.contains(e[i]));
            }
        }
        assert(e.contains(e[e.len() - 1]));
        assert((a + e).drop_last() == a + f);
        assert((a + e).last() == e.last());
        lemma_split_extends(a, f, sep);
        let mid = before.drop_last().push(before.last() + f);
        assert(mid.drop_last() == before.drop_last());
        assert((before.last() + f).push(e.last()) == before.last() + e);
    } else {
        assert(a + e == a);
        assert(before.last() + e == before.last());
        assert(before.drop_last().push(before.last()) == before);
    }
}

/// Pieces without the separator, joined with it, split back.
pub proof fn law_join_splits_back(parts: Seq<Seq<char>>, sep: char)
    requires
        parts.len() > 0,
        forall|i: int| 0 <= i < parts.len() ==> !(#[trigger] parts[i]).contains(sep),
    ensures
        split(join(parts, seq![sep]), sep) == parts,
    decreases parts.len(),
{
    let last = parts.last();
    assert(!parts[parts.len() - 1].contains(sep));
    if parts.len() == 1 {
        lemma_split_extends(seq![], last, sep);
        assert(Seq::<char>::empty() + last == last);
        assert(split(join(parts, seq![sep]), sep) == parts);
    } else {
        let head = parts.drop_last();
        assert forall|i: int| 0 <= i < head.len() implies !(#[trigger] head[i]).contains(sep) by {
            assert(head[i] == parts[i]);
        }
        law_join_splits_back(head, sep);
        let a = join(head, seq![sep]) + seq![sep];
        assert(a.drop_last() == join(head, seq![sep]));
        assert(split(a, sep) == head.push(seq![]));
        lemma_split_extends(a, last, sep);
        assert(head.push(seq![]).drop_last() == head);
        assert(Seq::<char>::empty() + last == last);
        assert(head.push(last) == parts);
    }
}

/// A character stands first behind a text that lacks it.
pub(crate) proof fn lemma_first_at_behind(prefix: Seq<char>, c: char, rest: Seq<char>)
    requires
        !prefix.contains(c),
    ensures
        first_at(prefix + seq![c] + rest, c) == prefix.len(),
    decreases prefix.len(),
{
    let s = prefix + seq![c] + rest;
    if prefix.len() > 0 {
        assert(s.skip(1) == prefix.skip(1) + seq![c] + rest);
        assert(!prefix.skip(1).contains(c)) by {
            assert forall|i: int| 0 <= i < prefix.skip(1).len() implies #[trigger] prefix.skip(1)[i]
                != c by {
                assert(prefix.contains(prefix[i + 1]));
            }
        }
        lemma_first_at_behind(prefix.skip(1), c, rest);
        assert(prefix.contains(prefix[0]));
        assert(s[0] == prefix[0]);
    } else {
        assert(s[0] == c);
    }
}

/// Nothing is left out where everything meets the condition.
pub(crate) proof fn lemma_filter_all<A>(s: Seq<A>, p: spec_fn(A) -> bool)
    requires
        forall|i: int| 0 <= i < s.len() ==> p(#[trigger] s[i]),
    ensures
        s.filter(p) == s,
    decreases s.len(),
{
    reveal(Seq::filter);
    if s.len() > 0 {
        assert forall|i: int| 0 <= i < s.drop_last().len() implies p(
            #[trigger] s.drop_last()[i],
        ) by {
            assert(s.drop_last()[i] == s[i]);
        }
        lemma_filter_all(s.drop_last(), p);
        assert(p(s[s.len() - 1]));
        assert(s.drop_last().push(s.last()) == s);
    }
}

/// Splits a text into its pieces.
pub(crate) fn split_text(s: &[char], sep: char) -> (r: Vec<Vec<char>>)
    ensures
        r@.map_values(|p: Vec<char>| p@) == split(s@, sep),
{
    let mut parts: Vec<Vec<char>> = Vec::new();
    let mut piece: Vec<char> = Vec::new();
    let mut i: usize = 0;
    assert(s@.take(0) == Seq::<char>::empty());
    assert(parts@.map_values(|p: Vec<char>| p@).push(piece@) == split(s@.take(0), sep));
    while i < s.len()
        invariant
            i <= s@.len(),
            parts@.map_values(|p: Vec<char>| p@).push(piece@) == split(s@.take(i as int), sep),
        decreases s@.len() - i,
    {
        let c = s[i];
        let ghost before = parts@.map_values(|p: Vec<char>| p@);
        let ghost whole = before.push(piece@);
        assert(s@.take(i + 1).drop_last() == s@.take(i as int));
        assert(whole.last() == piece@);
        assert(whole.drop_last() == before);
        if c == sep {
            parts.push(piece);
            piece = Vec::new();
            assert(parts@.map_values(|p: Vec<char>| p@) == whole);
        } else {
            piece.push(c);
        }
        i += 1;
    }
    assert(s@.take(i as int) == s@);
    parts.push(piece);
    assert(parts@.map_values(|p: Vec<char>| p@) == split(s@, sep));
    parts
}

/// The index of the first occurrence of a character from an index on.
pub(crate) fn find_char(s: &[char], from: usize, c: char) -> (i: usize)
    requires
        from <= s@.len(),
    ensures
        from <= i <= s@.len(),
        i - from == first_at(s@.skip(from as int), c),
        i < s@.len() ==> s@[i as int] == c,
{
    let mut i: usize = from;
    while i < s.len() && s[i] != c
        invariant
            from <= i <= s@.len(),
            i - from + first_at(s@.skip(i as int), c) == first_at(s@.skip(from as int), c),
        decreases s@.len() - i,
    {
        assert(s@.skip(i as int)[0] == s@[i as int]);
        assert(s@.skip(i as int).skip(1) == s@.skip(i + 1));
        i += 1;
    }
    if i < s.len() {
        assert(s@.skip(i as int)[0] == s@[i as int]);
    }
    i
}

/// Whether the text from an index on starts with a prefix.
pub(crate) fn has_prefix(s: &[char], from: usize, prefix: &str) -> (r: bool)
    requires
        from <= s@.len(),
    ensures
        r == starts_with(s@.skip(from as int), prefix@),
{
    let p = chars_of(prefix);
    if p.len() > s.len() - from {
        return false;
    }
    let mut i: usize = 0;
    while i < p.len()
        invariant
            i <= p@.len(),
            p@.len() <= s@.len() - from,
            s@.len() <= usize::MAX,
            p@ == prefix@,
            forall|k: int| 0 <= k < i ==> s@[from + k] == p@[k],
        decreases p@.len() - i,
    {
        if s[from + i] != p[i] {
            assert(s@.skip(from as int).take(p@.len() as int)[i as int] != p@[i as int]);
            return false;
        }
        i += 1;
    }
    assert(s@.skip(from as int).take(p@.len() as int) == p@);
    true
}

/// Joins strings with a separator.
pub(crate) fn join_texts(parts: &[String], sep: &str) -> (r: String)
    ensures
        r@ == join(texts(parts@), sep@),
{
    let mut r = String::new();
    let mut i: usize = 0;
    while i < parts.len()
        invariant
            i <= parts@.len(),
            r@ == join(texts(parts@.take(i as int)), sep@),
        decreases parts@.len() - i,
    {
        if i > 0 {
            r.append(sep);
        }
        r.append(parts[i].as_str());
        proof {
            let done = texts(parts@.take(i as int));
            lemma_join_push(done, sep@, parts@[i as int]@);
            assert(texts(parts@.take(i + 1)) == done.push(parts@[i as int]@));
            if i == 0 {
                assert(r@ == parts@[0]@);
            }
        }
        i += 1;
    }
    assert(parts@.take(i as int) == parts@);
    r
}

} // verus!
