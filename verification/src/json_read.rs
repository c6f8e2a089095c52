//! Reading JSON text back: the members of an object, the elements of an array,
//! and the numbers and strings that they are. What the daemon shows is told by
//! what a reader gets from it.

use crate::json::{
    array_text, escape_body, escape_char, escape_text, field_text, fields_text,
    law_strings_end_at_their_mark, law_strings_unescape, object_text, string_end, unescape, Field,
};
use crate::text::{
    decimal, hex_fixed, int_text, join, law_numerals_read_back, lemma_decimal_value, parse_int,
};
use vstd::prelude::*;

verus! {

pub proof fn lemma_string_end_bounds(t: Seq<char>)
    ensures
        0 <= string_end(t) <= t.len(),
    decreases t.len(),
{
    if t.len() == 0 || t[0] == '"' {
    } else if t[0] == '\\' && t.len() >= 2 {
        lemma_string_end_bounds(t.skip(2));
    } else {
        lemma_string_end_bounds(t.skip(1));
    }
}

/// How many characters of a text the string that it starts with takes, both
/// quotation marks included.
pub open spec fn string_len(s: Seq<char>) -> int {
    let n = string_end(s.skip(1)) + 2;
    if n <= s.len() {
        n
    } else {
        s.len() as int
    }
}

/// How many characters of a text the value that it starts with takes, read from
/// inside so many brackets: it ends before a comma or a closing bracket of the
/// list that it stands in. Commas and brackets in strings count for nothing.
pub open spec fn value_len(s: Seq<char>, depth: nat) -> nat
    decreases s.len(),
{
    if s.len() == 0 {
        0
    } else if s[0] == '"' {
        proof {
            lemma_string_end_bounds(s.skip(1));
        }
        (string_len(s) + value_len(s.skip(string_len(s)), depth)) as nat
    } else if s[0] == '{' || s[0] == '[' {
        1 + value_len(s.skip(1), depth + 1)
    } else if s[0] == '}' || s[0] == ']' {
        if depth == 0 {
            0
        } else {
            1 + value_len(s.skip(1), (depth - 1) as nat)
        }
    } else if s[0] == ',' && depth == 0 {
        0
    } else {
        1 + value_len(s.skip(1), depth)
    }
}

pub proof fn lemma_value_len_bounds(s: Seq<char>, depth: nat)
    ensures
        value_len(s, depth) <= s.len(),
    decreases s.len(),
{
    if s.len() == 0 {
    } else if s[0] == '"' {
        lemma_string_end_bounds(s.skip(1));
        lemma_value_len_bounds(s.skip(string_len(s)), depth);
    } else {
        lemma_value_len_bounds(s.skip(1), depth + 1);
        lemma_value_len_bounds(s.skip(1), depth);
        if depth > 0 {
            lemma_value_len_bounds(s.skip(1), (depth - 1) as nat);
        }
    }
}

/// The values of a list, without the brackets around it.
pub open spec fn list_items(s: Seq<char>) -> Seq<Seq<char>>
    decreases s.len(),
{
    let n = value_len(s, 0) as int;
    if n < s.len() && s[n] == ',' {
        seq![s.take(n)] + list_items(s.skip(n + 1))
    } else {
        seq![s.take(n)]
    }
}

/// What stands between the first and the last character of a text.
pub open spec fn inside_of(s: Seq<char>) -> Seq<char> {
    s.subrange(1, s.len() - 1)
}

/// The elements of a JSON array.
pub open spec fn elements(s: Seq<char>) -> Seq<Seq<char>> {
    if inside_of(s).len() == 0 {
        seq![]
    } else {
        list_items(inside_of(s))
    }
}

/// The member that an item of an object is: the inside of the string that it
/// starts with, and what stands behind the colon.
pub open spec fn member_of(item: Seq<char>) -> Field {
    Field {
        key: item.subrange(1, string_len(item) - 1),
        value: item.skip(string_len(item) + 1),
    }
}

/// The members of a JSON object, in order.
pub open spec fn members(s: Seq<char>) -> Seq<Field> {
    if inside_of(s).len() == 0 {
        seq![]
    } else {
        list_items(inside_of(s)).map_values(|item: Seq<char>| member_of(item))
    }
}

/// Whether a JSON value is a number, and this one.
pub open spec fn is_number(value: Seq<char>, n: int) -> bool {
    parse_int(value) == Some(n)
}

/// Whether a JSON value is a string: one quotation mark before it and one behind
/// it, and none between them that is not escaped.
pub open spec fn is_string(value: Seq<char>) -> bool {
    value.len() >= 2 && value[0] == '"' && value.last() == '"' && string_end(value.skip(1))
        == value.len() - 2
}

/// The text of a JSON string.
pub open spec fn string_in(value: Seq<char>) -> Seq<char> {
    unescape(inside_of(value))
}

/// Whether a member has a key, and a number as its value.
pub open spec fn says_number(m: Field, key: Seq<char>, n: int) -> bool {
    m.key == key && is_number(m.value, n)
}

/// Whether a member has a key, and a string as its value.
pub open spec fn says_text(m: Field, key: Seq<char>, text: Seq<char>) -> bool {
    m.key == key && is_string(m.value) && string_in(m.value) == text
}

// ---------------------------------------------------------------------------
// Values that keep together
// ---------------------------------------------------------------------------
/// Whether a text is read as a part of one value wherever it stands.
#[verifier::opaque]
pub open spec fn whole(v: Seq<char>) -> bool {
    forall|rest: Seq<char>, d: nat| #[trigger]
        value_len(v + rest, d) == v.len() + value_len(rest, d)
}

/// Whether a text is read as a part of one value inside brackets.
#[verifier::opaque]
pub open spec fn kept(v: Seq<char>) -> bool {
    forall|rest: Seq<char>, d: nat|
        d > 0 ==> #[trigger] value_len(v + rest, d) == v.len() + value_len(rest, d)
}

/// Whether the inside of a string ends where it should, whatever follows.
#[verifier::opaque]
pub open spec fn closes(k: Seq<char>) -> bool {
    forall|rest: Seq<char>| #[trigger] string_end(k + seq!['"'] + rest) == k.len()
}

/// Whether a text holds no character that means something in JSON.
pub open spec fn plain(s: Seq<char>) -> bool {
    forall|i: int|
        0 <= i < s.len() ==> {
            let c = #[trigger] s[i];
            c != '"' && c != '\\' && c != '{' && c != '}' && c != '[' && c != ']' && c != ','
        }
}

pub(crate) proof fn lemma_whole_kept(v: Seq<char>)
    requires
        whole(v),
    ensures
        kept(v),
{
    reveal(whole);
    reveal(kept);
}

proof fn lemma_empty_kept()
    ensures
        whole(seq![]),
        kept(seq![]),
{
    reveal(whole);
    reveal(kept);
    assert forall|rest: Seq<char>, d: nat| #[trigger]
        value_len(Seq::<char>::empty() + rest, d) == 0 + value_len(rest, d) by {
        assert(Seq::<char>::empty() + rest == rest);
    }
}

pub(crate) proof fn lemma_whole_sum(a: Seq<char>, b: Seq<char>)
    ensures
        whole(a) && whole(b) ==> whole(a + b),
        kept(a) && kept(b) ==> kept(a + b),
{
    reveal(whole);
    reveal(kept);
    assert forall|rest: Seq<char>, d: nat|
        whole(a) && whole(b) implies #[trigger] value_len(a + b + rest, d) == (a + b).len()
        + value_len(rest, d) by {
        assert(a + b + rest == a + (b + rest));
    }
    assert forall|rest: Seq<char>, d: nat|
        kept(a) && kept(b) && d > 0 implies #[trigger] value_len(a + b + rest, d) == (a + b).len()
        + value_len(rest, d) by {
        assert(a + b + rest == a + (b + rest));
    }
}

proof fn lemma_char_whole(c: char)
    requires
        c != '"' && c != '{' && c != '}' && c != '[' && c != ']',
    ensures
        c != ',' ==> whole(seq![c]),
        kept(seq![c]),
{
    reveal(whole);
    reveal(kept);
    assert forall|rest: Seq<char>, d: nat| c != ',' || d > 0 implies #[trigger] value_len(
        seq![c] + rest,
        d,
    ) == 1 + value_len(rest, d) by {
        assert((seq![c] + rest).skip(1) == rest);
        assert((seq![c] + rest)[0] == c);
    }
}

pub(crate) proof fn lemma_plain_whole(s: Seq<char>)
    requires
        plain(s),
    ensures
        whole(s),
    decreases s.len(),
{
    if s.len() > 0 {
        assert forall|i: int| 0 <= i < s.drop_last().len() implies {
            let c = #[trigger] s.drop_last()[i];
            c != '"' && c != '\\' && c != '{' && c != '}' && c != '[' && c != ']' && c != ','
        } by {
            assert(s.drop_last()[i] == s[i]);
        }
        lemma_plain_whole(s.drop_last());
        assert(s[s.len() - 1] == s.last());
        lemma_char_whole(s.last());
        lemma_whole_sum(s.drop_last(), seq![s.last()]);
        assert(s.drop_last() + seq![s.last()] == s);
    } else {
        lemma_empty_kept();
        assert(s == Seq::<char>::empty());
    }
}

/// Brackets around what is kept inside them make one value.
proof fn lemma_bracketed(open: char, v: Seq<char>, close: char)
    requires
        kept(v),
        open == '{' || open == '[',
        close == '}' || close == ']',
    ensures
        whole(seq![open] + v + seq![close]),
{
    reveal(whole);
    reveal(kept);
    let t = seq![open] + v + seq![close];
    assert forall|rest: Seq<char>, d: nat| #[trigger]
        value_len(t + rest, d) == t.len() + value_len(rest, d) by {
        let tail = seq![close] + rest;
        assert((t + rest).skip(1) == v + tail);
        assert((t + rest)[0] == open);
        assert(value_len(v + tail, d + 1) == v.len() + value_len(tail, d + 1));
        assert(tail.skip(1) == rest);
        assert(tail[0] == close);
        assert((d + 1 - 1) as nat == d);
    }
}

/// A string is one value.
pub(crate) proof fn lemma_quoted_whole(k: Seq<char>)
    requires
        closes(k),
    ensures
        whole(seq!['"'] + k + seq!['"']),
{
    reveal(whole);
    reveal(closes);
    let t = seq!['"'] + k + seq!['"'];
    assert forall|rest: Seq<char>, d: nat| #[trigger]
        value_len(t + rest, d) == t.len() + value_len(rest, d) by {
        assert((t + rest).skip(1) == k + seq!['"'] + rest);
        assert((t + rest)[0] == '"');
        assert(string_len(t + rest) == k.len() + 2);
        assert((t + rest).skip((k.len() + 2) as int) == rest);
    }
}

pub(crate) proof fn lemma_escaped_closes(s: Seq<char>)
    ensures
        closes(escape_body(s)),
{
    reveal(closes);
    assert forall|rest: Seq<char>| #[trigger]
        string_end(escape_body(s) + seq!['"'] + rest) == escape_body(s).len() by {
        law_strings_end_at_their_mark(s, rest);
    }
}

pub(crate) proof fn lemma_plain_closes(k: Seq<char>)
    requires
        plain(k),
    ensures
        closes(k),
{
    reveal(closes);
    assert forall|rest: Seq<char>| #[trigger] string_end(k + seq!['"'] + rest) == k.len() by {
        lemma_plain_end(k, rest);
    }
}

proof fn lemma_plain_end(k: Seq<char>, rest: Seq<char>)
    requires
        plain(k),
    ensures
        string_end(k + seq!['"'] + rest) == k.len(),
    decreases k.len(),
{
    let t = k + seq!['"'] + rest;
    if k.len() > 0 {
        assert(t[0] == k[0]);
        assert(t.skip(1) == k.skip(1) + seq!['"'] + rest);
        assert forall|i: int| 0 <= i < k.skip(1).len() implies {
            let c = #[trigger] k.skip(1)[i];
            c != '"' && c != '\\' && c != '{' && c != '}' && c != '[' && c != ']' && c != ','
        } by {
            assert(k.skip(1)[i] == k[i + 1]);
        }
        lemma_plain_end(k.skip(1), rest);
    } else {
        assert(t[0] == '"');
    }
}

/// A string made of any text is one value, and reads back as the text.
pub(crate) proof fn lemma_string_value(s: Seq<char>)
    ensures
        whole(escape_text(s)),
        is_string(escape_text(s)),
        string_in(escape_text(s)) == s,
{
    lemma_escaped_closes(s);
    lemma_quoted_whole(escape_body(s));
    law_strings_unescape(s);
    law_strings_end_at_their_mark(s, seq![]);
    let t = escape_text(s);
    assert(t.skip(1) == escape_body(s) + seq!['"'] + Seq::<char>::empty());
    assert(inside_of(t) == escape_body(s));
}

/// A text in which nothing means anything to JSON stands in a string as it is.
pub(crate) proof fn lemma_plain_string(s: Seq<char>)
    requires
        plain(s),
        forall|i: int| 0 <= i < s.len() ==> #[trigger] s[i] >= ' ',
    ensures
        escape_text(s) == seq!['"'] + s + seq!['"'],
        whole(seq!['"'] + s + seq!['"']),
        is_string(seq!['"'] + s + seq!['"']),
        string_in(seq!['"'] + s + seq!['"']) == s,
{
    lemma_plain_escape(s);
    lemma_string_value(s);
}

proof fn lemma_plain_escape(s: Seq<char>)
    requires
        plain(s),
        forall|i: int| 0 <= i < s.len() ==> #[trigger] s[i] >= ' ',
    ensures
        escape_body(s) == s,
    decreases s.len(),
{
    if s.len() > 0 {
        let t = s.drop_last();
        assert forall|i: int| 0 <= i < t.len() implies {
            let c = #[trigger] t[i];
            c != '"' && c != '\\' && c != '{' && c != '}' && c != '[' && c != ']' && c != ',' && c
                >= ' '
        } by {
            assert(t[i] == s[i]);
        }
        lemma_plain_escape(t);
        assert(s[s.len() - 1] == s.last());
        law_ordinary_characters_stand_for_themselves(s.last());
        assert(t + seq![s.last()] == s);
    }
}

/// A character that is neither a quotation mark, nor a backslash, nor a control
/// character stands in a string as it is, and every other one behind a
/// backslash.
pub proof fn law_ordinary_characters_stand_for_themselves(c: char)
    ensures
        c >= ' ' && c != '"' && c != '\\' <==> escape_char(c) == seq![c],
        !(c >= ' ' && c != '"' && c != '\\') <==> escape_char(c).len() > 1 && escape_char(c)[0]
            == '\\',
        escape_char(c).len() == 2 <==> c == '"' || c == '\\' || c == '\n' || c == '\r' || c
            == '\t',
        escape_char(c).len() == 2 ==> escape_char(c)[1] == if c == '\n' {
            'n'
        } else if c == '\r' {
            'r'
        } else if c == '\t' {
            't'
        } else {
            c
        },
        escape_char(c).len() > 2 ==> escape_char(c).len() == 6 && escape_char(c)[1] == 'u',
{
    let e = escape_char(c);
    assert(seq![c].len() == 1);
    if c == '"' || c == '\\' || c == '\n' || c == '\r' || c == '\t' {
        assert(e.len() == 2);
    } else if !(c >= ' ') {
        lemma_control_escape(c);
    }
}

proof fn lemma_control_escape(c: char)
    requires
        !(c >= ' '),
        c != '\n',
        c != '\r',
        c != '\t',
    ensures
        escape_char(c).len() == 6,
        escape_char(c)[0] == '\\',
        escape_char(c)[1] == 'u',
{
    reveal_with_fuel(hex_fixed, 5);
    assert(hex_fixed(c as nat, 4).len() == 4);
}

/// The numeral of an integer is one value, and reads back as the integer.
pub(crate) proof fn lemma_number_value(i: int)
    ensures
        whole(int_text(i)),
        int_text(i).len() > 0,
        i64::MIN <= i <= u64::MAX ==> is_number(int_text(i), i),
{
    let d = decimal(if i < 0 {
        (-i) as nat
    } else {
        i as nat
    });
    lemma_decimal_value(if i < 0 {
        (-i) as nat
    } else {
        i as nat
    });
    assert(plain(d));
    if i < 0 {
        assert forall|k: int| 0 <= k < int_text(i).len() implies {
            let c = #[trigger] int_text(i)[k];
            c != '"' && c != '\\' && c != '{' && c != '}' && c != '[' && c != ']' && c != ','
        } by {
            if k > 0 {
                assert(int_text(i)[k] == d[k - 1]);
            }
        }
    }
    lemma_plain_whole(int_text(i));
    if i64::MIN <= i <= u64::MAX {
        law_numerals_read_back(i);
    }
}

// ---------------------------------------------------------------------------
// Lists
// ---------------------------------------------------------------------------
proof fn lemma_join_kept(parts: Seq<Seq<char>>)
    requires
        forall|i: int| 0 <= i < parts.len() ==> whole(#[trigger] parts[i]),
    ensures
        kept(join(parts, seq![','])),
    decreases parts.len(),
{
    if parts.len() == 0 {
        lemma_empty_kept();
    } else {
        assert(whole(parts[parts.len() - 1]));
        lemma_whole_kept(parts.last());
        if parts.len() > 1 {
            let head = parts.drop_last();
            assert forall|i: int| 0 <= i < head.len() implies whole(#[trigger] head[i]) by {
                assert(head[i] == parts[i]);
            }
            lemma_join_kept(head);
            lemma_char_whole(',');
            lemma_whole_sum(join(head, seq![',']), seq![',']);
            lemma_whole_sum(join(head, seq![',']) + seq![','], parts.last());
        }
    }
}

/// What is joined begins with the first part.
pub(crate) proof fn lemma_join_front(parts: Seq<Seq<char>>, sep: Seq<char>)
    requires
        parts.len() > 1,
    ensures
        join(parts, sep) == parts[0] + sep + join(parts.skip(1), sep),
    decreases parts.len(),
{
    let head = parts.drop_last();
    let tail = parts.skip(1);
    assert(join(parts, sep) == join(head, sep) + sep + parts.last());
    if parts.len() > 2 {
        lemma_join_front(head, sep);
        assert(join(tail, sep) == join(tail.drop_last(), sep) + sep + tail.last());
        assert(head.skip(1) == tail.drop_last());
        assert(tail.last() == parts.last());
        assert(head[0] == parts[0]);
        assert(parts[0] + sep + join(tail.drop_last(), sep) + sep + parts.last() == parts[0] + sep
            + (join(tail.drop_last(), sep) + sep + parts.last()));
    } else {
        assert(join(head, sep) == parts[0]);
        assert(join(tail, sep) == parts[1]);
    }
}

proof fn lemma_items_back(parts: Seq<Seq<char>>)
    requires
        parts.len() > 0,
        forall|i: int| 0 <= i < parts.len() ==> whole(#[trigger] parts[i]),
    ensures
        list_items(join(parts, seq![','])) == parts,
    decreases parts.len(),
{
    let first = parts[0];
    let s = join(parts, seq![',']);
    assert(whole(parts[0]));
    reveal(whole);
    if parts.len() > 1 {
        let tail = parts.skip(1);
        lemma_join_front(parts, seq![',']);
        assert forall|i: int| 0 <= i < tail.len() implies whole(#[trigger] tail[i]) by {
            assert(tail[i] == parts[i + 1]);
        }
        lemma_items_back(tail);
        let rest = seq![','] + join(tail, seq![',']);
        assert(s == first + rest);
        assert(value_len(first + rest, 0) == first.len() + value_len(rest, 0));
        assert(rest[0] == ',');
        assert(value_len(rest, 0) == 0);
        assert(s[first.len() as int] == ',');
        assert(s.take(first.len() as int) == first);
        assert(s.skip((first.len() + 1) as int) == join(tail, seq![',']));
        assert(seq![first] + tail == parts);
    } else {
        let none = Seq::<char>::empty();
        assert(value_len(first + none, 0) == first.len() + value_len(none, 0));
        assert(first + none == first);
        assert(s == first);
        assert(s.take(s.len() as int) == first);
        assert(seq![first] == parts);
    }
}

/// An array reads back as the values it was made of: each apart from the next,
/// none lost, none added, in order.
pub proof fn law_arrays_read_back(values: Seq<Seq<char>>)
    requires
        forall|i: int|
            0 <= i < values.len() ==> whole(#[trigger] values[i]) && values[i].len() > 0,
    ensures
        elements(array_text(values)) == values,
        whole(array_text(values)),
{
    let t = array_text(values);
    let inner = join(values, seq![',']);
    assert(inside_of(t) == inner);
    lemma_join_kept(values);
    lemma_bracketed('[', inner, ']');
    if values.len() > 0 {
        assert(values[0].len() > 0);
        lemma_items_back(values);
        if values.len() > 1 {
            lemma_join_front(values, seq![',']);
        }
        assert(inner.len() > 0);
    } else {
        assert(inner.len() == 0);
        assert(elements(t) == values);
    }
}

proof fn lemma_field_whole(f: Field)
    requires
        closes(f.key),
        whole(f.value),
    ensures
        whole(field_text(f)),
        member_of(field_text(f)) == f,
{
    let quoted = seq!['"'] + f.key + seq!['"'];
    lemma_quoted_whole(f.key);
    lemma_char_whole(':');
    lemma_whole_sum(quoted, seq![':']);
    lemma_whole_sum(quoted + seq![':'], f.value);
    let t = field_text(f);
    assert(t == quoted + seq![':'] + f.value);
    reveal(closes);
    let rest = seq![':'] + f.value;
    assert(t.skip(1) == f.key + seq!['"'] + rest);
    assert(string_end(f.key + seq!['"'] + rest) == f.key.len());
    assert(string_len(t) == f.key.len() + 2);
    assert(t.subrange(1, string_len(t) - 1) == f.key);
    assert(t.skip(string_len(t) + 1) == f.value);
}

/// An object reads back as the fields it was made of: each key with the value
/// that was put under it, none lost, none added, in order.
pub proof fn law_objects_read_back(fields: Seq<Field>)
    requires
        forall|i: int|
            0 <= i < fields.len() ==> closes((#[trigger] fields[i]).key) && whole(fields[i].value),
    ensures
        members(object_text(fields)) == fields,
        whole(object_text(fields)),
{
    let parts = fields.map_values(|f: Field| field_text(f));
    let t = object_text(fields);
    let inner = fields_text(fields);
    assert(inside_of(t) == inner);
    assert forall|i: int| 0 <= i < parts.len() implies whole(#[trigger] parts[i]) && member_of(
        parts[i],
    ) == fields[i] by {
        assert(closes(fields[i].key));
        lemma_field_whole(fields[i]);
    }
    lemma_join_kept(parts);
    lemma_bracketed('{', inner, '}');
    if fields.len() > 0 {
        lemma_items_back(parts);
        assert(parts[0] == field_text(fields[0]));
        if parts.len() > 1 {
            lemma_join_front(parts, seq![',']);
        }
        assert(inner.len() > 0);
        assert(members(t) == fields);
    } else {
        assert(inner.len() == 0);
        assert(members(t) == fields);
    }
}

} // verus!
