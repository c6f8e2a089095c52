//! Hand-rolled JSON encoding: the daemon emits a handful of fixed shapes,
//! which does not justify a serialization dependency.

use crate::text::{
    digit, digit_of, hex_fixed, int_text, join, lemma_join_push, push_hex_fixed, push_int,
};
use vstd::prelude::*;
use vstd::string::StringExecFns;

verus! {

/// A field of an object: its key, and its value as JSON text.
pub struct Field {
    pub key: Seq<char>,
    pub value: Seq<char>,
}

/// A field as it stands in an object.
pub open spec fn field_text(f: Field) -> Seq<char> {
    seq!['"'] + f.key + seq!['"', ':'] + f.value
}

/// Fields with commas between them.
pub open spec fn fields_text(fields: Seq<Field>) -> Seq<char> {
    join(fields.map_values(|f: Field| field_text(f)), seq![','])
}

/// The JSON object of a sequence of fields.
pub open spec fn object_text(fields: Seq<Field>) -> Seq<char> {
    seq!['{'] + fields_text(fields) + seq!['}']
}

/// The JSON array of a sequence of values.
pub open spec fn array_text(values: Seq<Seq<char>>) -> Seq<char> {
    seq!['['] + join(values, seq![',']) + seq![']']
}

/// A field that holds a number.
pub open spec fn num_field(key: Seq<char>, value: int) -> Field {
    Field { key, value: int_text(value) }
}

/// A field that holds a string.
pub open spec fn str_field(key: Seq<char>, value: Seq<char>) -> Field {
    Field { key, value: escape_text(value) }
}

/// A field that holds JSON text as it is.
pub open spec fn raw_field(key: Seq<char>, value: Seq<char>) -> Field {
    Field { key, value }
}

/// The integers that an object can hold.
pub trait Number: Sized {
    /// The integer's value.
    spec fn value(self) -> int;

    fn to_i128(self) -> (r: i128)
        ensures
            r == self.value(),
    ;
}

impl Number for u8 {
    open spec fn value(self) -> int {
        self as int
    }

    fn to_i128(self) -> (r: i128) {
        self as i128
    }
}

impl Number for u16 {
    open spec fn value(self) -> int {
        self as int
    }

    fn to_i128(self) -> (r: i128) {
        self as i128
    }
}

impl Number for u32 {
    open spec fn value(self) -> int {
        self as int
    }

    fn to_i128(self) -> (r: i128) {
        self as i128
    }
}

impl Number for u64 {
    open spec fn value(self) -> int {
        self as int
    }

    fn to_i128(self) -> (r: i128) {
        self as i128
    }
}

impl Number for i8 {
    open spec fn value(self) -> int {
        self as int
    }

    fn to_i128(self) -> (r: i128) {
        self as i128
    }
}

impl Number for i16 {
    open spec fn value(self) -> int {
        self as int
    }

    fn to_i128(self) -> (r: i128) {
        self as i128
    }
}

impl Number for i32 {
    open spec fn value(self) -> int {
        self as int
    }

    fn to_i128(self) -> (r: i128) {
        self as i128
    }
}

impl Number for i64 {
    open spec fn value(self) -> int {
        self as int
    }

    fn to_i128(self) -> (r: i128) {
        self as i128
    }
}

impl Number for i128 {
    open spec fn value(self) -> int {
        self as int
    }

    fn to_i128(self) -> (r: i128) {
        self
    }
}

impl Number for bool {
    open spec fn value(self) -> int {
        if self {
            1
        } else {
            0
        }
    }

    fn to_i128(self) -> (r: i128) {
        if self {
            1
        } else {
            0
        }
    }
}

/// A JSON object in the making.
pub struct Obj {
    out: String,
    first: bool,
    fields: Ghost<Seq<Field>>,
}

impl View for Obj {
    type V = Seq<Field>;

    closed spec fn view(&self) -> Seq<Field> {
        self.fields@
    }
}

impl Obj {
    #[verifier::type_invariant]
    spec fn wf(self) -> bool {
        &&& self.out@ == seq!['{'] + fields_text(self.fields@)
        &&& self.first == (self.fields@.len() == 0)
    }

    /// An object with no fields.
    pub fn new() -> (r: Obj)
        ensures
            r@ == Seq::<Field>::empty(),
    {
        let mut out = String::new();
        out.push('{');
        assert(Seq::<Field>::empty().map_values(|f: Field| field_text(f)) == Seq::<
            Seq<char>,
        >::empty());
        assert(out@ == seq!['{'] + fields_text(Seq::<Field>::empty()));
        Obj { out, first: true, fields: Ghost(Seq::empty()) }
    }

    /// Adds one field whose value is JSON text.
    fn key(self, key: &str, value: &str) -> (r: Obj)
        ensures
            r@ == self@.push((Field { key: key@, value: value@ })),
    {
        proof {
            use_type_invariant(&self);
        }
        let Obj { out, first, fields } = self;
        let mut out = out;
        let ghost done = fields@.map_values(|f: Field| field_text(f));
        let ghost start = out@;
        let ghost field = Field { key: key@, value: value@ };
        if !first {
            out.push(',');
        }
        out.push('"');
        out.append(key);
        out.push('"');
        out.push(':');
        out.append(value);
        proof {
            lemma_join_push(done, seq![','], field_text(field));
            assert(fields@.push(field).map_values(|f: Field| field_text(f)) == done.push(
                field_text(field),
            ));
            if first {
                assert(join(done, seq![',']) == Seq::<char>::empty());
                assert(out@ == seq!['{'] + field_text(field));
            } else {
                assert(out@ == seq!['{'] + (join(done, seq![',']) + seq![','] + field_text(field)));
            }
        }
        Obj { out, first: false, fields: Ghost(fields@.push(field)) }
    }

    /// Adds a field that holds a number.
    pub fn num<N: Number>(self, key: &str, value: N) -> (r: Obj)
        ensures
            r@ == self@.push(num_field(key@, value.value())),
    {
        let mut text = String::new();
        push_int(&mut text, value.to_i128());
        assert(text@ == int_text(value.value()));
        self.key(key, text.as_str())
    }

    /// Adds a field that holds a string.
    pub fn str(self, key: &str, value: &str) -> (r: Obj)
        ensures
            r@ == self@.push(str_field(key@, value@)),
    {
        let text = escape(value);
        self.key(key, text.as_str())
    }

    /// Adds a field whose value is JSON text already.
    pub fn raw(self, key: &str, value: &str) -> (r: Obj)
        ensures
            r@ == self@.push(raw_field(key@, value@)),
    {
        self.key(key, value)
    }

    /// The text of the object.
    pub fn finish(self) -> (r: String)
        ensures
            r@ == object_text(self@),
    {
        proof {
            use_type_invariant(&self);
        }
        let Obj { out, first, fields } = self;
        let mut out = out;
        out.push('}');
        assert(out@ == object_text(fields@));
        out
    }
}

/// A character as it stands in a JSON string.
pub open spec fn escape_char(c: char) -> Seq<char> {
    if c == '"' {
        seq!['\\', '"']
    } else if c == '\\' {
        seq!['\\', '\\']
    } else if c == '\n' {
        seq!['\\', 'n']
    } else if c == '\r' {
        seq!['\\', 'r']
    } else if c == '\t' {
        seq!['\\', 't']
    } else if (c as u32) < 0x20 {
        seq!['\\', 'u'] + hex_fixed(c as nat, 4)
    } else {
        seq![c]
    }
}

/// The characters of a text as they stand in a JSON string.
pub open spec fn escape_body(s: Seq<char>) -> Seq<char>
    decreases s.len(),
{
    if s.len() == 0 {
        seq![]
    } else {
        escape_body(s.drop_last()) + escape_char(s.last())
    }
}

/// The JSON string of a text.
pub open spec fn escape_text(s: Seq<char>) -> Seq<char> {
    seq!['"'] + escape_body(s) + seq!['"']
}

/// Appends a character as it stands in a JSON string.
fn push_escaped(out: &mut String, c: char)
    ensures
        final(out)@ == old(out)@ + escape_char(c),
{
    if c == '"' {
        out.push('\\');
        out.push('"');
    } else if c == '\\' {
        out.push('\\');
        out.push('\\');
    } else if c == '\n' {
        out.push('\\');
        out.push('n');
    } else if c == '\r' {
        out.push('\\');
        out.push('r');
    } else if c == '\t' {
        out.push('\\');
        out.push('t');
    } else if (c as u32) < 0x20 {
        out.push('\\');
        out.push('u');
        push_hex_fixed(out, c as u64, 4);
    } else {
        out.push(c);
    }
    assert(out@ == old(out)@ + escape_char(c));
}

/// The JSON string of a text, quotation marks included.
pub fn escape(s: &str) -> (out: String)
    ensures
        out@ == escape_text(s@),
{
    let mut out = String::new();
    out.push('"');
    assert(s@.take(0) == Seq::<char>::empty());
    assert(out@ == seq!['"'] + escape_body(s@.take(0)));
    for c in it: s.chars()
        invariant
            it.seq() == s@,
            out@ == seq!['"'] + escape_body(s@.take(it.index() as int)),
    {
        let ghost before = out@;
        let ghost i = it.index() as int;
        push_escaped(&mut out, c);
        assert(s@.take(i + 1).drop_last() == s@.take(i));
        assert(s@.take(i + 1).last() == c);
        assert(out@ == seq!['"'] + escape_body(s@.take(i + 1)));
    }
    assert(s@.take(s@.len() as int) == s@);
    out.push('"');
    out
}

/// Two lowercase hexadecimal digits for each byte.
pub open spec fn hex_text(data: Seq<u8>) -> Seq<char>
    decreases data.len(),
{
    if data.len() == 0 {
        seq![]
    } else {
        hex_text(data.drop_last()) + seq![
            digit(data.last() as int / 16),
            digit(data.last() as int % 16),
        ]
    }
}

/// Bytes in lowercase hexadecimal, two digits each.
pub fn hex(data: &[u8]) -> (out: String)
    ensures
        out@ == hex_text(data@),
{
    let mut out = String::new();
    let mut i: usize = 0;
    while i < data.len()
        invariant
            i <= data@.len(),
            out@ == hex_text(data@.take(i as int)),
        decreases data@.len() - i,
    {
        let b = data[i];
        out.push(digit_of(b / 16));
        out.push(digit_of(b % 16));
        assert(data@.take(i + 1).drop_last() == data@.take(i as int));
        assert(out@ == hex_text(data@.take(i + 1)));
        i += 1;
    }
    assert(data@.take(i as int) == data@);
    out
}

// ---------------------------------------------------------------------------
// Reading back
// ---------------------------------------------------------------------------
/// The value of a lowercase hexadecimal digit.
pub open spec fn digit_value(c: char) -> int {
    if c <= '9' {
        c as int - 48
    } else {
        c as int - 87
    }
}

/// The text that the inside of a JSON string stands for.
pub open spec fn unescape(t: Seq<char>) -> Seq<char>
    decreases t.len(),
{
    if t.len() == 0 {
        seq![]
    } else if t[0] != '\\' {
        seq![t[0]] + unescape(t.skip(1))
    } else if t.len() >= 6 && t[1] == 'u' {
        let code = digit_value(t[2]) * 0x1000 + digit_value(t[3]) * 0x100 + digit_value(t[4]) * 0x10
            + digit_value(t[5]);
        seq![code as char] + unescape(t.skip(6))
    } else if t.len() >= 2 {
        let c = if t[1] == 'n' {
            '\n'
        } else if t[1] == 'r' {
            '\r'
        } else if t[1] == 't' {
            '\t'
        } else {
            t[1]
        };
        seq![c] + unescape(t.skip(2))
    } else {
        seq![]
    }
}

/// Where the inside of a JSON string ends: at the first quotation mark that no
/// backslash escapes.
pub open spec fn string_end(t: Seq<char>) -> int
    decreases t.len(),
{
    if t.len() == 0 || t[0] == '"' {
        0
    } else if t[0] == '\\' && t.len() >= 2 {
        2 + string_end(t.skip(2))
    } else {
        1 + string_end(t.skip(1))
    }
}

proof fn lemma_digit_back(d: int)
    requires
        0 <= d < 16,
    ensures
        digit_value(digit(d)) == d,
        digit(d) != '"',
        digit(d) != '\\',
{
}

proof fn lemma_small_hex(c: char)
    requires
        (c as u32) < 0x20,
    ensures
        hex_fixed(c as nat, 4) == seq![
            '0',
            '0',
            digit(c as int / 16),
            digit(c as int % 16),
        ],
{
    reveal_with_fuel(hex_fixed, 5);
    let n = c as nat;
    assert(n / 16 / 16 == 0);
    assert(digit(0) == '0');
    assert(hex_fixed(n, 4) == seq![
        digit(0),
        digit(0),
        digit((n / 16 % 16) as int),
        digit((n % 16) as int),
    ]);
}

/// One character reads back, and no character ends the string.
proof fn lemma_char_back(c: char, rest: Seq<char>)
    ensures
        unescape(escape_char(c) + rest) == seq![c] + unescape(rest),
        string_end(escape_char(c) + rest) == escape_char(c).len() + string_end(rest),
        forall|i: int| 0 <= i < escape_char(c).len() ==> #[trigger] escape_char(c)[i] >= ' ',
{
    let e = escape_char(c);
    let t = e + rest;
    if e.len() == 1 {
        assert(t.skip(1) == rest);
        assert(t[0] == c);
    } else if e.len() == 2 {
        assert(t.skip(2) == rest);
        assert(t[0] == '\\');
        assert(t[1] == e[1]);
    } else {
        lemma_small_hex(c);
        lemma_digit_back(c as int / 16);
        lemma_digit_back(c as int % 16);
        assert(e == seq!['\\', 'u', '0', '0', digit(c as int / 16), digit(c as int % 16)]);
        assert(t.skip(6) == rest);
        assert(t[0] == '\\' && t[1] == 'u' && t[2] == '0' && t[3] == '0');
        assert(t[4] == e[4] && t[5] == e[5]);
        let code = digit_value(t[4]) * 0x10 + digit_value(t[5]);
        assert(code == c as int);
        reveal_with_fuel(string_end, 6);
        assert(t.skip(2).skip(1) == t.skip(3));
        assert(t.skip(3).skip(1) == t.skip(4));
        assert(t.skip(4).skip(1) == t.skip(5));
        assert(t.skip(5).skip(1) == t.skip(6));
        assert(string_end(t.skip(5)) == 1 + string_end(rest));
        assert(string_end(t.skip(4)) == 2 + string_end(rest));
        assert(string_end(t.skip(3)) == 3 + string_end(rest));
        assert(string_end(t.skip(2)) == 4 + string_end(rest));
    }
}

proof fn lemma_body_back(s: Seq<char>, rest: Seq<char>)
    ensures
        unescape(escape_body(s) + rest) == s + unescape(rest),
        string_end(escape_body(s) + rest) == escape_body(s).len() + string_end(rest),
        forall|i: int| 0 <= i < escape_body(s).len() ==> #[trigger] escape_body(s)[i] >= ' ',
    decreases s.len(),
{
    if s.len() > 0 {
        let head = s.drop_last();
        let last = escape_char(s.last());
        lemma_body_back(head, last + rest);
        lemma_char_back(s.last(), rest);
        assert(escape_body(s) + rest == escape_body(head) + (last + rest));
        assert(head + (seq![s.last()] + unescape(rest)) == s + unescape(rest));
    } else {
        assert(escape_body(s) + rest == rest);
        assert(s + unescape(rest) == unescape(rest));
    }
}

/// A JSON string reads back as the text it was made of.
pub proof fn law_strings_unescape(s: Seq<char>)
    ensures
        unescape(escape_body(s)) == s,
{
    lemma_body_back(s, seq![]);
    assert(escape_body(s) + Seq::<char>::empty() == escape_body(s));
    assert(s + Seq::<char>::empty() == s);
}

/// A JSON string ends at the mark that was put behind it, whatever the text
/// holds and whatever follows; and it holds no bare control character.
pub proof fn law_strings_end_at_their_mark(s: Seq<char>, rest: Seq<char>)
    ensures
        string_end(escape_body(s) + seq!['"'] + rest) == escape_body(s).len(),
        forall|i: int| 0 <= i < escape_body(s).len() ==> #[trigger] escape_body(s)[i] >= ' ',
{
    lemma_body_back(s, seq!['"'] + rest);
    assert(escape_body(s) + seq!['"'] + rest == escape_body(s) + (seq!['"'] + rest));
}

/// Hexadecimal text has two digits for each byte, and no two byte strings have
/// the same.
pub proof fn law_hex_tells_bytes_apart(a: Seq<u8>, b: Seq<u8>)
    ensures
        hex_text(a).len() == 2 * a.len(),
        hex_text(a) == hex_text(b) ==> a == b,
    decreases a.len(),
{
    lemma_hex_len(a);
    lemma_hex_len(b);
    if hex_text(a) == hex_text(b) && a.len() > 0 {
        let n = hex_text(a).len();
        lemma_hex_len(a.drop_last());
        lemma_hex_len(b.drop_last());
        assert(hex_text(a).take(n - 2) == hex_text(a.drop_last()));
        assert(hex_text(b).take(n - 2) == hex_text(b.drop_last()));
        law_hex_tells_bytes_apart(a.drop_last(), b.drop_last());
        let (x, y) = (a.last() as int, b.last() as int);
        assert(hex_text(a)[n - 2] == digit(x / 16) && hex_text(a)[n - 1] == digit(x % 16));
        assert(hex_text(b)[n - 2] == digit(y / 16) && hex_text(b)[n - 1] == digit(y % 16));
        lemma_digit_back(x / 16);
        lemma_digit_back(x % 16);
        lemma_digit_back(y / 16);
        lemma_digit_back(y % 16);
        assert(a.last() == b.last());
        assert(a == a.drop_last().push(a.last()));
        assert(b == b.drop_last().push(b.last()));
    }
}

pub(crate) proof fn lemma_hex_len(data: Seq<u8>)
    ensures
        hex_text(data).len() == 2 * data.len(),
    decreases data.len(),
{
    if data.len() > 0 {
        lemma_hex_len(data.drop_last());
    }
}

} // verus!
