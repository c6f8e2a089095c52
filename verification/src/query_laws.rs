//! What the queries of the authoring endpoints promise.

use crate::http::{
    hex_digit, hex_pair, mutation_after, mutation_of, segments, url_bytes, url_text, MutationView,
};
use crate::text::{
    join, law_join_splits_back, law_utf8_text_reads_back, lemma_filter_all, lemma_first_at_behind,
    split,
};
use vstd::prelude::*;
use vstd::utf8::{encode_scalar, encode_utf8, is_ascii_chars, is_ascii_chars_encode_utf8};

verus! {

// ---------------------------------------------------------------------------
// URL decoding
// ---------------------------------------------------------------------------
/// The value of a hexadecimal digit of either case, if the character is one.
pub open spec fn hex_char(c: char) -> Option<u8> {
    if c <= '\u{7f}' {
        hex_digit(c as u8)
    } else {
        None
    }
}

/// Whether a text is a byte string with every byte written as a percent escape,
/// in digits of either case.
pub open spec fn escapes_bytes(e: Seq<char>, data: Seq<u8>) -> bool
    decreases data.len(),
{
    if data.len() == 0 {
        e.len() == 0
    } else {
        &&& e.len() >= 3
        &&& e[0] == '%'
        &&& hex_char(e[1]) == Some((data[0] / 16) as u8)
        &&& hex_char(e[2]) == Some((data[0] % 16) as u8)
        &&& escapes_bytes(e.skip(3), data.skip(1))
    }
}

/// Whether a text is another with every byte of it written as a percent escape,
/// in digits of either case.
pub open spec fn escapes(e: Seq<char>, s: Seq<char>) -> bool {
    escapes_bytes(e, encode_utf8(s))
}

/// Whether a character stands in percent escapes.
spec fn escape_char(c: char) -> bool {
    c == '%' || hex_char(c) is Some
}

proof fn lemma_escape_chars(e: Seq<char>, data: Seq<u8>)
    requires
        escapes_bytes(e, data),
    ensures
        forall|i: int| 0 <= i < e.len() ==> escape_char(#[trigger] e[i]),
    decreases data.len(),
{
    if data.len() > 0 {
        lemma_escape_chars(e.skip(3), data.skip(1));
        assert forall|i: int| 0 <= i < e.len() implies escape_char(#[trigger] e[i]) by {
            if i >= 3 {
                assert(e[i] == e.skip(3)[i - 3]);
            }
        }
    }
}

proof fn lemma_escape_char(c: char)
    requires
        escape_char(c),
    ensures
        '\0' <= c <= '\u{7f}',
        c != '&',
        c != '=',
{
}

/// An escaped text is ASCII and lacks the characters that a query is made of.
proof fn lemma_escaped(e: Seq<char>, data: Seq<u8>)
    requires
        escapes_bytes(e, data),
    ensures
        is_ascii_chars(e),
        !e.contains('&'),
        !e.contains('='),
{
    lemma_escape_chars(e, data);
    assert forall|i: int| 0 <= i < e.len() implies '\0' <= #[trigger] e[i] <= '\u{7f}' && e[i]
        != '&' && e[i] != '=' by {
        lemma_escape_char(e[i]);
    }
}

proof fn lemma_escapes_decode_back(e: Seq<char>, data: Seq<u8>)
    requires
        escapes_bytes(e, data),
    ensures
        url_bytes(encode_utf8(e)) == data,
    decreases data.len(),
{
    let p = encode_utf8(e);
    lemma_escaped(e, data);
    is_ascii_chars_encode_utf8(e);
    if data.len() > 0 {
        let rest = e.skip(3);
        lemma_escapes_decode_back(rest, data.skip(1));
        lemma_escaped(rest, data.skip(1));
        is_ascii_chars_encode_utf8(rest);
        assert(p.skip(3) == encode_utf8(rest)) by {
            assert forall|i: int| 0 <= i < rest.len() implies p.skip(3)[i] == encode_utf8(
                rest,
            )[i] by {
                assert(rest[i] == e[i + 3]);
            }
        }
        assert(p[0] == e[0] as u8 && p[1] == e[1] as u8 && p[2] == e[2] as u8);
        assert(hex_pair(p[1], p[2]) == Some(data[0]));
        assert(seq![data[0]] + data.skip(1) == data);
    }
}

/// A text whose bytes were all percent-escaped, in digits of either case,
/// decodes to what it was.
pub proof fn law_escapes_decode_back(e: Seq<char>, s: Seq<char>)
    requires
        escapes(e, s),
    ensures
        url_text(e) == s,
{
    lemma_escapes_decode_back(e, encode_utf8(s));
    law_utf8_text_reads_back(s);
}

proof fn lemma_plain_bytes(s: Seq<u8>)
    requires
        forall|i: int| 0 <= i < s.len() ==> #[trigger] s[i] != 37 && s[i] != 43,
    ensures
        url_bytes(s) == s,
    decreases s.len(),
{
    if s.len() > 0 {
        let rest = s.skip(1);
        assert forall|i: int| 0 <= i < rest.len() implies #[trigger] rest[i] != 37 && rest[i]
            != 43 by {
            assert(rest[i] == s[i + 1]);
        }
        lemma_plain_bytes(rest);
        assert(s[0] != 37 && s[0] != 43);
        assert(seq![s[0]] + rest == s);
    }
}

proof fn lemma_scalar_bytes(c: char)
    requires
        c != '%',
        c != '+',
    ensures
        forall|i: int|
            0 <= i < encode_scalar(c as u32).len() ==> #[trigger] encode_scalar(c as u32)[i] != 37
                && encode_scalar(c as u32)[i] != 43,
{
    let u = c as u32;
    assert(u <= 0x7f ==> (u & 0x7f) as u8 == u) by (bit_vector);
    assert((0xc0u8 | ((u >> 6) & 0x1f) as u8) >= 0x80) by (bit_vector);
    assert((0xe0u8 | ((u >> 12) & 0x0f) as u8) >= 0x80) by (bit_vector);
    assert((0xf0u8 | ((u >> 18) & 0x07) as u8) >= 0x80) by (bit_vector);
    assert((0x80u8 | (u & 0x3f) as u8) >= 0x80) by (bit_vector);
    assert((0x80u8 | ((u >> 6) & 0x3f) as u8) >= 0x80) by (bit_vector);
    assert((0x80u8 | ((u >> 12) & 0x3f) as u8) >= 0x80) by (bit_vector);
}

proof fn lemma_plain_chars(s: Seq<char>)
    requires
        !s.contains('%'),
        !s.contains('+'),
    ensures
        forall|i: int|
            0 <= i < encode_utf8(s).len() ==> #[trigger] encode_utf8(s)[i] != 37 && encode_utf8(
                s,
            )[i] != 43,
    decreases s.len(),
{
    if s.len() > 0 {
        assert(s[0] != '%' && s[0] != '+');
        let rest = s.drop_first();
        assert forall|c: char| rest.contains(c) implies s.contains(c) by {
            let k = choose|k: int| 0 <= k < rest.len() && rest[k] == c;
            assert(s[k + 1] == c);
        }
        lemma_plain_chars(rest);
        lemma_scalar_bytes(s[0]);
        let head = encode_scalar(s[0] as u32);
        let tail = encode_utf8(rest);
        assert(encode_utf8(s) == head + tail);
        assert forall|i: int| 0 <= i < encode_utf8(s).len() implies #[trigger] encode_utf8(s)[i]
            != 37 && encode_utf8(s)[i] != 43 by {
            if i < head.len() {
                assert(encode_utf8(s)[i] == head[i]);
            } else {
                assert(encode_utf8(s)[i] == tail[i - head.len()]);
            }
        }
    }
}

/// A text without percent signs and plus signs decodes to itself.
pub proof fn law_plain_text_is_unchanged(s: Seq<char>)
    requires
        !s.contains('%'),
        !s.contains('+'),
    ensures
        url_text(s) == s,
{
    lemma_plain_chars(s);
    lemma_plain_bytes(encode_utf8(s));
    law_utf8_text_reads_back(s);
}

// ---------------------------------------------------------------------------
// Authoring requests
// ---------------------------------------------------------------------------
/// The piece of a query that gives a path, from the path's escaped form.
pub open spec fn path_piece(path: Seq<char>) -> Seq<char> {
    "path"@ + seq!['='] + path
}

/// The piece of a query that gives a value, from the escaped forms of its name
/// and its text.
pub open spec fn value_piece(value: (Seq<char>, Seq<char>)) -> Seq<char> {
    "v."@ + value.0 + seq!['='] + value.1
}

/// The pieces of a query that asks for a mutation.
pub open spec fn query_pieces(
    path: Seq<char>,
    values: Seq<(Seq<char>, Seq<char>)>,
) -> Seq<Seq<char>> {
    seq![path_piece(path)] + values.map_values(|v: (Seq<char>, Seq<char>)| value_piece(v))
}

/// A query that asks for a mutation.
pub open spec fn query_text(path: Seq<char>, values: Seq<(Seq<char>, Seq<char>)>) -> Seq<char> {
    join(query_pieces(path, values), seq!['&'])
}

/// Whether a path and values are the escaped forms of a mutation's.
pub open spec fn escapes_mutation(
    path: Seq<char>,
    values: Seq<(Seq<char>, Seq<char>)>,
    m: MutationView,
) -> bool {
    &&& escapes(path, join(m.path, seq!['/']))
    &&& values.len() == m.values.len()
    &&& forall|i: int|
        0 <= i < values.len() ==> escapes((#[trigger] values[i]).0, m.values[i].0) && escapes(
            values[i].1,
            m.values[i].1,
        )
}

/// Whether every segment of a path is a segment of its own: none is empty, and
/// none holds a slash.
pub open spec fn plain_segments(path: Seq<Seq<char>>) -> bool {
    forall|i: int|
        0 <= i < path.len() ==> (#[trigger] path[i]).len() > 0 && !path[i].contains('/')
}

proof fn lemma_segments_back(path: Seq<Seq<char>>)
    requires
        plain_segments(path),
    ensures
        segments(join(path, seq!['/'])) == path,
{
    let full = |s: Seq<char>| s.len() > 0;
    if path.len() > 0 {
        law_join_splits_back(path, '/');
        lemma_filter_all(path, full);
    } else {
        reveal(Seq::filter);
        let one = seq![Seq::<char>::empty()];
        assert(split(seq![], '/') == one);
        assert(one.drop_last() == Seq::<Seq<char>>::empty());
        assert(one.drop_last().filter(full) == path);
        assert(one.filter(full) == path);
    }
}

proof fn lemma_path_piece(m: MutationView, rest: Seq<char>, path: Seq<Seq<char>>)
    requires
        plain_segments(path),
        escapes(rest, join(path, seq!['/'])),
    ensures
        mutation_after(m, path_piece(rest)) == (MutationView { path, values: m.values }),
        !path_piece(rest).contains('&'),
{
    let joined = join(path, seq!['/']);
    let piece = path_piece(rest);
    reveal_strlit("path");
    lemma_escaped(rest, encode_utf8(joined));
    lemma_first_at_behind("path"@, '=', rest);
    assert(piece.take(4) == "path"@);
    assert(piece.skip(5) == rest);
    law_escapes_decode_back(rest, joined);
    lemma_segments_back(path);
    assert forall|i: int| 0 <= i < piece.len() implies #[trigger] piece[i] != '&' by {
        if i >= 5 {
            assert(piece[i] == rest[i - 5]);
            assert(rest.contains(rest[i - 5]));
        }
    }
}

proof fn lemma_value_piece(
    m: MutationView,
    code: (Seq<char>, Seq<char>),
    value: (Seq<char>, Seq<char>),
)
    requires
        escapes(code.0, value.0),
        escapes(code.1, value.1),
    ensures
        mutation_after(m, value_piece(code)) == (MutationView {
            path: m.path,
            values: m.values.push(value),
        }),
        !value_piece(code).contains('&'),
{
    let name = code.0;
    let rest = code.1;
    let k = "v."@ + name;
    let piece = value_piece(code);
    reveal_strlit("v.");
    reveal_strlit("path");
    lemma_escaped(name, encode_utf8(value.0));
    lemma_escaped(rest, encode_utf8(value.1));
    assert(!k.contains('=')) by {
        assert forall|i: int| 0 <= i < k.len() implies #[trigger] k[i] != '=' by {
            if i >= 2 {
                assert(k[i] == name[i - 2]);
                assert(name.contains(name[i - 2]));
            }
        }
    }
    lemma_first_at_behind(k, '=', rest);
    let n = k.len() as int;
    assert(piece.take(n) == k);
    assert(piece.skip(n + 1) == rest);
    assert(k[0] == 'v');
    assert("path"@[0] == 'p');
    assert(k.take(2) == "v."@);
    assert(k.skip(2) == name);
    law_escapes_decode_back(name, value.0);
    law_escapes_decode_back(rest, value.1);
    assert forall|i: int| 0 <= i < piece.len() implies #[trigger] piece[i] != '&' by {
        if i > n {
            assert(piece[i] == rest[i - n - 1]);
            assert(rest.contains(rest[i - n - 1]));
        } else if 2 <= i < n {
            assert(piece[i] == name[i - 2]);
            assert(name.contains(name[i - 2]));
        }
    }
}

proof fn lemma_pieces_read_back(
    path: Seq<char>,
    values: Seq<(Seq<char>, Seq<char>)>,
    m: MutationView,
)
    requires
        plain_segments(m.path),
        escapes_mutation(path, values, m),
    ensures
        mutation_of(query_pieces(path, values)) == m,
        forall|i: int|
            0 <= i < query_pieces(path, values).len() ==> !(#[trigger] query_pieces(
                path,
                values,
            )[i]).contains('&'),
    decreases values.len(),
{
    let pieces = query_pieces(path, values);
    if values.len() > 0 {
        let before = MutationView { path: m.path, values: m.values.drop_last() };
        let codes = values.drop_last();
        let had = query_pieces(path, codes);
        assert forall|i: int| 0 <= i < codes.len() implies escapes(
            (#[trigger] codes[i]).0,
            before.values[i].0,
        ) && escapes(codes[i].1, before.values[i].1) by {
            assert(codes[i] == values[i]);
        }
        lemma_pieces_read_back(path, codes, before);
        assert(values[values.len() - 1] == values.last());
        lemma_value_piece(before, values.last(), m.values.last());
        assert(pieces == had.push(value_piece(values.last())));
        assert(pieces.drop_last() == had);
        assert(m.values.drop_last().push(m.values.last()) == m.values);
        assert forall|i: int| 0 <= i < pieces.len() implies !(#[trigger] pieces[i]).contains(
            '&',
        ) by {
            if i < had.len() {
                assert(pieces[i] == had[i]);
            }
        }
    } else {
        let empty = MutationView { path: seq![], values: seq![] };
        lemma_path_piece(empty, path, m.path);
        assert(pieces == seq![path_piece(path)]);
        assert(pieces.drop_last() == Seq::<Seq<char>>::empty());
        assert(m.values == empty.values);
        assert(mutation_of(pieces.drop_last()) == empty);
        assert(mutation_of(pieces) == mutation_after(empty, path_piece(path)));
    }
}

/// An authoring request reads back as what it asks for, whatever characters the
/// path and the values hold, where everything in it is percent-escaped, in
/// digits of either case.
pub proof fn law_requests_read_back(
    path: Seq<char>,
    values: Seq<(Seq<char>, Seq<char>)>,
    m: MutationView,
)
    requires
        plain_segments(m.path),
        escapes_mutation(path, values, m),
    ensures
        mutation_of(split(query_text(path, values), '&')) == m,
{
    lemma_pieces_read_back(path, values, m);
    law_join_splits_back(query_pieces(path, values), '&');
}

} // verus!
