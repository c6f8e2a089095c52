//! What authoring promises: how a value is typed and laid out, which edits are
//! refused, and which steps an edit takes.

use crate::bytes::{le_bytes, lemma_four_bytes, lemma_le4, lemma_word8};
use crate::http::{mutation_after, segments, url_text, MutationView};
use crate::policy::{
    bad_segment, becomes_int, becomes_multi, create_ops, delete_error, encoded_data, encoded_type,
    forced, looked_below, multi_body, multi_bytes, named, reach_ops, replace_ops, segment_error,
    segments_error, set_error, set_op, shown_int, top_level, unforced, walk_from, Forced, Op,
    ValueType,
};
use crate::split_laws::{inside, law_inside_commas_do_not_separate, law_outside_commas_separate};
use crate::text::{
    bytes_text, debug_text, first_at, lemma_first_at_behind, lemma_first_at_contains, parse_int,
    starts_with, trimmed,
};
use crate::walk::{listed_names, Act, Ev, WalkView};
use vstd::prelude::*;
use vstd::utf8::encode_utf8;

verus! {

// ---------------------------------------------------------------------------
// Types
// ---------------------------------------------------------------------------
proof fn lemma_colon_prefix(raw: Seq<char>, k: Seq<char>)
    requires
        !k.contains(':'),
    ensures
        first_at(raw, ':') < raw.len() && raw.take(first_at(raw, ':')) == k <==> starts_with(
            raw,
            k + seq![':'],
        ),
{
    let p = k + seq![':'];
    let at = first_at(raw, ':');
    lemma_first_at_contains(raw, ':');
    if starts_with(raw, p) {
        let rest = raw.skip(p.len() as int);
        assert(raw == raw.take(p.len() as int) + rest);
        assert(raw == k + seq![':'] + rest);
        lemma_first_at_behind(k, ':', rest);
        assert(raw.take(k.len() as int) == k);
    }
    if at < raw.len() && raw.take(at) == k {
        crate::text_laws::law_first_places(raw, ':');
        assert(k.len() == at);
        assert(raw.take(at + 1) == p);
    }
}

/// Only `multi:`, `sz:` and `int:` at the start of an authored text force a type,
/// each its own; what they stand before is the value, and without one of them
/// the whole text is.
pub proof fn law_prefixes_are_the_only_force(raw: Seq<char>)
    ensures
        forced(raw) == Forced::Multi <==> starts_with(raw, "multi:"@),
        forced(raw) == Forced::Sz <==> starts_with(raw, "sz:"@),
        forced(raw) == Forced::Int <==> starts_with(raw, "int:"@),
        unforced(raw) == if starts_with(raw, "multi:"@) {
            raw.skip(6)
        } else if starts_with(raw, "sz:"@) {
            raw.skip(3)
        } else if starts_with(raw, "int:"@) {
            raw.skip(4)
        } else {
            raw
        },
{
    reveal_strlit("multi");
    reveal_strlit("sz");
    reveal_strlit("int");
    reveal_strlit("multi:");
    reveal_strlit("sz:");
    reveal_strlit("int:");
    assert("multi:"@ == "multi"@ + seq![':']);
    assert("sz:"@ == "sz"@ + seq![':']);
    assert("int:"@ == "int"@ + seq![':']);
    lemma_colon_prefix(raw, "multi"@);
    lemma_colon_prefix(raw, "sz"@);
    lemma_colon_prefix(raw, "int"@);
    lemma_first_at_contains(raw, ':');
    let at = first_at(raw, ':');
    if at < raw.len() {
        assert(raw.take(at).len() == at);
    }
}

/// Whether a text has a comma outside all parentheses.
pub open spec fn has_outside_comma(s: Seq<char>) -> bool {
    exists|i: int| 0 <= i < s.len() && s[i] == ',' && !#[trigger] inside(s, i)
}

/// A text has more than one element exactly where a comma of it stands outside
/// all parentheses.
pub proof fn law_lists_have_outside_commas(s: Seq<char>)
    ensures
        top_level(s).len() > 1 <==> has_outside_comma(s),
{
    if has_outside_comma(s) {
        let i = choose|i: int| 0 <= i < s.len() && s[i] == ',' && !#[trigger] inside(s, i);
        law_outside_commas_separate(s, i);
        lemma_pieces(s.take(i));
        lemma_pieces(s.skip(i + 1));
    } else {
        law_inside_commas_do_not_separate(s);
    }
}

proof fn lemma_pieces(s: Seq<char>)
    ensures
        top_level(s).len() > 0,
    decreases s.len(),
{
    if s.len() > 0 {
        lemma_pieces(s.drop_last());
    }
}

/// An authored value is a string list where it is forced to be one, or where
/// nothing is forced and it is the actions or has a comma outside parentheses.
/// Of the others one that writes an integer, and is not forced to be a string,
/// is an integer: of four bytes from zero up to the greatest of them, and of
/// eight otherwise. Everything else is a string.
pub proof fn law_values_are_typed(name: Seq<char>, raw: Seq<char>)
    ensures
        ({
            let text = unforced(raw);
            let free = !starts_with(raw, "multi:"@) && !starts_with(raw, "sz:"@) && !starts_with(
                raw,
                "int:"@,
            );
            let list = starts_with(raw, "multi:"@) || (free && (name == "Actions"@
                || has_outside_comma(raw)));
            let number = if list || starts_with(raw, "sz:"@) {
                None::<int>
            } else {
                parse_int(trimmed(text))
            };
            &&& becomes_multi(name, raw) <==> list
            &&& becomes_int(name, raw) == number
            &&& encoded_type(name, raw) == ValueType::MULTI_SZ <==> list
            &&& encoded_type(name, raw) == ValueType::DWORD <==> (number matches Some(v) && 0 <= v
                < 0x1_0000_0000)
            &&& encoded_type(name, raw) == ValueType::QWORD <==> (number matches Some(v) && !(0 <= v
                < 0x1_0000_0000))
            &&& encoded_type(name, raw) == ValueType::SZ <==> !list && number is None
        }),
{
    law_prefixes_are_the_only_force(raw);
    law_lists_have_outside_commas(unforced(raw));
    reveal_strlit("multi:");
    reveal_strlit("sz:");
    reveal_strlit("int:");
    assert(starts_with(raw, "multi:"@) ==> raw[0] == 'm') by {
        assert(starts_with(raw, "multi:"@) ==> raw.take(6)[0] == raw[0]);
    }
    assert(starts_with(raw, "sz:"@) ==> raw[0] == 's') by {
        assert(starts_with(raw, "sz:"@) ==> raw.take(3)[0] == raw[0]);
    }
    assert(starts_with(raw, "int:"@) ==> raw[0] == 'i') by {
        assert(starts_with(raw, "int:"@) ==> raw.take(4)[0] == raw[0]);
    }
}

/// The bytes of an authored value: an integer's with the lowest first, a negative
/// one counted from the top of the range; a string's, and a zero byte.
pub proof fn law_values_are_laid_out(name: Seq<char>, raw: Seq<char>)
    ensures
        ({
            let d = encoded_data(name, raw);
            match encoded_type(name, raw) {
                ValueType::DWORD => {
                    &&& d.len() == 4
                    &&& d[0] + 0x100 * d[1] + 0x1_0000 * d[2] + 0x100_0000 * d[3] == becomes_int(
                        name,
                        raw,
                    )->0
                },
                ValueType::QWORD => {
                    let v = becomes_int(name, raw)->0;
                    &&& d.len() == 8
                    &&& d[0] + 0x100 * d[1] + 0x1_0000 * d[2] + 0x100_0000 * d[3] + 0x1_0000_0000
                        * d[4] + 0x100_0000_0000 * d[5] + 0x1_0000_0000_0000 * d[6]
                        + 0x100_0000_0000_0000 * d[7] == v + if v < 0 {
                        0x1_0000_0000_0000_0000int
                    } else {
                        0
                    }
                },
                ValueType::SZ => d == encode_utf8(unforced(raw)).push(0),
                _ => d == multi_bytes(top_level(unforced(raw))),
            }
        }),
{
    if let Some(v) = becomes_int(name, raw) {
        if 0 <= v <= u32::MAX {
            lemma_le4(v as nat);
            lemma_four_bytes(v as nat);
        } else {
            crate::text_laws::law_integers_by_their_digits(trimmed(unforced(raw)));
            let w = (v % 0x1_0000_0000_0000_0000) as nat;
            let (hi, lo) = (w / 0x1_0000_0000, w % 0x1_0000_0000);
            lemma_word8(w);
            lemma_le4(hi);
            lemma_le4(lo);
            lemma_four_bytes(hi);
            lemma_four_bytes(lo);
            let d = le_bytes(w, 8);
            let (a, b) = (le_bytes(lo, 4), le_bytes(hi, 4));
            assert(d[0] == a[0] && d[1] == a[1] && d[2] == a[2] && d[3] == a[3]);
            assert(d[4] == b[0] && d[5] == b[1] && d[6] == b[2] && d[7] == b[3]);
            assert(d[0] + 0x100 * d[1] + 0x1_0000 * d[2] + 0x100_0000 * d[3] == lo);
            assert(d[4] + 0x100 * d[5] + 0x1_0000 * d[6] + 0x100_0000 * d[7] == hi);
        }
    }
}

/// A string list, element by element: each one without the white space around it
/// and with a zero byte behind it, none for what is then empty, and one more zero
/// byte at the end.
pub proof fn law_lists_are_laid_out(parts: Seq<Seq<char>>, part: Seq<char>)
    ensures
        multi_bytes(parts) == multi_body(parts).push(0),
        multi_body(seq![]) == Seq::<u8>::empty(),
        multi_body(parts.push(part)) == if trimmed(part).len() == 0 {
            multi_body(parts)
        } else {
            multi_body(parts) + encode_utf8(trimmed(part)).push(0)
        },
{
    assert(parts.push(part).drop_last() == parts);
    assert((multi_body(parts) + encode_utf8(trimmed(part))).push(0) == multi_body(parts)
        + encode_utf8(trimmed(part)).push(0));
}

/// An authored integer is shown as it is where it fits a signed one of 64 bits,
/// and otherwise as the negative one with the same bits.
pub proof fn law_integers_are_shown_signed(v: int)
    requires
        -0x8000_0000_0000_0000 <= v <= 0xffff_ffff_ffff_ffff,
    ensures
        -0x8000_0000_0000_0000 <= shown_int(v) <= 0x7fff_ffff_ffff_ffff,
        (shown_int(v) - v) % 0x1_0000_0000_0000_0000 == 0,
{
}

// ---------------------------------------------------------------------------
// Refusals
// ---------------------------------------------------------------------------
/// A path segment is refused exactly where it is empty, holds a slash of either
/// kind, or takes more than 128 bytes; and the refusal quotes it.
pub proof fn law_segments_by_what_they_hold(seg: Seq<char>)
    ensures
        bad_segment(seg) <==> seg.len() == 0 || encode_utf8(seg).len() > 128 || exists|i: int|
            0 <= i < seg.len() && (#[trigger] seg[i] == '/' || seg[i] == '\\'),
        starts_with(segment_error(seg), "bad path segment: "@),
        segment_error(seg).skip("bad path segment: "@.len() as int) == debug_text(seg),
{
    let head = "bad path segment: "@;
    assert((head + debug_text(seg)).take(head.len() as int) == head);
    assert((head + debug_text(seg)).skip(head.len() as int) == debug_text(seg));
    if seg.contains('/') {
        assert(seg[seg.index_of('/')] == '/');
    }
    if seg.contains('\\') {
        assert(seg[seg.index_of('\\')] == '\\');
    }
    assert forall|i: int|
        0 <= i < seg.len() && (#[trigger] seg[i] == '/' || seg[i] == '\\') implies seg.contains('/')
        || seg.contains('\\') by {
        assert(seg.contains(seg[i]));
    }
}

/// A path is refused for the first of its segments that is refused, and for none
/// where none is.
pub proof fn law_the_first_bad_segment_is_named(path: Seq<Seq<char>>, i: int)
    requires
        0 <= i <= path.len(),
        forall|k: int| 0 <= k < i ==> !bad_segment(#[trigger] path[k]),
        i < path.len() ==> bad_segment(path[i]),
    ensures
        segments_error(path) == if i < path.len() {
            Some(segment_error(path[i]))
        } else {
            None
        },
    decreases path.len(),
{
    if i > 0 {
        let rest = path.skip(1);
        assert(!bad_segment(path[0]));
        assert forall|k: int| 0 <= k < i - 1 implies !bad_segment(#[trigger] rest[k]) by {
            assert(rest[k] == path[k + 1]);
        }
        law_the_first_bad_segment_is_named(rest, i - 1);
    }
}

/// A rule can be written under a path of two to thirteen segments, and deleted
/// under one of two or more, where none of the segments is refused.
pub proof fn law_edits_by_the_length_of_their_path(path: Seq<Seq<char>>)
    ensures
        set_error(path) is None <==> 2 <= path.len() <= 13 && segments_error(path) is None,
        path.len() < 2 ==> set_error(path) == Some("path must be <Layer>/<rule>[/exception...]"@),
        path.len() > 13 ==> set_error(path) == Some("rule nesting too deep"@),
        2 <= path.len() <= 13 ==> set_error(path) == segments_error(path),
        delete_error(path) is None <==> 2 <= path.len() && segments_error(path) is None,
        path.len() < 2 ==> delete_error(path) == Some("refusing to delete a whole layer"@),
        path.len() >= 2 ==> delete_error(path) == segments_error(path),
{
}

/// The exceptions of a rule are looked at above the greatest depth, which is
/// twelve; and a key is walked into down to a path of thirteen segments.
pub proof fn law_depths_are_bounded(depth: nat, w: WalkView)
    ensures
        looked_below(depth) <==> depth < 12,
        w.entered() == Act::ListChildren <==> w.base + w.pending.len() <= 13,
        w.entered() == Act::Refuse("rule nesting too deep"@) <==> w.base + w.pending.len() > 13,
{
}

// ---------------------------------------------------------------------------
// Steps
// ---------------------------------------------------------------------------
/// Writing a rule opens the root to write, begins a transaction, makes each key
/// of the path in order and asks for the values; deleting one opens the root to
/// walk, opens each key in order and begins a transaction.
pub proof fn law_steps_follow_the_path(path: Seq<Seq<char>>, i: int)
    requires
        0 <= i < path.len(),
    ensures
        create_ops(path).len() == path.len() + 3,
        create_ops(path)[0] == Op::OpenRoot(true),
        create_ops(path)[1] == Op::BeginTransaction,
        create_ops(path)[2 + i] == Op::CreateKey(path[i]),
        create_ops(path).last() == Op::QueryValues,
        reach_ops(path).len() == path.len() + 2,
        reach_ops(path)[0] == Op::OpenRoot(false),
        reach_ops(path)[1 + i] == Op::OpenKey(path[i]),
        reach_ops(path).last() == Op::BeginTransaction,
{
}

/// Replacing values deletes first, writes each authored value in order, under its
/// name and with its type and bytes, and commits last; only values that are not
/// authored are deleted.
pub proof fn law_replacing_deletes_writes_and_commits(
    existing: Seq<Seq<u8>>,
    values: Seq<(Seq<char>, Seq<char>)>,
    i: int,
    j: int,
)
    requires
        0 <= i < values.len(),
    ensures
        ({
            let ops = replace_ops(existing, values);
            let gone = ops.len() - 1 - values.len();
            &&& 0 <= gone <= existing.len()
            &&& ops.last() == Op::Commit
            &&& ops[gone + i] == Op::SetValue(
                encode_utf8(values[i].0),
                encoded_type(values[i].0, values[i].1),
                encoded_data(values[i].0, values[i].1),
            )
            &&& 0 <= j < gone ==> ops[j] is DeleteValue && existing.contains(ops[j]->DeleteValue_0)
                && !named(values, ops[j]->DeleteValue_0)
        }),
        named(values, encode_utf8(values[i].0)),
{
    let foreign = |n: Seq<u8>| !named(values, n);
    let stale = existing.filter(foreign);
    lemma_filtered(existing, foreign);
    let gone = stale.map_values(|n: Seq<u8>| Op::DeleteValue(n));
    let ops = replace_ops(existing, values);
    assert(ops.len() == gone.len() + values.len() + 1);
    assert(ops[gone.len() + i] == set_op(values[i]));
    if 0 <= j < gone.len() {
        assert(ops[j] == gone[j]);
        assert(gone[j] == Op::DeleteValue(stale[j]));
        assert(foreign(stale[j]) && existing.contains(stale[j]));
    }
}

proof fn lemma_filtered<A>(s: Seq<A>, p: spec_fn(A) -> bool)
    ensures
        s.filter(p).len() <= s.len(),
        forall|j: int|
            0 <= j < s.filter(p).len() ==> p(#[trigger] s.filter(p)[j]) && s.contains(
                s.filter(p)[j],
            ),
    decreases s.len(),
{
    reveal(Seq::filter);
    if s.len() > 0 {
        let t = s.drop_last();
        lemma_filtered(t, p);
        assert(s.contains(s.last())) by {
            assert(s[s.len() - 1] == s.last());
        }
        assert forall|j: int| 0 <= j < s.filter(p).len() implies p(#[trigger] s.filter(p)[j])
            && s.contains(s.filter(p)[j]) by {
            if j < t.filter(p).len() {
                let x = t.filter(p)[j];
                assert(s.filter(p)[j] == x);
                assert(t.contains(x));
                assert(s[t.index_of(x)] == x);
            }
        }
    }
}

/// The names of a listing that could be read, in order.
pub proof fn law_unread_names_are_left_out(listed: Seq<Option<Vec<u8>>>, next: Option<Vec<u8>>)
    ensures
        listed_names(listed.push(next)) == match next {
            Some(name) => listed_names(listed).push(bytes_text(name@)),
            None => listed_names(listed),
        },
        listed_names(seq![]) == Seq::<Seq<char>>::empty(),
{
    assert(listed.push(next).drop_last() == listed);
}

/// A walk goes on with what came of its last step: a key that was opened is
/// listed, what was listed is opened name by name, a key with nothing left below
/// it is deleted, the one above it is next, and what failed ends it.
pub proof fn law_walks_go_down_and_back(w: WalkView, names: Seq<Seq<char>>, why: Seq<char>)
    requires
        w.base + w.pending.len() <= 13,
    ensures
        w.step(Ev::Opened) == (w, Act::ListChildren),
        w.step(Ev::Failed(why)).1 == Act::Refuse(why),
        names.len() > 0 ==> {
            let (after, act) = w.step(Ev::Listed(names));
            &&& act == Act::OpenChild(names[0])
            &&& after.base == w.base
            &&& after.pending == w.pending.push(names.skip(1))
        },
        names.len() == 0 ==> {
            let (after, act) = w.step(Ev::Listed(names));
            &&& act == Act::DeleteKey
            &&& after.base == w.base
            &&& after.pending == w.pending.push(names)
        },
        w.pending.len() <= 1 ==> w.step(Ev::Deleted).1 == Act::Commit,
        w.pending.len() > 1 ==> {
            let (after, act) = w.step(Ev::Deleted);
            let above = w.pending[w.pending.len() - 2];
            act == if above.len() == 0 {
                Act::DeleteKey
            } else {
                Act::OpenChild(above[0])
            }
        },
{
    let v = WalkView { pending: w.pending.push(names), ..w };
    assert(v.pending.drop_last() == w.pending);
    if w.pending.len() > 1 {
        assert(w.pending.drop_last().last() == w.pending[w.pending.len() - 2]);
    }
}

// ---------------------------------------------------------------------------
// Requests
// ---------------------------------------------------------------------------
/// A piece of a query changes one thing: `path=` puts its segments in the place
/// of the path, `v.` with a name and an equals sign adds one value behind the
/// others, and anything else changes nothing.
pub proof fn law_pieces_change_one_thing(
    m: MutationView,
    key: Seq<char>,
    value: Seq<char>,
)
    requires
        !key.contains('='),
    ensures
        key == "path"@ ==> mutation_after(m, key + seq!['='] + value) == (MutationView {
            path: segments(url_text(value)),
            values: m.values,
        }),
        starts_with(key, "v."@) ==> mutation_after(m, key + seq!['='] + value) == (MutationView {
            path: m.path,
            values: m.values.push((url_text(key.skip(2)), url_text(value))),
        }),
        key != "path"@ && !starts_with(key, "v."@) ==> mutation_after(m, key + seq!['='] + value)
            == m,
        mutation_after(m, key) == m,
{
    let piece = key + seq!['='] + value;
    lemma_first_at_behind(key, '=', value);
    lemma_first_at_contains(key, '=');
    assert(piece.take(key.len() as int) == key);
    assert(piece.skip((key.len() + 1) as int) == value);
    reveal_strlit("path");
    reveal_strlit("v.");
    if starts_with(key, "v."@) {
        assert(key.take(2)[0] == key[0]);
    }
}

/// The walk that deletes a rule begins at the rule's own key, with nothing
/// listed yet.
pub proof fn law_walks_begin_at_the_path(path: Seq<Seq<char>>)
    ensures
        walk_from(path).base == path.len(),
        walk_from(path).pending.len() == 0,
        walk_from(path).step(Ev::Deleted).1 == Act::Commit,
{
}

} // verus!
