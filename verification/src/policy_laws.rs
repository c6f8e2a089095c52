//! What policy authoring promises as a whole.

use crate::bytes::{
    le32, le64, le_bytes, lemma_four_bytes, lemma_le4, lemma_word8, until_zero, zero_at,
};
use crate::json::{array_text, escape_text};
use crate::policy::{
    becomes_int, becomes_multi, create_ops, encoded_data, encoded_type, multi_body, multi_bytes,
    multi_strings, named, open_parens, replace_ops, set_op, shown_int, signed64, top_level,
    unforced, value_text, zero_split, Op, ValueType,
};
use crate::text::{
    all_digits, bytes_text, decimal, int_text, is_space, join, law_numerals_read_back,
    law_utf8_text_reads_back, lemma_decimal_value, lemma_filter_all, lemma_first_at_behind,
    lemma_first_at_contains, lemma_join_push, parse_int, trimmed,
};
use vstd::prelude::*;
use vstd::utf8::{
    char_is_scalar, encode_scalar, encode_utf8, has_width_1_encoding, last_continuation_byte,
    leading_byte_width_1, leading_byte_width_2, leading_byte_width_3, leading_byte_width_4,
    second_last_continuation_byte, third_last_continuation_byte,
};

verus! {

// ---------------------------------------------------------------------------
// One transaction
// ---------------------------------------------------------------------------
/// Whether a step changes the registry.
pub open spec fn changes(op: Op) -> bool {
    op is CreateKey || op is DeleteValue || op is SetValue
}

/// An edit rides one transaction: it begins before the first change, is
/// committed once, behind the last step, and nothing changes outside it.
pub proof fn law_edit_is_one_transaction(
    path: Seq<Seq<char>>,
    existing: Seq<Seq<u8>>,
    values: Seq<(Seq<char>, Seq<char>)>,
)
    ensures
        ({
            let edit = create_ops(path) + replace_ops(existing, values);
            &&& forall|i: int|
                0 <= i < edit.len() ==> ((#[trigger] edit[i]) is BeginTransaction <==> i == 1)
            &&& forall|i: int|
                0 <= i < edit.len() ==> ((#[trigger] edit[i]) is Commit <==> i == edit.len() - 1)
            &&& forall|i: int|
                0 <= i < edit.len() && changes(#[trigger] edit[i]) ==> 1 < i < edit.len() - 1
        }),
{
    let stale = existing.filter(|n: Seq<u8>| !named(values, n));
    let gone = stale.map_values(|n: Seq<u8>| Op::DeleteValue(n));
    let written = values.map_values(|v: (Seq<char>, Seq<char>)| set_op(v));
    let made = path.map_values(|seg: Seq<char>| Op::CreateKey(seg));
    let edit = create_ops(path) + replace_ops(existing, values);
    assert forall|i: int| 0 <= i < edit.len() implies {
        &&& ((#[trigger] edit[i]) is BeginTransaction <==> i == 1)
        &&& (edit[i] is Commit <==> i == edit.len() - 1)
        &&& (changes(edit[i]) ==> 1 < i < edit.len() - 1)
    } by {
        let a = 2 + made.len();
        if i < 2 {
        } else if i < a {
            assert(edit[i] == made[i - 2]);
        } else if i == a {
            assert(edit[i] == Op::QueryValues);
        } else if i < a + 1 + gone.len() {
            assert(edit[i] == gone[i - a - 1]);
        } else if i < a + 1 + gone.len() + written.len() {
            assert(edit[i] == written[i - a - 1 - gone.len()]);
        }
    }
}

// ---------------------------------------------------------------------------
// Replacing values
// ---------------------------------------------------------------------------
/// The values of a key after a run of steps.
pub open spec fn applied(
    values: Map<Seq<u8>, (ValueType, Seq<u8>)>,
    ops: Seq<Op>,
) -> Map<Seq<u8>, (ValueType, Seq<u8>)>
    decreases ops.len(),
{
    if ops.len() == 0 {
        values
    } else {
        let before = applied(values, ops.drop_last());
        match ops.last() {
            Op::DeleteValue(name) => before.remove(name),
            Op::SetValue(name, ty, data) => before.insert(name, (ty, data)),
            _ => before,
        }
    }
}

proof fn lemma_applied_deletes(m: Map<Seq<u8>, (ValueType, Seq<u8>)>, names: Seq<Seq<u8>>)
    ensures
        ({
            let after = applied(m, names.map_values(|n: Seq<u8>| Op::DeleteValue(n)));
            forall|n: Seq<u8>|
                #[trigger] after.contains_key(n) <==> m.contains_key(n) && !names.contains(n)
        }),
    decreases names.len(),
{
    let del = |n: Seq<u8>| Op::DeleteValue(n);
    let ops = names.map_values(del);
    if names.len() > 0 {
        let rest = names.drop_last();
        lemma_applied_deletes(m, rest);
        assert(ops.drop_last() == rest.map_values(del));
        assert forall|n: Seq<u8>| #[trigger] applied(m, ops).contains_key(n) <==> m.contains_key(n)
            && !names.contains(n) by {
            assert(names.contains(n) <==> rest.contains(n) || n == names.last()) by {
                if names.contains(n) {
                    let k = names.index_of(n);
                    if k < rest.len() {
                        assert(rest[k] == n);
                    }
                }
                if rest.contains(n) {
                    let k = rest.index_of(n);
                    assert(names[k] == n);
                }
                assert(names[names.len() - 1] == names.last());
            }
            assert(applied(m, ops) == applied(m, ops.drop_last()).remove(names.last()));
        }
    } else {
        assert(ops == Seq::<Op>::empty());
    }
}

proof fn lemma_applied_concat(m: Map<Seq<u8>, (ValueType, Seq<u8>)>, a: Seq<Op>, b: Seq<Op>)
    ensures
        applied(m, a + b) == applied(applied(m, a), b),
    decreases b.len(),
{
    if b.len() > 0 {
        lemma_applied_concat(m, a, b.drop_last());
        assert((a + b).drop_last() == a + b.drop_last());
    } else {
        assert(a + b == a);
    }
}

/// The last authored value of a name.
pub open spec fn is_last_of_name(values: Seq<(Seq<char>, Seq<char>)>, i: int) -> bool {
    forall|j: int|
        i < j < values.len() ==> encode_utf8((#[trigger] values[j]).0) != encode_utf8(values[i].0)
}

proof fn lemma_applied_writes(
    m: Map<Seq<u8>, (ValueType, Seq<u8>)>,
    values: Seq<(Seq<char>, Seq<char>)>,
)
    ensures
        ({
            let after = applied(m, values.map_values(|v: (Seq<char>, Seq<char>)| set_op(v)));
            &&& forall|n: Seq<u8>|
                #[trigger] after.contains_key(n) <==> m.contains_key(n) || named(values, n)
            &&& forall|i: int|
                0 <= i < values.len() && is_last_of_name(values, i) ==> after[encode_utf8(
                    (#[trigger] values[i]).0,
                )] == (
                    encoded_type(values[i].0, values[i].1),
                    encoded_data(values[i].0, values[i].1),
                )
        }),
    decreases values.len(),
{
    let put = |v: (Seq<char>, Seq<char>)| set_op(v);
    let ops = values.map_values(put);
    if values.len() > 0 {
        let rest = values.drop_last();
        let last = values.last();
        lemma_applied_writes(m, rest);
        assert(ops.drop_last() == rest.map_values(put));
        let before = applied(m, rest.map_values(put));
        let after = applied(m, ops);
        let name = encode_utf8(last.0);
        assert(after == before.insert(
            name,
            (encoded_type(last.0, last.1), encoded_data(last.0, last.1)),
        ));
        assert forall|n: Seq<u8>| #[trigger] after.contains_key(n) <==> m.contains_key(n) || named(
            values,
            n,
        ) by {
            if named(rest, n) {
                let k = choose|k: int|
                    0 <= k < rest.len() && encode_utf8((#[trigger] rest[k]).0) == n;
                assert(values[k] == rest[k]);
            }
            if named(values, n) {
                let k = choose|k: int|
                    0 <= k < values.len() && encode_utf8((#[trigger] values[k]).0) == n;
                if k < rest.len() {
                    assert(rest[k] == values[k]);
                }
            }
            assert(values[values.len() - 1] == last);
        }
        assert forall|i: int| 0 <= i < values.len() && is_last_of_name(values, i) implies
            after[encode_utf8((#[trigger] values[i]).0)] == (
            encoded_type(values[i].0, values[i].1),
            encoded_data(values[i].0, values[i].1),
        ) by {
            if i < rest.len() {
                assert(rest[i] == values[i]);
                assert(encode_utf8(values[values.len() - 1].0) != encode_utf8(values[i].0));
                assert forall|j: int| i < j < rest.len() implies encode_utf8(
                    (#[trigger] rest[j]).0,
                ) != encode_utf8(rest[i].0) by {
                    assert(rest[j] == values[j]);
                }
                assert(is_last_of_name(rest, i));
            }
        }
    } else {
        assert(ops == Seq::<Op>::empty());
    }
}

/// Writing a rule replaces its values: behind the edit the rule has exactly the
/// authored values, each under its name, and the last one where a name was
/// authored more than once.
pub proof fn law_values_are_replaced(
    before: Map<Seq<u8>, (ValueType, Seq<u8>)>,
    existing: Seq<Seq<u8>>,
    values: Seq<(Seq<char>, Seq<char>)>,
)
    requires
        forall|n: Seq<u8>| #[trigger] before.contains_key(n) <==> existing.contains(n),
    ensures
        ({
            let after = applied(before, replace_ops(existing, values));
            &&& forall|n: Seq<u8>| #[trigger] after.contains_key(n) <==> named(values, n)
            &&& forall|i: int|
                0 <= i < values.len() && is_last_of_name(values, i) ==> after[encode_utf8(
                    (#[trigger] values[i]).0,
                )] == (
                    encoded_type(values[i].0, values[i].1),
                    encoded_data(values[i].0, values[i].1),
                )
        }),
{
    let pred = |n: Seq<u8>| !named(values, n);
    let stale = existing.filter(pred);
    let gone = stale.map_values(|n: Seq<u8>| Op::DeleteValue(n));
    let written = values.map_values(|v: (Seq<char>, Seq<char>)| set_op(v));
    let kept = applied(before, gone);
    lemma_applied_deletes(before, stale);
    lemma_applied_concat(before, gone, written);
    lemma_applied_writes(kept, values);
    let both = gone + written;
    assert((both + seq![Op::Commit]).drop_last() == both);
    let after = applied(before, replace_ops(existing, values));
    assert(after == applied(kept, written));
    assert forall|n: Seq<u8>| #[trigger] after.contains_key(n) <==> named(values, n) by {
        if before.contains_key(n) && !named(values, n) {
            broadcast use vstd::seq_lib::group_filter_ensures;

            let k = existing.index_of(n);
            assert(pred(existing[k]));
            assert(stale.contains(n));
        }
    }
}

// ---------------------------------------------------------------------------
// Splitting
// ---------------------------------------------------------------------------
proof fn lemma_top_level_nonempty(s: Seq<char>)
    ensures
        top_level(s).len() > 0,
    decreases s.len(),
{
    if s.len() > 0 {
        lemma_top_level_nonempty(s.drop_last());
    }
}

/// Splitting at the top level loses nothing: joining the pieces with commas
/// gives the text back.
pub proof fn law_top_level_joins_back(s: Seq<char>)
    ensures
        join(top_level(s), seq![',']) == s,
    decreases s.len(),
{
    if s.len() > 0 {
        let before = top_level(s.drop_last());
        let sep = seq![','];
        law_top_level_joins_back(s.drop_last());
        lemma_top_level_nonempty(s.drop_last());
        if s.last() == ',' && open_parens(s.drop_last()) == 0 {
            lemma_join_push(before, sep, seq![]);
            assert(join(before, sep) + sep + Seq::<char>::empty() == s);
        } else {
            let head = before.drop_last();
            assert(head.push(before.last()) == before);
            lemma_join_push(head, sep, before.last());
            lemma_join_push(head, sep, before.last().push(s.last()));
            if head.len() > 0 {
                assert(join(head, sep) + sep + before.last().push(s.last()) == (join(head, sep)
                    + sep + before.last()).push(s.last()));
            }
            assert(s.drop_last().push(s.last()) == s);
        }
    }
}

// ---------------------------------------------------------------------------
// Reading back
// ---------------------------------------------------------------------------
/// Whether a byte string holds no zero byte.
pub open spec fn no_zero(s: Seq<u8>) -> bool {
    forall|i: int| 0 <= i < s.len() ==> #[trigger] s[i] != 0
}

/// Whether a text holds no zero character.
pub open spec fn no_nul(s: Seq<char>) -> bool {
    forall|i: int| 0 <= i < s.len() ==> #[trigger] s[i] != '\0'
}

proof fn lemma_scalar_no_zero(u: u32)
    requires
        0 < u <= 0x10_ffff,
    ensures
        no_zero(encode_scalar(u)),
{
    assert(has_width_1_encoding(u) && u > 0 ==> leading_byte_width_1(u) != 0) by (bit_vector);
    assert(leading_byte_width_2(u) != 0) by (bit_vector);
    assert(leading_byte_width_3(u) != 0) by (bit_vector);
    assert(leading_byte_width_4(u) != 0) by (bit_vector);
    assert(last_continuation_byte(u) != 0) by (bit_vector);
    assert(second_last_continuation_byte(u) != 0) by (bit_vector);
    assert(third_last_continuation_byte(u) != 0) by (bit_vector);
}

proof fn lemma_char_no_zero(c: char)
    requires
        c != '\0',
    ensures
        no_zero(encode_scalar(c as u32)),
{
    char_is_scalar(c);
    lemma_scalar_no_zero(c as u32);
}

proof fn lemma_utf8_no_zero(s: Seq<char>)
    requires
        no_nul(s),
    ensures
        no_zero(encode_utf8(s)),
    decreases s.len(),
{
    if s.len() > 0 {
        assert(no_nul(s.drop_first())) by {
            assert forall|i: int| 0 <= i < s.drop_first().len() implies #[trigger] s.drop_first()[i]
                != '\0' by {
                assert(s.drop_first()[i] == s[i + 1]);
            }
        }
        lemma_utf8_no_zero(s.drop_first());
        assert(s[0] != '\0');
        lemma_char_no_zero(s[0]);
    }
}

proof fn lemma_until_zero(s: Seq<u8>)
    requires
        no_zero(s),
    ensures
        zero_at(s.push(0)) == s.len(),
        until_zero(s.push(0)) == s,
    decreases s.len(),
{
    if s.len() > 0 {
        assert(s.push(0)[0] == s[0]);
        assert(s.push(0).skip(1) == s.skip(1).push(0));
        assert(no_zero(s.skip(1))) by {
            assert forall|i: int| 0 <= i < s.skip(1).len() implies #[trigger] s.skip(1)[i] != 0 by {
                assert(s.skip(1)[i] == s[i + 1]);
            }
        }
        lemma_until_zero(s.skip(1));
    }
    assert(s.push(0).take(s.len() as int) == s);
}

/// An authored value that becomes an integer is shown as that integer; beyond
/// the signed range it is shown as the negative one with the same bits.
pub proof fn law_integers_read_back(name: Seq<char>, raw: Seq<char>)
    requires
        becomes_int(name, raw) is Some,
    ensures
        value_text(encoded_type(name, raw), encoded_data(name, raw)) == int_text(
            shown_int(becomes_int(name, raw)->0),
        ),
{
    let v = becomes_int(name, raw)->0;
    if 0 <= v <= u32::MAX {
        lemma_le4(v as nat);
        lemma_le32(v as nat);
    } else {
        let w = (v % 0x1_0000_0000_0000_0000) as nat;
        lemma_word8(w);
        lemma_le4(w % 0x1_0000_0000);
        lemma_le4(w / 0x1_0000_0000);
        lemma_le32(w % 0x1_0000_0000);
        lemma_le32(w / 0x1_0000_0000);
        let b = le_bytes(w, 8);
        let lo = le_bytes(w % 0x1_0000_0000, 4);
        let hi = le_bytes(w / 0x1_0000_0000, 4);
        assert(b[0] == lo[0] && b[1] == lo[1] && b[2] == lo[2] && b[3] == lo[3]);
        assert(b[4] == hi[0] && b[5] == hi[1] && b[6] == hi[2] && b[7] == hi[3]);
        assert(le64(b, 0) == w);
        assert(signed64(w as int) == shown_int(v));
    }
}

proof fn lemma_le32(v: nat)
    requires
        v < 0x1_0000_0000,
    ensures
        le32(le_bytes(v, 4), 0) == v,
{
    lemma_le4(v);
    lemma_four_bytes(v);
}

/// An authored value that becomes a string is shown as it was authored, without
/// the prefix that forces its type.
pub proof fn law_strings_read_back(name: Seq<char>, raw: Seq<char>)
    requires
        encoded_type(name, raw) == ValueType::SZ,
        no_nul(unforced(raw)),
    ensures
        value_text(encoded_type(name, raw), encoded_data(name, raw)) == escape_text(unforced(raw)),
{
    lemma_utf8_no_zero(unforced(raw));
    lemma_until_zero(encode_utf8(unforced(raw)));
    law_utf8_text_reads_back(unforced(raw));
}

/// The pieces of a list that are not empty once trimmed, trimmed.
pub open spec fn list_items(parts: Seq<Seq<char>>) -> Seq<Seq<char>>
    decreases parts.len(),
{
    if parts.len() == 0 {
        seq![]
    } else if trimmed(parts.last()).len() == 0 {
        list_items(parts.drop_last())
    } else {
        list_items(parts.drop_last()).push(trimmed(parts.last()))
    }
}

proof fn lemma_zero_split_nonempty(s: Seq<u8>)
    ensures
        zero_split(s).len() > 0,
    decreases s.len(),
{
    if s.len() > 0 {
        lemma_zero_split_nonempty(s.drop_last());
    }
}

/// Bytes without a zero byte lengthen the last piece.
proof fn lemma_zero_split_extends(a: Seq<u8>, e: Seq<u8>)
    requires
        no_zero(e),
    ensures
        zero_split(a + e) == zero_split(a).drop_last().push(zero_split(a).last() + e),
    decreases e.len(),
{
    lemma_zero_split_nonempty(a);
    let before = zero_split(a);
    if e.len() > 0 {
        let f = e.drop_last();
        assert((a + e).drop_last() == a + f);
        lemma_zero_split_extends(a, f);
        let mid = before.drop_last().push(before.last() + f);
        assert(mid.drop_last() == before.drop_last());
        assert((before.last() + f).push(e.last()) == before.last() + e);
        assert((a + e).last() == e.last());
    } else {
        assert(a + e == a);
        assert(before.last() + e == before.last());
        assert(before.drop_last().push(before.last()) == before);
    }
}

proof fn lemma_list_split(parts: Seq<Seq<char>>)
    requires
        forall|i: int| 0 <= i < parts.len() ==> no_nul(trimmed(#[trigger] parts[i])),
    ensures
        zero_split(multi_body(parts)) == list_items(parts).map_values(
            |t: Seq<char>| encode_utf8(t),
        ).push(seq![]),
    decreases parts.len(),
{
    let bytes = |t: Seq<char>| encode_utf8(t);
    let items = list_items(parts).map_values(bytes);
    if parts.len() > 0 {
        let rest = parts.drop_last();
        assert forall|i: int| 0 <= i < rest.len() implies no_nul(trimmed(#[trigger] rest[i])) by {
            assert(rest[i] == parts[i]);
        }
        lemma_list_split(rest);
        let part = trimmed(parts.last());
        assert(no_nul(trimmed(parts[parts.len() - 1])));
        if part.len() > 0 {
            let had = list_items(rest).map_values(bytes);
            let e = encode_utf8(part);
            lemma_utf8_no_zero(part);
            lemma_zero_split_extends(multi_body(rest), e);
            let body = (multi_body(rest) + e).push(0);
            assert(body.drop_last() == multi_body(rest) + e);
            assert(had.push(seq![]).drop_last() == had);
            assert(had.push(seq![]).last() + e == e);
            assert(items == had.push(e));
        }
    } else {
        assert(items.push(seq![]) == seq![Seq::<u8>::empty()]);
    }
}

proof fn lemma_list_items_full(parts: Seq<Seq<char>>)
    ensures
        forall|i: int|
            0 <= i < list_items(parts).len() ==> (#[trigger] list_items(parts)[i]).len() > 0,
    decreases parts.len(),
{
    if parts.len() > 0 {
        let had = list_items(parts.drop_last());
        lemma_list_items_full(parts.drop_last());
        assert forall|i: int| 0 <= i < list_items(parts).len() implies (#[trigger] list_items(
            parts,
        )[i]).len() > 0 by {
            if i < had.len() {
                assert(list_items(parts)[i] == had[i]);
            }
        }
    }
}

/// An authored value that becomes a string list is shown as its pieces between
/// the top-level commas: each without the white space around it, and none that
/// is empty then.
pub proof fn law_lists_read_back(name: Seq<char>, raw: Seq<char>)
    requires
        becomes_multi(name, raw),
        forall|i: int|
            0 <= i < top_level(unforced(raw)).len() ==> no_nul(
                trimmed(#[trigger] top_level(unforced(raw))[i]),
            ),
    ensures
        value_text(encoded_type(name, raw), encoded_data(name, raw)) == array_text(
            list_items(top_level(unforced(raw))).map_values(|t: Seq<char>| escape_text(t)),
        ),
{
    let parts = top_level(unforced(raw));
    let data = multi_bytes(parts);
    let items = list_items(parts);
    let bytes = |t: Seq<char>| encode_utf8(t);
    let full = |p: Seq<u8>| p.len() > 0;
    let coded = items.map_values(bytes);
    lemma_list_split(parts);
    lemma_list_items_full(parts);
    assert(data.drop_last() == multi_body(parts));
    assert(zero_split(data) == coded.push(seq![]).push(seq![]));
    assert forall|i: int| 0 <= i < coded.len() implies full(#[trigger] coded[i]) by {
        assert(items[i].len() > 0);
        assert(encode_utf8(items[i]).len() > 0) by {
            let u = items[i][0] as u32;
            assert(encode_scalar(u).len() > 0);
        }
    }
    lemma_filter_all(coded, full);
    reveal(Seq::filter);
    let once = coded.push(seq![]);
    assert(once.drop_last() == coded);
    assert(once.filter(full) == coded);
    assert(once.push(seq![]).drop_last() == once);
    assert(zero_split(data).filter(full) == coded);
    assert forall|i: int| 0 <= i < items.len() implies bytes_text(coded[i]) == #[trigger] items[
        i] by {
        law_utf8_text_reads_back(items[i]);
    }
    assert(multi_strings(data) == items.map_values(|t: Seq<char>| escape_text(t)));
}

// ---------------------------------------------------------------------------
// Forcing a type
// ---------------------------------------------------------------------------
/// A prefix forces the type of what follows it: `multi:` makes a string list,
/// `sz:` a string, and `int:` an integer of what writes one.
pub proof fn law_prefixes_force_a_type(name: Seq<char>, rest: Seq<char>)
    ensures
        encoded_type(name, "multi:"@ + rest) == ValueType::MULTI_SZ,
        encoded_type(name, "sz:"@ + rest) == ValueType::SZ,
        parse_int(trimmed(rest)) is Some ==> becomes_int(name, "int:"@ + rest) == parse_int(
            trimmed(rest),
        ),
        unforced("multi:"@ + rest) == rest,
        unforced("sz:"@ + rest) == rest,
        unforced("int:"@ + rest) == rest,
{
    reveal_strlit("multi:");
    reveal_strlit("sz:");
    reveal_strlit("int:");
    reveal_strlit("multi");
    reveal_strlit("sz");
    reveal_strlit("int");
    lemma_first_at_behind("multi"@, ':', rest);
    lemma_first_at_behind("sz"@, ':', rest);
    lemma_first_at_behind("int"@, ':', rest);
    assert("multi:"@ + rest == "multi"@ + seq![':'] + rest);
    assert("sz:"@ + rest == "sz"@ + seq![':'] + rest);
    assert("int:"@ + rest == "int"@ + seq![':'] + rest);
    assert(("multi:"@ + rest).take(5) == "multi"@);
    assert(("sz:"@ + rest).take(2) == "sz"@);
    assert(("int:"@ + rest).take(3) == "int"@);
    assert("sz"@.len() != "multi"@.len());
    assert("int"@.len() != "multi"@.len());
    assert("int"@.len() != "sz"@.len());
    assert(("multi:"@ + rest).skip(6) == rest);
    assert(("sz:"@ + rest).skip(3) == rest);
    assert(("int:"@ + rest).skip(4) == rest);
}

// ---------------------------------------------------------------------------
// Authoring integers
// ---------------------------------------------------------------------------
/// Whether a text is made of decimal digits and minus signs only.
spec fn plain_digits(s: Seq<char>) -> bool {
    forall|i: int| 0 <= i < s.len() ==> ('0' <= #[trigger] s[i] <= '9' || s[i] == '-')
}

proof fn lemma_plain_numeral(v: int)
    ensures
        plain_digits(int_text(v)),
        int_text(v).len() > 0,
{
    let d = decimal(if v < 0 {
        (-v) as nat
    } else {
        v as nat
    });
    lemma_decimal_value(if v < 0 {
        (-v) as nat
    } else {
        v as nat
    });
    assert(all_digits(d));
    if v < 0 {
        assert forall|i: int| 0 <= i < int_text(v).len() implies '0' <= #[trigger] int_text(v)[i]
            <= '9' || int_text(v)[i] == '-' by {
            if i > 0 {
                assert(int_text(v)[i] == d[i - 1]);
            }
        }
    }
}

proof fn lemma_plain_is_one_piece(s: Seq<char>)
    requires
        plain_digits(s),
    ensures
        top_level(s).len() == 1,
    decreases s.len(),
{
    if s.len() > 0 {
        assert forall|i: int| 0 <= i < s.drop_last().len() implies '0'
            <= #[trigger] s.drop_last()[i] <= '9' || s.drop_last()[i] == '-' by {
            assert(s.drop_last()[i] == s[i]);
        }
        lemma_plain_is_one_piece(s.drop_last());
        assert(s[s.len() - 1] != ',');
    }
}

proof fn lemma_plain_is_no_space(c: char)
    requires
        '0' <= c <= '9' || c == '-',
    ensures
        !is_space(c),
        c != ':',
{
}

/// An integer that is authored in decimal is that integer, under every name but
/// that of the actions; it becomes a dword where it fits in one, and a qword
/// where it is negative or too big.
pub proof fn law_integers_are_typed_by_size(name: Seq<char>, v: int)
    requires
        name != "Actions"@,
        i64::MIN <= v <= u64::MAX,
    ensures
        becomes_int(name, int_text(v)) == Some(v),
        encoded_type(name, int_text(v)) == if 0 <= v <= u32::MAX {
            ValueType::DWORD
        } else {
            ValueType::QWORD
        },
{
    let s = int_text(v);
    lemma_plain_numeral(v);
    lemma_plain_is_one_piece(s);
    lemma_first_at_contains(s, ':');
    assert(!s.contains(':')) by {
        assert forall|i: int| 0 <= i < s.len() implies #[trigger] s[i] != ':' by {
            lemma_plain_is_no_space(s[i]);
        }
    }
    lemma_plain_is_no_space(s[0]);
    lemma_plain_is_no_space(s[s.len() - 1]);
    assert(trimmed(s) == s);
    law_numerals_read_back(v);
}

} // verus!
