//! What the shown policy promises: its text gives the tree back, rule by rule and
//! value by value.

use crate::bytes::{le32, le64, until_zero};
use crate::json::{
    array_text, escape_body, escape_text, field_text, fields_text, hex_text, law_strings_unescape,
    object_text, raw_field, unescape, Field,
};
use crate::json_read::{
    closes, elements, is_number, is_string, law_arrays_read_back, law_objects_read_back,
    lemma_escaped_closes, lemma_number_value, lemma_plain_closes, lemma_plain_string,
    lemma_plain_whole, lemma_string_value, members, plain, says_text, string_in, whole,
};
use crate::policy::{
    all_readable, kind_text, layer_text, multi_strings, name_json_text, policy_text, readable,
    record_text, rule_read_text, rule_text, rules_text, shown_layers, shown_rules, value_text,
    values_text, zero_split, LayerRead, RuleNode, ValueRecord, ValueType,
};
use crate::text::{bytes_text, decimal, int_text, join, lemma_decimal_value, lemma_join_push};
use vstd::prelude::*;

verus! {

proof fn lemma_two_fields(f: Seq<Field>)
    requires
        f.len() == 2,
    ensures
        object_text(f) == seq!['{'] + field_text(f[0]) + seq![','] + field_text(f[1]) + seq!['}'],
{
    let parts = f.map_values(|f: Field| field_text(f));
    assert(parts.drop_last() == seq![parts[0]]);
    assert(join(parts.drop_last(), seq![',']) == parts[0]);
    assert(fields_text(f) == parts[0] + seq![','] + parts[1]);
}

proof fn lemma_three_fields(f: Seq<Field>)
    requires
        f.len() == 3,
    ensures
        object_text(f) == seq!['{'] + field_text(f[0]) + seq![','] + field_text(f[1]) + seq![',']
            + field_text(f[2]) + seq!['}'],
{
    let parts = f.map_values(|f: Field| field_text(f));
    assert(f.drop_last().map_values(|f: Field| field_text(f)) == parts.drop_last());
    assert(parts.drop_last().drop_last() == seq![parts[0]]);
    assert(join(parts.drop_last().drop_last(), seq![',']) == parts[0]);
    assert(join(parts.drop_last(), seq![',']) == parts[0] + seq![','] + parts[1]);
    assert(fields_text(f) == parts[0] + seq![','] + parts[1] + seq![','] + parts[2]);
}

proof fn lemma_four_fields(f: Seq<Field>)
    requires
        f.len() == 4,
    ensures
        object_text(f) == seq!['{'] + field_text(f[0]) + seq![','] + field_text(f[1]) + seq![',']
            + field_text(f[2]) + seq![','] + field_text(f[3]) + seq!['}'],
{
    let parts = f.map_values(|f: Field| field_text(f));
    let p3 = parts.drop_last();
    let p2 = p3.drop_last();
    assert(p2.drop_last() == seq![parts[0]]);
    assert(join(p2.drop_last(), seq![',']) == parts[0]);
    assert(join(p2, seq![',']) == parts[0] + seq![','] + parts[1]);
    assert(join(p3, seq![',']) == parts[0] + seq![','] + parts[1] + seq![','] + parts[2]);
    assert(fields_text(f) == parts[0] + seq![','] + parts[1] + seq![','] + parts[2] + seq![',']
        + parts[3]);
}

// ---------------------------------------------------------------------------
// Values
// ---------------------------------------------------------------------------
/// A byte string without a zero byte is one piece, and each zero byte ends a
/// piece and begins the next.
pub proof fn law_zero_bytes_separate(a: Seq<u8>, b: Seq<u8>)
    ensures
        zero_split(a + seq![0u8] + b) == zero_split(a) + zero_split(b),
        !b.contains(0u8) ==> zero_split(b) == seq![b],
    decreases b.len(),
{
    let s = a + seq![0u8] + b;
    if b.len() > 0 {
        let t = b.drop_last();
        law_zero_bytes_separate(a, t);
        lemma_zero_pieces(t);
        assert(s.drop_last() == a + seq![0u8] + t);
        assert(s.last() == b.last());
        let before = zero_split(a) + zero_split(t);
        assert(before.last() == zero_split(t).last());
        assert(before.drop_last() == zero_split(a) + zero_split(t).drop_last());
        assert(zero_split(s) == zero_split(a) + zero_split(b));
        if !b.contains(0u8) {
            assert(b.contains(b.last())) by {
                assert(b[b.len() - 1] == b.last());
            }
            assert forall|i: int| 0 <= i < t.len() implies #[trigger] t[i] != 0u8 by {
                assert(b.contains(b[i]));
            }
            assert(!t.contains(0u8));
            assert(seq![t].drop_last() == Seq::<Seq<u8>>::empty());
            assert(t.push(b.last()) == b);
            assert(zero_split(b) == seq![b]);
        }
    } else {
        assert(s.drop_last() == a);
        assert(zero_split(b) == seq![Seq::<u8>::empty()]);
        assert(zero_split(s) == zero_split(a) + zero_split(b));
        assert(b == Seq::<u8>::empty());
    }
}

proof fn lemma_zero_pieces(s: Seq<u8>)
    ensures
        zero_split(s).len() > 0,
    decreases s.len(),
{
    if s.len() > 0 {
        lemma_zero_pieces(s.drop_last());
    }
}

/// The strings that a string list holds: what stands between its zero bytes and
/// is not empty.
pub open spec fn strings_in(data: Seq<u8>) -> Seq<Seq<char>> {
    zero_split(data).filter(|p: Seq<u8>| p.len() > 0).map_values(|p: Seq<u8>| bytes_text(p))
}

/// Whether a JSON value shows a value of the registry: a string up to its zero
/// byte, four bytes as a number, eight as a signed one, the strings of a list,
/// and of any other type the bytes.
pub open spec fn shows_value(t: Seq<char>, ty: ValueType, data: Seq<u8>) -> bool {
    match ty {
        ValueType::SZ => is_string(t) && string_in(t) == bytes_text(until_zero(data)),
        ValueType::EXPAND_SZ => is_string(t) && string_in(t) == bytes_text(until_zero(data)),
        ValueType::DWORD => if data.len() == 4 {
            is_number(
                t,
                data[0] + 0x100 * data[1] + 0x1_0000 * data[2] + 0x100_0000 * data[3],
            )
        } else {
            t == "null"@
        },
        ValueType::QWORD => if data.len() == 8 {
            is_number(
                t,
                data[0] + 0x100 * data[1] + 0x1_0000 * data[2] + 0x100_0000 * data[3]
                    + 0x1_0000_0000 * data[4] + 0x100_0000_0000 * data[5] + 0x1_0000_0000_0000
                    * data[6] + 0x100_0000_0000_0000 * data[7] - if data[7] >= 0x80 {
                    0x1_0000_0000_0000_0000int
                } else {
                    0
                },
            )
        } else {
            t == "null"@
        },
        ValueType::MULTI_SZ => {
            &&& elements(t).len() == strings_in(data).len()
            &&& forall|i: int|
                0 <= i < strings_in(data).len() ==> is_string(#[trigger] elements(t)[i])
                    && string_in(elements(t)[i]) == strings_in(data)[i]
        },
        ValueType::OTHER(_) => is_string(t) && string_in(t) == hex_text(data),
    }
}

/// A value is shown as what its type makes of its bytes.
pub proof fn law_values_are_shown_by_their_type(ty: ValueType, data: Seq<u8>)
    ensures
        whole(value_text(ty, data)),
        shows_value(value_text(ty, data), ty, data),
{
    assert(whole("null"@)) by {
        reveal_strlit("null");
        lemma_plain_whole("null"@);
    }
    match ty {
        ValueType::SZ | ValueType::EXPAND_SZ => {
            lemma_string_value(bytes_text(until_zero(data)));
        },
        ValueType::DWORD => {
            if data.len() == 4 {
                lemma_number_value(le32(data, 0) as int);
                assert(int_text(le32(data, 0) as int) == decimal(le32(data, 0)));
            }
        },
        ValueType::QWORD => {
            if data.len() == 8 {
                lemma_number_value(crate::policy::signed64(le64(data, 0) as int));
                lemma_top_byte(data);
            }
        },
        ValueType::MULTI_SZ => {
            let pieces = zero_split(data).filter(|p: Seq<u8>| p.len() > 0);
            let shown = multi_strings(data);
            assert forall|i: int| 0 <= i < shown.len() implies whole(#[trigger] shown[i])
                && shown[i].len() > 0 && is_string(shown[i]) && string_in(shown[i]) == strings_in(
                data,
            )[i] by {
                lemma_string_value(bytes_text(pieces[i]));
            }
            law_arrays_read_back(shown);
        },
        ValueType::OTHER(n) => {
            lemma_string_value(hex_text(data));
        },
    }
}

proof fn lemma_top_byte(data: Seq<u8>)
    requires
        data.len() == 8,
    ensures
        le64(data, 0) == data[0] + 0x100 * data[1] + 0x1_0000 * data[2] + 0x100_0000 * data[3]
            + 0x1_0000_0000 * data[4] + 0x100_0000_0000 * data[5] + 0x1_0000_0000_0000 * data[6]
            + 0x100_0000_0000_0000 * data[7],
        le64(data, 0) >= 0x8000_0000_0000_0000 <==> data[7] >= 0x80,
        le64(data, 0) < 0x1_0000_0000_0000_0000,
{
}

/// Whether a text names the type of a value.
pub open spec fn names_type(t: Seq<char>, ty: ValueType) -> bool {
    match ty {
        ValueType::SZ => t == "sz"@,
        ValueType::EXPAND_SZ => t == "sz"@,
        ValueType::DWORD => t == "dword"@,
        ValueType::QWORD => t == "qword"@,
        ValueType::MULTI_SZ => t == "multi"@,
        ValueType::OTHER(n) => {
            &&& t.len() > 5
            &&& t.take(5) == "type-"@
            &&& is_number(t.skip(5), n as int)
        },
    }
}

/// Whether a member shows a value of a rule: under its name, its type and what
/// it holds.
pub open spec fn shows_record(m: Field, v: ValueRecord) -> bool {
    let inner = members(m.value);
    &&& unescape(m.key) == bytes_text(v.name@)
    &&& inner.len() == 2
    &&& inner[0].key == "kind"@
    &&& is_string(inner[0].value)
    &&& names_type(string_in(inner[0].value), v.ty)
    &&& inner[1].key == "value"@
    &&& shows_value(inner[1].value, v.ty, v.data@)
}

spec fn record_inner(v: ValueRecord) -> Seq<Field> {
    seq![
        raw_field("kind"@, seq!['"'] + kind_text(v.ty) + seq!['"']),
        raw_field("value"@, value_text(v.ty, v.data@)),
    ]
}

spec fn record_field(v: ValueRecord) -> Field {
    Field { key: escape_body(bytes_text(v.name@)), value: object_text(record_inner(v)) }
}

proof fn lemma_kind(ty: ValueType)
    ensures
        plain(kind_text(ty)),
        forall|i: int| 0 <= i < kind_text(ty).len() ==> #[trigger] kind_text(ty)[i] >= ' ',
        names_type(kind_text(ty), ty),
{
    reveal_strlit("sz");
    reveal_strlit("dword");
    reveal_strlit("qword");
    reveal_strlit("multi");
    reveal_strlit("type-");
    if let ValueType::OTHER(n) = ty {
        let d = decimal(n as nat);
        let t = kind_text(ty);
        lemma_decimal_value(n as nat);
        lemma_number_value(n as int);
        assert(t.take(5) == "type-"@);
        assert(t.skip(5) == d);
        assert forall|i: int| 0 <= i < t.len() implies {
            let c = #[trigger] t[i];
            c != '"' && c != '\\' && c != '{' && c != '}' && c != '[' && c != ']' && c != ',' && c
                >= ' '
        } by {
            if i >= 5 {
                assert(t[i] == d[i - 5]);
            } else {
                assert(t[i] == "type-"@[i]);
            }
        }
    }
}

proof fn lemma_record_shape(name: Seq<char>, kind: Seq<char>, value: Seq<char>)
    ensures
        (seq!['"'] + name + seq!['"']) + ":{\"kind\":\""@ + kind + "\",\"value\":"@ + value + "}"@
            == field_text(
            (Field {
                key: name,
                value: object_text(
                    seq![
                        raw_field("kind"@, seq!['"'] + kind + seq!['"']),
                        raw_field("value"@, value),
                    ],
                ),
            }),
        ),
{
    let k = "kind"@;
    let v = "value"@;
    let f = seq![raw_field(k, seq!['"'] + kind + seq!['"']), raw_field(v, value)];
    let a = ":{\"kind\":\""@;
    let b = "\",\"value\":"@;
    let c = "}"@;
    assert(a == seq![':', '{', '"'] + k + seq!['"', ':', '"']) by {
        reveal_strlit(":{\"kind\":\"");
        reveal_strlit("kind");
    }
    assert(b == seq!['"', ',', '"'] + v + seq!['"', ':']) by {
        reveal_strlit("\",\"value\":");
        reveal_strlit("value");
    }
    assert(c == seq!['}']) by {
        reveal_strlit("}");
    }
    lemma_two_fields(f);
    lemma_record_pieces(name, k, kind, v, value);
}

proof fn lemma_record_pieces(
    name: Seq<char>,
    k: Seq<char>,
    kind: Seq<char>,
    v: Seq<char>,
    value: Seq<char>,
)
    ensures
        (seq!['"'] + name + seq!['"']) + (seq![':', '{', '"'] + k + seq!['"', ':', '"']) + kind + (
        seq!['"', ',', '"'] + v + seq!['"', ':']) + value + seq!['}'] == seq!['"'] + name + seq![
            '"',
            ':',
        ] + (seq!['{'] + (seq!['"'] + k + seq!['"', ':'] + (seq!['"'] + kind + seq!['"'])) + seq![
            ',',
        ] + (seq!['"'] + v + seq!['"', ':'] + value) + seq!['}']),
{
}

proof fn lemma_record(v: ValueRecord)
    ensures
        record_text(v) == field_text(record_field(v)),
        closes(record_field(v).key),
        whole(record_field(v).value),
        shows_record(record_field(v), v),
{
    let f = record_inner(v);
    lemma_kind(v.ty);
    lemma_plain_string(kind_text(v.ty));
    law_values_are_shown_by_their_type(v.ty, v.data@);
    lemma_escaped_closes(bytes_text(v.name@));
    law_strings_unescape(bytes_text(v.name@));
    assert(closes("kind"@)) by {
        reveal_strlit("kind");
        lemma_plain_closes("kind"@);
    }
    assert(closes("value"@)) by {
        reveal_strlit("value");
        lemma_plain_closes("value"@);
    }
    assert forall|i: int| 0 <= i < f.len() implies closes((#[trigger] f[i]).key) && whole(
        f[i].value,
    ) by {
        assert(closes(f[0].key) && whole(f[0].value));
        assert(closes(f[1].key) && whole(f[1].value));
    }
    law_objects_read_back(f);
    lemma_record_shape(escape_body(bytes_text(v.name@)), kind_text(v.ty), value_text(v.ty, v.data@));
}

spec fn record_fields(values: Seq<ValueRecord>) -> Seq<Field> {
    values.map_values(|v: ValueRecord| record_field(v))
}

proof fn lemma_records(values: Seq<ValueRecord>)
    ensures
        values_text(values) == fields_text(record_fields(values)),
        members(object_text(record_fields(values))) == record_fields(values),
        whole(object_text(record_fields(values))),
        forall|i: int|
            0 <= i < values.len() ==> shows_record(
                #[trigger] record_fields(values)[i],
                values[i],
            ),
{
    let f = record_fields(values);
    assert forall|i: int| 0 <= i < values.len() implies shows_record(#[trigger] f[i], values[i])
        && closes(f[i].key) && whole(f[i].value) && field_text(f[i]) == record_text(values[i]) by {
        lemma_record(values[i]);
    }
    law_objects_read_back(f);
    assert(f.map_values(|f: Field| field_text(f)) == values.map_values(
        |v: ValueRecord| record_text(v),
    ));
}

// ---------------------------------------------------------------------------
// Rules
// ---------------------------------------------------------------------------
/// The texts of the exceptions of a rule, down to the greatest depth.
pub open spec fn child_texts(node: RuleNode, depth: nat) -> Seq<Seq<char>> {
    Seq::new(
        if depth < 12 {
            node.children@.len()
        } else {
            0
        },
        |i: int| rule_text(node.children@[i]->0, depth + 1),
    )
}

spec fn rule_fields(node: RuleNode, depth: nat) -> Seq<Field> {
    seq![
        raw_field("name"@, escape_text(bytes_text(node.name@))),
        raw_field("values"@, object_text(record_fields(node.values->0@))),
        raw_field("children"@, array_text(child_texts(node, depth))),
    ]
}

proof fn lemma_rules_joined(rules: Seq<Option<RuleNode>>, n: nat, depth: nat)
    ensures
        rules_text(rules, n, depth) == join(
            Seq::new(n, |i: int| rule_text(rules[i]->0, depth)),
            seq![','],
        ),
    decreases n,
{
    let all = Seq::new(n, |i: int| rule_text(rules[i]->0, depth));
    if n > 0 {
        lemma_rules_joined(rules, (n - 1) as nat, depth);
        let head = Seq::new((n - 1) as nat, |i: int| rule_text(rules[i]->0, depth));
        assert(all == head.push(rule_text(rules[n - 1]->0, depth)));
        lemma_join_push(head, seq![','], rule_text(rules[n - 1]->0, depth));
    }
}

proof fn lemma_rule_is_object(node: RuleNode, depth: nat)
    requires
        depth <= 12,
    ensures
        rule_text(node, depth) == object_text(rule_fields(node, depth)),
{
    let f = rule_fields(node, depth);
    lemma_three_fields(f);
    lemma_records(node.values->0@);
    if depth < 12 {
        lemma_rules_joined(node.children@, node.children@.len(), depth + 1);
        assert(child_texts(node, depth) == Seq::new(
            node.children@.len(),
            |i: int| rule_text(node.children@[i]->0, depth + 1),
        ));
    } else {
        assert(child_texts(node, depth) == Seq::<Seq<char>>::empty());
    }
    lemma_rule_shape(
        escape_text(bytes_text(node.name@)),
        record_fields(node.values->0@),
        child_texts(node, depth),
    );
}

proof fn lemma_rule_shape(name: Seq<char>, values: Seq<Field>, children: Seq<Seq<char>>)
    ensures
        "{\"name\":"@ + name + ",\"values\":{"@ + fields_text(values) + "},\"children\":["@ + join(
            children,
            seq![','],
        ) + "]}"@ == object_text(
            seq![
                raw_field("name"@, name),
                raw_field("values"@, object_text(values)),
                raw_field("children"@, array_text(children)),
            ],
        ),
{
    let (n, v, c) = ("name"@, "values"@, "children"@);
    let f = seq![
        raw_field(n, name),
        raw_field(v, object_text(values)),
        raw_field(c, array_text(children)),
    ];
    lemma_three_fields(f);
    assert("{\"name\":"@ == seq!['{', '"'] + n + seq!['"', ':']) by {
        reveal_strlit("{\"name\":");
        reveal_strlit("name");
    }
    assert(",\"values\":{"@ == seq![',', '"'] + v + seq!['"', ':', '{']) by {
        reveal_strlit(",\"values\":{");
        reveal_strlit("values");
    }
    assert("},\"children\":["@ == seq!['}', ',', '"'] + c + seq!['"', ':', '[']) by {
        reveal_strlit("},\"children\":[");
        reveal_strlit("children");
    }
    assert("]}"@ == seq![']', '}']) by {
        reveal_strlit("]}");
    }
    lemma_rule_pieces(n, name, v, fields_text(values), c, join(children, seq![',']));
}

proof fn lemma_rule_pieces(
    n: Seq<char>,
    name: Seq<char>,
    v: Seq<char>,
    values: Seq<char>,
    c: Seq<char>,
    children: Seq<char>,
)
    ensures
        seq!['{', '"'] + n + seq!['"', ':'] + name + (seq![',', '"'] + v + seq!['"', ':', '{'])
            + values + (seq!['}', ',', '"'] + c + seq!['"', ':', '[']) + children + seq![']', '}']
            == seq!['{'] + (seq!['"'] + n + seq!['"', ':'] + name) + seq![','] + (seq!['"'] + v
            + seq!['"', ':'] + (seq!['{'] + values + seq!['}'])) + seq![','] + (seq!['"'] + c + seq![
            '"',
            ':',
        ] + (seq!['['] + children + seq![']'])) + seq!['}'],
{
}

proof fn lemma_rule_whole(node: RuleNode, depth: nat)
    requires
        depth <= 12,
    ensures
        whole(rule_text(node, depth)),
        rule_text(node, depth).len() > 0,
        members(rule_text(node, depth)) == rule_fields(node, depth),
        elements(array_text(child_texts(node, depth))) == child_texts(node, depth),
    decreases 12 - depth,
{
    let f = rule_fields(node, depth);
    let texts = child_texts(node, depth);
    assert forall|i: int| 0 <= i < texts.len() implies whole(#[trigger] texts[i]) && texts[i].len()
        > 0 by {
        lemma_rule_whole(node.children@[i]->0, depth + 1);
    }
    law_arrays_read_back(texts);
    lemma_records(node.values->0@);
    lemma_string_value(bytes_text(node.name@));
    assert(closes("name"@)) by {
        reveal_strlit("name");
        lemma_plain_closes("name"@);
    }
    assert(closes("values"@)) by {
        reveal_strlit("values");
        lemma_plain_closes("values"@);
    }
    assert(closes("children"@)) by {
        reveal_strlit("children");
        lemma_plain_closes("children"@);
    }
    assert forall|i: int| 0 <= i < f.len() implies closes((#[trigger] f[i]).key) && whole(
        f[i].value,
    ) by {
        assert(closes(f[0].key) && whole(f[0].value));
        assert(closes(f[1].key) && whole(f[1].value));
        assert(closes(f[2].key) && whole(f[2].value));
    }
    law_objects_read_back(f);
    lemma_rule_is_object(node, depth);
}

/// A rule's text gives the rule back: its name, each of its values under the
/// value's name, and the array of its exceptions' texts, as many as it has down
/// to the greatest depth, each apart from the next and in order. What holds of
/// the rule holds of each exception, so the text gives back the whole tree.
pub proof fn law_rules_read_back(node: RuleNode, depth: nat)
    requires
        depth <= 12,
    ensures
        members(rule_text(node, depth)).len() == 3,
        says_text(members(rule_text(node, depth))[0], "name"@, bytes_text(node.name@)),
        members(rule_text(node, depth))[1].key == "values"@,
        members(members(rule_text(node, depth))[1].value).len() == node.values->0@.len(),
        forall|i: int|
            0 <= i < node.values->0@.len() ==> shows_record(
                #[trigger] members(members(rule_text(node, depth))[1].value)[i],
                node.values->0@[i],
            ),
        members(rule_text(node, depth))[2].key == "children"@,
        members(rule_text(node, depth))[2].value == array_text(child_texts(node, depth)),
        elements(members(rule_text(node, depth))[2].value).len() == if depth < 12 {
            node.children@.len()
        } else {
            0
        },
        forall|i: int|
            0 <= i < elements(members(rule_text(node, depth))[2].value).len() ==> #[trigger] elements(
                members(rule_text(node, depth))[2].value,
            )[i] == rule_text(node.children@[i]->0, depth + 1),
{
    lemma_rule_whole(node, depth);
    lemma_records(node.values->0@);
    lemma_string_value(bytes_text(node.name@));
}

/// A rule is read whole exactly where its values were read and, above the
/// greatest depth, each of its exceptions was opened and read whole.
pub proof fn law_rules_are_whole_with_their_exceptions(node: RuleNode, depth: nat)
    ensures
        readable(node, depth) <==> {
            &&& node.values is Some
            &&& depth < 12 ==> forall|i: int|
                0 <= i < node.children@.len() ==> (#[trigger] node.children@[i]) is Some
                    && readable(node.children@[i]->0, depth + 1)
        },
{
    lemma_all_readable(node.children@, node.children@.len(), depth + 1);
}

proof fn lemma_all_readable(rules: Seq<Option<RuleNode>>, n: nat, depth: nat)
    requires
        n <= rules.len(),
    ensures
        all_readable(rules, n, depth) <==> forall|i: int|
            0 <= i < n ==> (#[trigger] rules[i]) is Some && readable(rules[i]->0, depth),
    decreases n,
{
    if n > 0 {
        lemma_all_readable(rules, (n - 1) as nat, depth);
    }
}

spec fn unread_fields(node: RuleNode) -> Seq<Field> {
    seq![
        raw_field("name"@, escape_text(bytes_text(node.name@))),
        raw_field("values"@, "{}"@),
        raw_field("children"@, "[]"@),
        raw_field("error"@, "true"@),
    ]
}

proof fn lemma_unread(node: RuleNode)
    ensures
        object_text(unread_fields(node)) == "{\"name\":"@ + name_json_text(node.name@)
            + ",\"values\":{},\"children\":[],\"error\":true}"@,
        members(object_text(unread_fields(node))) == unread_fields(node),
        whole(object_text(unread_fields(node))),
{
    let f = unread_fields(node);
    lemma_string_value(bytes_text(node.name@));
    reveal_strlit("name");
    reveal_strlit("values");
    reveal_strlit("children");
    reveal_strlit("error");
    reveal_strlit("{}");
    reveal_strlit("[]");
    reveal_strlit("true");
    lemma_plain_closes("name"@);
    lemma_plain_closes("values"@);
    lemma_plain_closes("children"@);
    lemma_plain_closes("error"@);
    lemma_plain_whole("true"@);
    lemma_empty_values();
    assert forall|i: int| 0 <= i < f.len() implies closes((#[trigger] f[i]).key) && whole(
        f[i].value,
    ) by {
        assert(closes(f[0].key) && whole(f[0].value));
        assert(closes(f[1].key) && whole(f[1].value));
        assert(closes(f[2].key) && whole(f[2].value));
        assert(closes(f[3].key) && whole(f[3].value));
    }
    law_objects_read_back(f);
    lemma_four_fields(f);
    reveal_strlit("{\"name\":");
    reveal_strlit(",\"values\":{},\"children\":[],\"error\":true}");
    assert(object_text(f) == "{\"name\":"@ + name_json_text(node.name@)
        + ",\"values\":{},\"children\":[],\"error\":true}"@);
}

/// A rule of a layer that was read whole is shown in full, and any other one is
/// shown by its name, with no values, no exceptions and an error.
pub proof fn law_unread_rules_are_only_named(node: RuleNode)
    ensures
        readable(node, 0) ==> rule_read_text(node) == rule_text(node, 0),
        !readable(node, 0) ==> {
            let m = members(rule_read_text(node));
            &&& m.len() == 4
            &&& says_text(m[0], "name"@, bytes_text(node.name@))
            &&& m[1].key == "values"@ && m[1].value == "{}"@
            &&& m[2].key == "children"@ && m[2].value == "[]"@
            &&& m[3].key == "error"@ && m[3].value == "true"@
        },
{
    lemma_unread(node);
    lemma_string_value(bytes_text(node.name@));
}

// ---------------------------------------------------------------------------
// Layers
// ---------------------------------------------------------------------------
/// Those of a sequence that could be opened, in order.
pub open spec fn opened<T>(all: Seq<Option<T>>) -> Seq<T> {
    all.filter(|o: Option<T>| o is Some).map_values(|o: Option<T>| o->0)
}

proof fn lemma_opened_next<T>(all: Seq<Option<T>>)
    requires
        all.len() > 0,
    ensures
        opened(all) == match all.last() {
            Some(x) => opened(all.drop_last()).push(x),
            None => opened(all.drop_last()),
        },
{
    reveal(Seq::filter);
    assert(opened(all) == match all.last() {
        Some(x) => opened(all.drop_last()).push(x),
        None => opened(all.drop_last()),
    });
}

proof fn lemma_shown_rules(rules: Seq<Option<RuleNode>>)
    ensures
        shown_rules(rules) == opened(rules).map_values(|n: RuleNode| rule_read_text(n)),
        elements(array_text(shown_rules(rules))) == shown_rules(rules),
        whole(array_text(shown_rules(rules))),
{
    lemma_shown_rules_are_opened(rules);
    let shown = shown_rules(rules);
    assert forall|i: int| 0 <= i < shown.len() implies whole(#[trigger] shown[i]) && shown[i].len()
        > 0 by {
        let node = opened(rules)[i];
        if readable(node, 0) {
            lemma_rule_whole(node, 0);
        } else {
            lemma_unread(node);
        }
    }
    law_arrays_read_back(shown);
}

proof fn lemma_shown_rules_are_opened(rules: Seq<Option<RuleNode>>)
    ensures
        shown_rules(rules) == opened(rules).map_values(|n: RuleNode| rule_read_text(n)),
    decreases rules.len(),
{
    if rules.len() > 0 {
        lemma_shown_rules_are_opened(rules.drop_last());
        lemma_opened_next(rules);
    } else {
        reveal(Seq::filter);
        assert(opened(rules).len() == 0);
    }
    assert(shown_rules(rules) == opened(rules).map_values(|n: RuleNode| rule_read_text(n)));
}

spec fn layer_field(l: LayerRead) -> Field {
    Field { key: escape_body(bytes_text(l.name@)), value: array_text(shown_rules(l.rules@)) }
}

proof fn lemma_shown_layers(layers: Seq<Option<LayerRead>>)
    ensures
        shown_layers(layers) == opened(layers).map_values(|l: LayerRead| field_text(layer_field(l))),
    decreases layers.len(),
{
    if layers.len() > 0 {
        lemma_shown_layers(layers.drop_last());
        lemma_opened_next(layers);
        if let Some(l) = layers.last() {
            reveal_strlit(":");
            assert(layer_text(l) == field_text(layer_field(l)));
        }
    } else {
        reveal(Seq::filter);
        assert(opened(layers).len() == 0);
    }
    assert(shown_layers(layers) == opened(layers).map_values(
        |l: LayerRead| field_text(layer_field(l)),
    ));
}

spec fn layers_fields(layers: Seq<Option<LayerRead>>) -> Seq<Field> {
    opened(layers).map_values(|l: LayerRead| layer_field(l))
}

proof fn lemma_layers(layers: Seq<Option<LayerRead>>)
    ensures
        join(shown_layers(layers), seq![',']) == fields_text(layers_fields(layers)),
        members(object_text(layers_fields(layers))) == layers_fields(layers),
        whole(object_text(layers_fields(layers))),
{
    let f = layers_fields(layers);
    lemma_shown_layers(layers);
    assert forall|i: int| 0 <= i < f.len() implies closes((#[trigger] f[i]).key) && whole(
        f[i].value,
    ) by {
        let l = opened(layers)[i];
        lemma_escaped_closes(bytes_text(l.name@));
        lemma_shown_rules(l.rules@);
    }
    law_objects_read_back(f);
    assert(f.map_values(|f: Field| field_text(f)) == shown_layers(layers));
}

proof fn lemma_policy_shape(layers: Seq<Field>)
    ensures
        "{\"present\":true,\"layers\":{"@ + fields_text(layers) + "}}"@ == object_text(
            seq![raw_field("present"@, "true"@), raw_field("layers"@, object_text(layers))],
        ),
{
    let (p, yes, l) = ("present"@, "true"@, "layers"@);
    lemma_two_fields(seq![raw_field(p, yes), raw_field(l, object_text(layers))]);
    assert("{\"present\":true,\"layers\":{"@ == seq!['{', '"'] + p + seq!['"', ':'] + yes + seq![
        ',',
        '"',
    ] + l + seq!['"', ':', '{']) by {
        reveal_strlit("{\"present\":true,\"layers\":{");
        reveal_strlit("present");
        reveal_strlit("true");
        reveal_strlit("layers");
    }
    assert("}}"@ == seq!['}', '}']) by {
        reveal_strlit("}}");
    }
    let inner = fields_text(layers);
    assert(seq!['{', '"'] + p + seq!['"', ':'] + yes + seq![',', '"'] + l + seq!['"', ':', '{']
        + inner + seq!['}', '}'] == seq!['{'] + (seq!['"'] + p + seq!['"', ':'] + yes) + seq![',']
        + (seq!['"'] + l + seq!['"', ':'] + (seq!['{'] + inner + seq!['}'])) + seq!['}']);
}

proof fn lemma_absence_shape(error: Seq<char>)
    ensures
        "{\"present\":false,\"layers\":{},\"error\":"@ + error + "}"@ == object_text(
            seq![
                raw_field("present"@, "false"@),
                raw_field("layers"@, "{}"@),
                raw_field("error"@, error),
            ],
        ),
{
    let (p, no, l, none, e) = ("present"@, "false"@, "layers"@, "{}"@, "error"@);
    lemma_three_fields(seq![raw_field(p, no), raw_field(l, none), raw_field(e, error)]);
    let head = seq!['{', '"'] + p + seq!['"', ':'] + no + seq![',', '"'] + l + seq!['"', ':'] + none
        + seq![',', '"'] + e + seq!['"', ':'];
    assert("{\"present\":false,\"layers\":{},\"error\":"@ == head) by {
        reveal_strlit("{\"present\":false,\"layers\":{},\"error\":");
        reveal_strlit("present");
        reveal_strlit("false");
        reveal_strlit("layers");
        reveal_strlit("{}");
        reveal_strlit("error");
    }
    assert("}"@ == seq!['}']) by {
        reveal_strlit("}");
    }
    assert(head + error + seq!['}'] == seq!['{'] + (seq!['"'] + p + seq!['"', ':'] + no) + seq![
        ',',
    ] + (seq!['"'] + l + seq!['"', ':'] + none) + seq![','] + (seq!['"'] + e + seq!['"', ':']
        + error) + seq!['}']);
}

proof fn lemma_empty_values()
    ensures
        whole("{}"@),
        whole("[]"@),
{
    reveal_strlit("{}");
    reveal_strlit("[]");
    law_objects_read_back(seq![]);
    law_arrays_read_back(seq![]);
    assert(Seq::<Field>::empty().map_values(|f: Field| field_text(f)).len() == 0);
    assert(object_text(seq![]) == "{}"@);
    assert(array_text(seq![]) == "[]"@);
}

proof fn lemma_policy_keys()
    ensures
        closes("present"@),
        closes("layers"@),
        closes("error"@),
        whole("true"@),
        whole("false"@),
{
    reveal_strlit("present");
    reveal_strlit("layers");
    reveal_strlit("error");
    reveal_strlit("true");
    reveal_strlit("false");
    lemma_plain_closes("present"@);
    lemma_plain_closes("layers"@);
    lemma_plain_closes("error"@);
    lemma_plain_whole("true"@);
    lemma_plain_whole("false"@);
}

/// The policy's text gives the policy back: the layers that could be opened, each
/// by its name with the rules of it that could be opened, all in order; or that
/// there is none, and why.
pub proof fn law_policies_read_back(read: Result<Vec<Option<LayerRead>>, String>)
    ensures
        ({
            let m = members(policy_text(read));
            match read {
                Ok(layers) => {
                    let shown = members(m[1].value);
                    let all = opened(layers@);
                    &&& m.len() == 2
                    &&& m[0].key == "present"@ && m[0].value == "true"@
                    &&& m[1].key == "layers"@
                    &&& shown.len() == all.len()
                    &&& forall|i: int|
                        0 <= i < all.len() ==> {
                            &&& unescape((#[trigger] shown[i]).key) == bytes_text(all[i].name@)
                            &&& elements(shown[i].value) == opened(all[i].rules@).map_values(
                                |n: RuleNode| rule_read_text(n),
                            )
                        }
                },
                Err(error) => {
                    &&& m.len() == 3
                    &&& m[0].key == "present"@ && m[0].value == "false"@
                    &&& m[1].key == "layers"@ && m[1].value == "{}"@
                    &&& says_text(m[2], "error"@, error@)
                },
            }
        }),
{
    lemma_policy_keys();
    lemma_empty_values();
    match read {
        Ok(layers) => {
            lemma_layers(layers@);
            let inner = layers_fields(layers@);
            let f = seq![raw_field("present"@, "true"@), raw_field("layers"@, object_text(inner))];
            assert forall|i: int| 0 <= i < f.len() implies closes((#[trigger] f[i]).key) && whole(
                f[i].value,
            ) by {
                assert(closes(f[0].key) && whole(f[0].value));
                assert(closes(f[1].key) && whole(f[1].value));
            }
            law_objects_read_back(f);
            lemma_policy_shape(inner);
            let all = opened(layers@);
            assert forall|i: int| 0 <= i < all.len() implies {
                &&& unescape((#[trigger] inner[i]).key) == bytes_text(all[i].name@)
                &&& elements(inner[i].value) == opened(all[i].rules@).map_values(
                    |n: RuleNode| rule_read_text(n),
                )
            } by {
                law_strings_unescape(bytes_text(all[i].name@));
                lemma_shown_rules(all[i].rules@);
            }
        },
        Err(error) => {
            lemma_string_value(error@);
            let f = seq![
                raw_field("present"@, "false"@),
                raw_field("layers"@, "{}"@),
                raw_field("error"@, escape_text(error@)),
            ];
            assert forall|i: int| 0 <= i < f.len() implies closes((#[trigger] f[i]).key) && whole(
                f[i].value,
            ) by {
                assert(closes(f[0].key) && whole(f[0].value));
                assert(closes(f[1].key) && whole(f[1].value));
                assert(closes(f[2].key) && whole(f[2].value));
            }
            law_objects_read_back(f);
            lemma_absence_shape(escape_text(error@));
        },
    }
}

} // verus!
