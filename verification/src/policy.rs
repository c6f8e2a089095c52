//! Policy authoring: how the rules under Machine\System\Network\Rules are
//! shown, and how an authored rule is written and deleted.
//!
//! The daemon is an observer and an authoring surface, never in the
//! enforcement path: the kernel reads the subtree itself and re-walks on
//! change, so an edit here becomes a new policy generation (or a loudly-kept
//! old one, when validation refuses it: the engine status carries the
//! verdict). Multi-key edits ride one registry transaction so the kernel's
//! watch never sees a half-written rule.

use crate::bytes::{
    find_zero, le32, le64, le_bytes, push_bytes, push_le, read_le32, read_le64, until_zero,
};
use crate::http::pairs;
use crate::json::{array_text, escape, escape_text, hex, hex_text};
use crate::policy_laws::law_integers_read_back;
use crate::report::array_of;
use crate::text::{
    bytes_text, chars_of, debug_format, debug_text, decimal, find_char, first_at, int_text, join,
    join_texts, lemma_first_at_contains, lemma_join_push, parse_int, parse_integer, push_decimal,
    push_int, same_bytes, same_text, text_from, text_of, texts, trim_bounds, trimmed,
};
use crate::walk::{Walk, WalkAction, WalkView};
use vstd::prelude::*;
use vstd::slice::{slice_subrange, slice_to_vec};
use vstd::string::{StrSliceExecFns, StringExecFns};
use vstd::utf8::encode_utf8;

verus! {

/// How deep a rule may be nested.
pub const MAX_DEPTH: usize = 12;

/// The type of a registry value.
#[allow(non_camel_case_types)]
#[derive(Clone, Copy, PartialEq, Eq, Structural, Debug)]
pub enum ValueType {
    SZ,
    EXPAND_SZ,
    DWORD,
    QWORD,
    MULTI_SZ,
    /// Any other type, by its number.
    OTHER(u32),
}

// ---------------------------------------------------------------------------
// Showing values
// ---------------------------------------------------------------------------
/// The signed integer of a 64-bit word.
pub open spec fn signed64(w: int) -> int {
    if w >= 0x8000_0000_0000_0000 {
        w - 0x1_0000_0000_0000_0000
    } else {
        w
    }
}

fn to_signed64(w: u64) -> (r: i64)
    ensures
        r == signed64(w as int),
{
    if w >= 0x8000_0000_0000_0000 {
        (w as i128 - 0x1_0000_0000_0000_0000) as i64
    } else {
        w as i64
    }
}

/// The pieces of a byte string between its zero bytes.
pub open spec fn zero_split(data: Seq<u8>) -> Seq<Seq<u8>>
    decreases data.len(),
{
    if data.len() == 0 {
        seq![seq![]]
    } else {
        let before = zero_split(data.drop_last());
        if data.last() == 0 {
            before.push(seq![])
        } else {
            before.drop_last().push(before.last().push(data.last()))
        }
    }
}

/// The strings of a string list, as JSON: the pieces that are not empty.
pub open spec fn multi_strings(data: Seq<u8>) -> Seq<Seq<char>> {
    zero_split(data).filter(|p: Seq<u8>| p.len() > 0).map_values(
        |p: Seq<u8>| escape_text(bytes_text(p)),
    )
}

/// The kind of a value, as the viewer names it.
pub open spec fn kind_text(ty: ValueType) -> Seq<char> {
    match ty {
        ValueType::SZ => "sz"@,
        ValueType::EXPAND_SZ => "sz"@,
        ValueType::DWORD => "dword"@,
        ValueType::QWORD => "qword"@,
        ValueType::MULTI_SZ => "multi"@,
        ValueType::OTHER(n) => "type-"@ + decimal(n as nat),
    }
}

/// A value as JSON.
pub open spec fn value_text(ty: ValueType, data: Seq<u8>) -> Seq<char> {
    match ty {
        ValueType::SZ => escape_text(bytes_text(until_zero(data))),
        ValueType::EXPAND_SZ => escape_text(bytes_text(until_zero(data))),
        ValueType::DWORD => if data.len() == 4 {
            decimal(le32(data, 0))
        } else {
            "null"@
        },
        ValueType::QWORD => if data.len() == 8 {
            int_text(signed64(le64(data, 0) as int))
        } else {
            "null"@
        },
        ValueType::MULTI_SZ => array_text(multi_strings(data)),
        ValueType::OTHER(_) => escape_text(hex_text(data)),
    }
}

/// A zero-terminated string as JSON.
fn string_json(data: &[u8]) -> (r: String)
    ensures
        r@ == escape_text(bytes_text(until_zero(data@))),
{
    let end = find_zero(data);
    escape(text_from(slice_subrange(data, 0, end)).as_str())
}

/// A string list as JSON.
fn multi_json(data: &[u8]) -> (r: String)
    ensures
        r@ == array_text(multi_strings(data@)),
{
    let ghost full = |p: Seq<u8>| p.len() > 0;
    let ghost shown = |p: Seq<u8>| escape_text(bytes_text(p));
    let mut parts: Vec<String> = Vec::new();
    let mut piece: Vec<u8> = Vec::new();
    let mut i: usize = 0;
    let ghost mut done: Seq<Seq<u8>> = seq![];
    proof {
        reveal(Seq::filter);
        assert(data@.take(0) == Seq::<u8>::empty());
        assert(zero_split(data@.take(0)) == done.push(piece@));
        assert(texts(parts@) == done.filter(full).map_values(shown));
    }
    while i < data.len()
        invariant
            i <= data@.len(),
            full == (|p: Seq<u8>| p.len() > 0),
            shown == (|p: Seq<u8>| escape_text(bytes_text(p))),
            zero_split(data@.take(i as int)) == done.push(piece@),
            texts(parts@) == done.filter(full).map_values(shown),
        decreases data@.len() - i,
    {
        let b = data[i];
        proof {
            assert(data@.take(i + 1).drop_last() == data@.take(i as int));
            assert(done.push(piece@).last() == piece@);
            assert(done.push(piece@).drop_last() == done);
        }
        if b == 0 {
            let ghost was = done;
            let ghost before = texts(parts@);
            proof {
                reveal(Seq::filter);
                done = done.push(piece@);
                assert(done.drop_last() == was);
            }
            if piece.len() > 0 {
                let s = escape(text_from(piece.as_slice()).as_str());
                parts.push(s);
                assert(texts(parts@) == before.push(shown(piece@)));
                assert(done.filter(full) == was.filter(full).push(piece@));
                assert(texts(parts@) == done.filter(full).map_values(shown));
            }
            piece = Vec::new();
        } else {
            piece.push(b);
        }
        i += 1;
    }
    proof {
        reveal(Seq::filter);
        assert(data@.take(i as int) == data@);
        assert(done.push(piece@).drop_last() == done);
    }
    let ghost before = texts(parts@);
    if piece.len() > 0 {
        let s = escape(text_from(piece.as_slice()).as_str());
        parts.push(s);
        assert(texts(parts@) == before.push(shown(piece@)));
        assert(done.push(piece@).filter(full) == done.filter(full).push(piece@));
    }
    assert(texts(parts@) == done.push(piece@).filter(full).map_values(shown));
    array_of(parts.as_slice())
}

/// A value for the viewer: its kind, and the value as JSON.
pub fn decode_value(ty: ValueType, data: &[u8]) -> (r: (String, String))
    ensures
        r.0@ == kind_text(ty),
        r.1@ == value_text(ty, data@),
{
    match ty {
        ValueType::SZ => ("sz".to_owned(), string_json(data)),
        ValueType::EXPAND_SZ => ("sz".to_owned(), string_json(data)),
        ValueType::DWORD => {
            if data.len() == 4 {
                let mut v = String::new();
                push_decimal(&mut v, read_le32(data, 0) as u128);
                assert(v@ == value_text(ty, data@));
                ("dword".to_owned(), v)
            } else {
                ("dword".to_owned(), "null".to_owned())
            }
        },
        ValueType::QWORD => {
            if data.len() == 8 {
                let mut v = String::new();
                push_int(&mut v, to_signed64(read_le64(data, 0)) as i128);
                assert(v@ == value_text(ty, data@));
                ("qword".to_owned(), v)
            } else {
                ("qword".to_owned(), "null".to_owned())
            }
        },
        ValueType::MULTI_SZ => ("multi".to_owned(), multi_json(data)),
        ValueType::OTHER(n) => {
            let mut kind = String::new();
            kind.append("type-");
            push_decimal(&mut kind, n as u128);
            assert(kind@ == kind_text(ty));
            (kind, escape(hex(data).as_str()))
        },
    }
}

// ---------------------------------------------------------------------------
// Showing rules
// ---------------------------------------------------------------------------
/// A value of a rule, as read from the registry.
pub struct ValueRecord {
    pub name: Vec<u8>,
    pub ty: ValueType,
    pub data: Vec<u8>,
}

/// A rule that was opened, with what reading it from the registry gave.
pub struct RuleNode {
    pub name: Vec<u8>,
    /// Its values, if they could be read.
    pub values: Option<Vec<ValueRecord>>,
    /// Its exceptions; nothing for one that could not be listed or opened.
    pub children: Vec<Option<RuleNode>>,
}

/// A layer that was opened, with what reading it from the registry gave.
pub struct LayerRead {
    pub name: Vec<u8>,
    /// Its rules; nothing for one that could not be listed or opened.
    pub rules: Vec<Option<RuleNode>>,
}

/// Whether the exceptions of a rule at a depth are looked at.
pub open spec fn looked_below(depth: nat) -> bool {
    depth < MAX_DEPTH
}

/// Whether the exceptions of a rule at a depth are looked at.
pub fn descends(depth: usize) -> (r: bool)
    ensures
        r == looked_below(depth as nat),
{
    depth < MAX_DEPTH
}

/// A name from the registry as JSON.
pub open spec fn name_json_text(name: Seq<u8>) -> Seq<char> {
    escape_text(bytes_text(name))
}

/// A value of a rule as it stands in the rule's JSON.
pub open spec fn record_text(v: ValueRecord) -> Seq<char> {
    name_json_text(v.name@) + ":{\"kind\":\""@ + kind_text(v.ty) + "\",\"value\":"@ + value_text(
        v.ty,
        v.data@,
    ) + "}"@
}

/// The values of a rule as JSON, without the braces around them.
pub open spec fn values_text(values: Seq<ValueRecord>) -> Seq<char> {
    join(values.map_values(|v: ValueRecord| record_text(v)), seq![','])
}

/// Whether a rule was read whole: its values, and its exceptions down to the
/// greatest depth.
pub open spec fn readable(node: RuleNode, depth: nat) -> bool
    decreases MAX_DEPTH - depth, 0nat,
{
    &&& node.values is Some
    &&& depth < MAX_DEPTH ==> all_readable(node.children@, node.children@.len(), depth + 1)
}

/// Whether the first `n` of a sequence of rules were opened and read whole.
pub open spec fn all_readable(rules: Seq<Option<RuleNode>>, n: nat, depth: nat) -> bool
    decreases MAX_DEPTH - depth, n,
{
    n > 0 ==> all_readable(rules, (n - 1) as nat, depth) && rules[n - 1] is Some && readable(
        rules[n - 1]->0,
        depth,
    )
}

/// A rule as JSON, with its exceptions down to the greatest depth.
pub open spec fn rule_text(node: RuleNode, depth: nat) -> Seq<char>
    decreases MAX_DEPTH - depth, 0nat,
{
    let children = if depth < MAX_DEPTH {
        rules_text(node.children@, node.children@.len(), depth + 1)
    } else {
        seq![]
    };
    "{\"name\":"@ + name_json_text(node.name@) + ",\"values\":{"@ + values_text(node.values->0@)
        + "},\"children\":["@ + children + "]}"@
}

/// The first `n` of a sequence of rules as JSON, with commas between them.
pub open spec fn rules_text(rules: Seq<Option<RuleNode>>, n: nat, depth: nat) -> Seq<char>
    decreases MAX_DEPTH - depth, n,
{
    if n == 0 {
        seq![]
    } else if n == 1 {
        rule_text(rules[0]->0, depth)
    } else {
        rules_text(rules, (n - 1) as nat, depth) + seq![','] + rule_text(rules[n - 1]->0, depth)
    }
}

/// A rule of a layer as JSON: one that could not be read whole is only named.
pub open spec fn rule_read_text(node: RuleNode) -> Seq<char> {
    if readable(node, 0) {
        rule_text(node, 0)
    } else {
        "{\"name\":"@ + name_json_text(node.name@)
            + ",\"values\":{},\"children\":[],\"error\":true}"@
    }
}

/// The rules of a layer as JSON: those that could be opened.
pub open spec fn shown_rules(rules: Seq<Option<RuleNode>>) -> Seq<Seq<char>>
    decreases rules.len(),
{
    if rules.len() == 0 {
        seq![]
    } else {
        match rules.last() {
            Some(node) => shown_rules(rules.drop_last()).push(rule_read_text(node)),
            None => shown_rules(rules.drop_last()),
        }
    }
}

/// A layer as it stands in the policy's JSON.
pub open spec fn layer_text(l: LayerRead) -> Seq<char> {
    name_json_text(l.name@) + ":"@ + array_text(shown_rules(l.rules@))
}

/// The layers as they stand in the policy's JSON: those that could be opened.
pub open spec fn shown_layers(layers: Seq<Option<LayerRead>>) -> Seq<Seq<char>>
    decreases layers.len(),
{
    if layers.len() == 0 {
        seq![]
    } else {
        match layers.last() {
            Some(l) => shown_layers(layers.drop_last()).push(layer_text(l)),
            None => shown_layers(layers.drop_last()),
        }
    }
}

/// The policy as JSON.
pub open spec fn policy_text(read: Result<Vec<Option<LayerRead>>, String>) -> Seq<char> {
    match read {
        Ok(layers) => "{\"present\":true,\"layers\":{"@ + join(shown_layers(layers@), seq![','])
            + "}}"@,
        Err(err) => "{\"present\":false,\"layers\":{},\"error\":"@ + escape_text(err@) + "}"@,
    }
}

fn push_name(out: &mut String, name: &[u8])
    ensures
        final(out)@ == old(out)@ + name_json_text(name@),
{
    out.append(escape(text_from(name).as_str()).as_str());
}

fn push_record(out: &mut String, v: &ValueRecord)
    ensures
        final(out)@ == old(out)@ + record_text(*v),
{
    let (kind, value) = decode_value(v.ty, v.data.as_slice());
    push_name(out, v.name.as_slice());
    out.append(":{\"kind\":\"");
    out.append(kind.as_str());
    out.append("\",\"value\":");
    out.append(value.as_str());
    out.append("}");
    assert(out@ == old(out)@ + record_text(*v));
}

/// Joining one more piece to what was joined already.
proof fn lemma_join_next(all: Seq<Seq<char>>, i: int)
    requires
        0 <= i < all.len(),
    ensures
        join(all.take(i + 1), seq![',']) == if i == 0 {
            all[0]
        } else {
            join(all.take(i), seq![',']) + seq![','] + all[i]
        },
{
    assert(all.take(i + 1) == all.take(i).push(all[i]));
    lemma_join_push(all.take(i), seq![','], all[i]);
}

fn push_values(out: &mut String, values: &[ValueRecord])
    ensures
        final(out)@ == old(out)@ + values_text(values@),
{
    let ghost shown = values@.map_values(|v: ValueRecord| record_text(v));
    let mut i: usize = 0;
    assert(out@ + join(shown.take(0), seq![',']) == out@);
    while i < values.len()
        invariant
            i <= values@.len(),
            shown == values@.map_values(|v: ValueRecord| record_text(v)),
            out@ == old(out)@ + join(shown.take(i as int), seq![',']),
        decreases values@.len() - i,
    {
        proof {
            lemma_join_next(shown, i as int);
        }
        if i > 0 {
            out.push(',');
        }
        push_record(out, &values[i]);
        i += 1;
        assert(out@ == old(out)@ + join(shown.take(i as int), seq![',']));
    }
    assert(shown.take(i as int) == shown);
}

proof fn lemma_one_unreadable(rules: Seq<Option<RuleNode>>, k: nat, n: nat, depth: nat)
    requires
        k < n,
        !(rules[k as int] is Some && readable(rules[k as int]->0, depth)),
    ensures
        !all_readable(rules, n, depth),
    decreases n,
{
    if n > k + 1 {
        lemma_one_unreadable(rules, k, (n - 1) as nat, depth);
    }
}

fn push_children(out: &mut String, node: &RuleNode, depth: usize) -> (whole: bool)
    requires
        depth < MAX_DEPTH,
    ensures
        whole == all_readable(node.children@, node.children@.len(), depth as nat + 1),
        old(out)@.is_prefix_of(final(out)@),
        whole ==> final(out)@ == old(out)@ + rules_text(
            node.children@,
            node.children@.len(),
            depth as nat + 1,
        ),
    decreases MAX_DEPTH - depth, 0int,
{
    let mut k: usize = 0;
    assert(out@ + rules_text(node.children@, 0, depth as nat + 1) == out@);
    while k < node.children.len()
        invariant
            depth < MAX_DEPTH,
            k <= node.children@.len(),
            all_readable(node.children@, k as nat, depth as nat + 1),
            out@ == old(out)@ + rules_text(node.children@, k as nat, depth as nat + 1),
        decreases node.children@.len() - k,
    {
        if k > 0 {
            out.push(',');
        }
        let whole = match &node.children[k] {
            Some(child) => rule_to_json(child, depth + 1, out),
            None => false,
        };
        if !whole {
            proof {
                lemma_one_unreadable(
                    node.children@,
                    k as nat,
                    node.children@.len(),
                    depth as nat + 1,
                );
            }
            return false;
        }
        k += 1;
        assert(out@ == old(out)@ + rules_text(node.children@, k as nat, depth as nat + 1));
    }
    true
}

/// Appends a rule as JSON, if it was read whole. Of one that was not, it appends
/// what comes before the part that could not be read.
fn rule_to_json(node: &RuleNode, depth: usize, out: &mut String) -> (whole: bool)
    requires
        depth <= MAX_DEPTH,
    ensures
        whole == readable(*node, depth as nat),
        old(out)@.is_prefix_of(final(out)@),
        whole ==> final(out)@ == old(out)@ + rule_text(*node, depth as nat),
    decreases MAX_DEPTH - depth, 1int,
{
    out.append("{\"name\":");
    push_name(out, node.name.as_slice());
    out.append(",\"values\":{");
    match &node.values {
        Some(values) => push_values(out, values.as_slice()),
        None => {
            return false;
        },
    }
    out.append("},\"children\":[");
    let ghost middle = out@;
    if descends(depth) {
        if !push_children(out, node, depth) {
            return false;
        }
    } else {
        assert(middle + Seq::<char>::empty() == middle);
    }
    out.append("]}");
    assert(out@ == old(out)@ + rule_text(*node, depth as nat));
    true
}

fn rule_json(node: &RuleNode) -> (r: String)
    ensures
        r@ == rule_read_text(*node),
{
    let mut out = String::new();
    if rule_to_json(node, 0, &mut out) {
        assert(out@ == rule_text(*node, 0));
        return out;
    }
    let mut named = String::new();
    named.append("{\"name\":");
    push_name(&mut named, node.name.as_slice());
    named.append(",\"values\":{},\"children\":[],\"error\":true}");
    assert(named@ == rule_read_text(*node));
    named
}

fn layer_json(l: &LayerRead) -> (r: String)
    ensures
        r@ == layer_text(*l),
{
    let mut rules: Vec<String> = Vec::new();
    let mut i: usize = 0;
    assert(l.rules@.take(0) == Seq::<Option<RuleNode>>::empty());
    assert(texts(rules@) == shown_rules(l.rules@.take(0)));
    while i < l.rules.len()
        invariant
            i <= l.rules@.len(),
            texts(rules@) == shown_rules(l.rules@.take(i as int)),
        decreases l.rules@.len() - i,
    {
        let ghost before = texts(rules@);
        proof {
            assert(l.rules@.take(i + 1).drop_last() == l.rules@.take(i as int));
            assert(l.rules@.take(i + 1).last() == l.rules@[i as int]);
        }
        if let Some(node) = &l.rules[i] {
            rules.push(rule_json(node));
            assert(texts(rules@) == before.push(rule_read_text(*node)));
        }
        i += 1;
    }
    assert(l.rules@.take(i as int) == l.rules@);
    let mut out = String::new();
    push_name(&mut out, l.name.as_slice());
    out.append(":");
    out.append(array_of(rules.as_slice()).as_str());
    assert(out@ == layer_text(*l));
    out
}

/// The whole policy tree as JSON:
/// {"present":bool,"layers":{"Packet":[rule...],"RawPacket":[rule...]}}
///
/// It is made of the layers that were read; nothing stands for one that could
/// not be listed or opened. Without the Rules key it says why.
pub fn read_policy(read: &Result<Vec<Option<LayerRead>>, String>) -> (r: String)
    ensures
        r@ == policy_text(*read),
{
    let mut out = String::new();
    let layers = match read {
        Ok(layers) => layers,
        Err(err) => {
            out.append("{\"present\":false,\"layers\":{},\"error\":");
            out.append(escape(err.as_str()).as_str());
            out.append("}");
            assert(out@ == policy_text(*read));
            return out;
        },
    };
    let mut shown: Vec<String> = Vec::new();
    let mut i: usize = 0;
    assert(layers@.take(0) == Seq::<Option<LayerRead>>::empty());
    assert(texts(shown@) == shown_layers(layers@.take(0)));
    while i < layers.len()
        invariant
            i <= layers@.len(),
            texts(shown@) == shown_layers(layers@.take(i as int)),
        decreases layers@.len() - i,
    {
        let ghost before = texts(shown@);
        proof {
            assert(layers@.take(i + 1).drop_last() == layers@.take(i as int));
            assert(layers@.take(i + 1).last() == layers@[i as int]);
        }
        if let Some(l) = &layers[i] {
            shown.push(layer_json(l));
            assert(texts(shown@) == before.push(layer_text(*l)));
        }
        i += 1;
    }
    assert(layers@.take(i as int) == layers@);
    out.append("{\"present\":true,\"layers\":{");
    out.append(join_texts(shown.as_slice(), ",").as_str());
    out.append("}}");
    proof {
        reveal_strlit(",");
        assert(","@ == seq![',']);
    }
    assert(out@ == policy_text(*read));
    out
}

// ---------------------------------------------------------------------------
// Typing authored values
// ---------------------------------------------------------------------------
/// How many parentheses are open behind a text. A closing one without its
/// opening one counts for nothing.
pub open spec fn open_parens(s: Seq<char>) -> nat
    decreases s.len(),
{
    if s.len() == 0 {
        0
    } else {
        let before = open_parens(s.drop_last());
        if s.last() == '(' {
            before + 1
        } else if s.last() == ')' && before > 0 {
            (before - 1) as nat
        } else {
            before
        }
    }
}

/// The pieces of a text between the commas that stand outside parentheses.
pub open spec fn top_level(s: Seq<char>) -> Seq<Seq<char>>
    decreases s.len(),
{
    if s.len() == 0 {
        seq![seq![]]
    } else {
        let before = top_level(s.drop_last());
        if s.last() == ',' && open_parens(s.drop_last()) == 0 {
            before.push(seq![])
        } else {
            before.drop_last().push(before.last().push(s.last()))
        }
    }
}

/// String slices as texts.
pub open spec fn slices(v: Seq<&str>) -> Seq<Seq<char>> {
    v.map_values(|s: &str| s@)
}

/// Splits on commas at parenthesis depth zero.
pub fn split_top_level<'a>(raw: &'a str) -> (parts: Vec<&'a str>)
    ensures
        slices(parts@) == top_level(raw@),
{
    let chars = chars_of(raw);
    let count: usize = chars.len();
    let mut parts: Vec<&'a str> = Vec::new();
    let mut depth: usize = 0;
    let mut start: usize = 0;
    let mut i: usize = 0;
    proof {
        assert(raw@.take(0) == Seq::<char>::empty());
        assert(slices(parts@).push(raw@.subrange(0, 0)) == top_level(raw@.take(0)));
    }
    while i < count
        invariant
            chars@ == raw@,
            start <= i <= count,
            count == chars@.len(),
            depth <= i,
            depth == open_parens(raw@.take(i as int)),
            slices(parts@).push(raw@.subrange(start as int, i as int)) == top_level(
                raw@.take(i as int),
            ),
        decreases count - i,
    {
        let c = chars[i];
        let ghost before = slices(parts@);
        let ghost piece = raw@.subrange(start as int, i as int);
        proof {
            assert(raw@.take(i + 1).drop_last() == raw@.take(i as int));
            assert(raw@.take(i + 1).last() == c);
            assert(before.push(piece).last() == piece);
            assert(before.push(piece).drop_last() == before);
        }
        if c == '(' {
            depth += 1;
        } else if c == ')' {
            if depth > 0 {
                depth -= 1;
            }
        } else if c == ',' && depth == 0 {
            let part = raw.substring_char(start, i);
            parts.push(part);
            assert(slices(parts@) == before.push(piece));
            start = i + 1;
        }
        i += 1;
        proof {
            if start == i {
                assert(raw@.subrange(start as int, i as int) == Seq::<char>::empty());
            } else {
                assert(raw@.subrange(start as int, i as int) == piece.push(c));
            }
            assert(slices(parts@).push(raw@.subrange(start as int, i as int)) == top_level(
                raw@.take(i as int),
            ));
        }
    }
    let ghost before = slices(parts@);
    let last = raw.substring_char(start, count);
    parts.push(last);
    assert(raw@.take(i as int) == raw@);
    assert(slices(parts@) == before.push(last@));
    parts
}

/// The type that a prefix forces on an authored value.
#[derive(Clone, Copy, PartialEq, Eq, Structural, Debug)]
pub enum Forced {
    No,
    Multi,
    Sz,
    Int,
}

/// The type that an authored text forces: what stands before its first colon,
/// where that is `multi`, `sz` or `int`.
pub open spec fn forced(raw: Seq<char>) -> Forced {
    let k = raw.take(first_at(raw, ':'));
    if first_at(raw, ':') == raw.len() {
        Forced::No
    } else if k == "multi"@ {
        Forced::Multi
    } else if k == "sz"@ {
        Forced::Sz
    } else if k == "int"@ {
        Forced::Int
    } else {
        Forced::No
    }
}

/// An authored text without the prefix that forces its type.
pub open spec fn unforced(raw: Seq<char>) -> Seq<char> {
    if forced(raw) == Forced::No {
        raw
    } else {
        raw.skip(first_at(raw, ':') + 1)
    }
}

/// Whether an authored value becomes a string list.
pub open spec fn becomes_multi(name: Seq<char>, raw: Seq<char>) -> bool {
    ||| forced(raw) == Forced::Multi
    ||| forced(raw) == Forced::No && (name == "Actions"@ || top_level(unforced(raw)).len() > 1)
}

/// The integer that an authored value becomes, if it becomes one.
pub open spec fn becomes_int(name: Seq<char>, raw: Seq<char>) -> Option<int> {
    if becomes_multi(name, raw) || forced(raw) == Forced::Sz {
        None
    } else {
        parse_int(trimmed(unforced(raw)))
    }
}

/// The bytes of a string list: each piece without the white space around it,
/// where anything is left, and a zero byte behind it; and one more zero byte.
pub open spec fn multi_bytes(parts: Seq<Seq<char>>) -> Seq<u8> {
    multi_body(parts).push(0)
}

/// The strings of a string list, each with its zero byte.
pub open spec fn multi_body(parts: Seq<Seq<char>>) -> Seq<u8>
    decreases parts.len(),
{
    if parts.len() == 0 {
        seq![]
    } else {
        let part = trimmed(parts.last());
        if part.len() == 0 {
            multi_body(parts.drop_last())
        } else {
            (multi_body(parts.drop_last()) + encode_utf8(part)).push(0)
        }
    }
}

/// The type of an authored value.
pub open spec fn encoded_type(name: Seq<char>, raw: Seq<char>) -> ValueType {
    if becomes_multi(name, raw) {
        ValueType::MULTI_SZ
    } else {
        match becomes_int(name, raw) {
            Some(v) => if 0 <= v <= u32::MAX {
                ValueType::DWORD
            } else {
                ValueType::QWORD
            },
            None => ValueType::SZ,
        }
    }
}

/// The bytes of an authored value.
pub open spec fn encoded_data(name: Seq<char>, raw: Seq<char>) -> Seq<u8> {
    if becomes_multi(name, raw) {
        multi_bytes(top_level(unforced(raw)))
    } else {
        match becomes_int(name, raw) {
            Some(v) => if 0 <= v <= u32::MAX {
                le_bytes(v as nat, 4)
            } else {
                le_bytes((v % 0x1_0000_0000_0000_0000) as nat, 8)
            },
            None => encode_utf8(unforced(raw)).push(0),
        }
    }
}

fn encode_multi(parts: &[&str]) -> (data: Vec<u8>)
    ensures
        data@ == multi_bytes(slices(parts@)),
{
    let mut data: Vec<u8> = Vec::new();
    let ghost all = slices(parts@);
    let mut i: usize = 0;
    assert(all.take(0) == Seq::<Seq<char>>::empty());
    while i < parts.len()
        invariant
            i <= parts@.len(),
            all == slices(parts@),
            data@ == multi_body(all.take(i as int)),
        decreases parts@.len() - i,
    {
        let chars = chars_of(parts[i]);
        assert(all.take(i + 1).drop_last() == all.take(i as int));
        assert(all.take(i + 1).last() == chars@);
        let (from, to) = trim_bounds(chars.as_slice());
        if from < to {
            let part = text_of(chars.as_slice(), from, to);
            push_bytes(&mut data, part.as_str().as_bytes());
            data.push(0);
        }
        i += 1;
    }
    assert(all.take(i as int) == all);
    data.push(0);
    data
}

/// An integer of 64 bits, signed or unsigned, as a 64-bit word.
fn word_of(v: i128) -> (r: u64)
    requires
        i64::MIN <= v <= u64::MAX,
    ensures
        r == v as int % 0x1_0000_0000_0000_0000,
{
    if v < 0 {
        (v + 0x1_0000_0000_0000_0000) as u64
    } else {
        v as u64
    }
}

/// The integer that an authored one is shown as: a qword is shown signed.
pub open spec fn shown_int(v: int) -> int {
    if v > i64::MAX {
        v - 0x1_0000_0000_0000_0000
    } else {
        v
    }
}

/// Typing convention for authored values, matching what the kernel walk
/// accepts: Actions and comma-separated inputs become multi; integers become
/// dword (qword when negative or too big); everything else is sz.
/// `multi:`/`sz:`/`int:` prefixes force a type. A qword holds what fits in 64
/// bits, signed or unsigned; since it is shown signed, an integer beyond the
/// signed range is shown as the negative one with the same bits.
pub fn encode_value(name: &str, raw: &str) -> (r: (ValueType, Vec<u8>))
    ensures
        r.0 == encoded_type(name@, raw@),
        r.1@ == encoded_data(name@, raw@),
        becomes_int(name@, raw@) matches Some(v) ==> value_text(r.0, r.1@) == int_text(
            shown_int(v),
        ),
{
    proof {
        if becomes_int(name@, raw@) is Some {
            law_integers_read_back(name@, raw@);
        }
    }
    let chars = chars_of(raw);
    let c = chars.as_slice();
    assert(c@.skip(0) == raw@);
    let colon = find_char(c, 0, ':');
    let mut force = Forced::No;
    let mut from: usize = 0;
    if colon < c.len() {
        let k = text_of(c, 0, colon);
        assert(k@ == raw@.take(colon as int));
        if same_text(k.as_str(), "multi") {
            force = Forced::Multi;
            from = colon + 1;
        } else if same_text(k.as_str(), "sz") {
            force = Forced::Sz;
            from = colon + 1;
        } else if same_text(k.as_str(), "int") {
            force = Forced::Int;
            from = colon + 1;
        }
    }
    let rest = text_of(c, from, c.len());
    assert(rest@ == unforced(raw@));
    // Action expressions carry commas of their own (`TAG(x, Add)`,
    // `COUNT(x, Length)`, `PROMPT(a, DROP)`), so only commas outside
    // parentheses separate list elements.
    let parts = split_top_level(rest.as_str());
    assert(slices(parts@).len() == parts@.len());
    if force == Forced::Multi || (force == Forced::No && (same_text(name, "Actions") || parts.len()
        > 1)) {
        return (ValueType::MULTI_SZ, encode_multi(parts.as_slice()));
    }
    if force != Forced::Sz {
        let r = chars_of(rest.as_str());
        let (start, end) = trim_bounds(r.as_slice());
        if let Some(v) = parse_integer(slice_subrange(r.as_slice(), start, end)) {
            let mut data: Vec<u8> = Vec::new();
            if 0 <= v && v <= u32::MAX as i128 {
                push_le(&mut data, v as u64, 4);
                assert(data@ == encoded_data(name@, raw@));
                return (ValueType::DWORD, data);
            }
            push_le(&mut data, word_of(v), 8);
            assert(data@ == encoded_data(name@, raw@));
            return (ValueType::QWORD, data);
        }
    }
    let mut data: Vec<u8> = Vec::new();
    push_bytes(&mut data, rest.as_str().as_bytes());
    data.push(0);
    assert(data@ == encoded_data(name@, raw@));
    (ValueType::SZ, data)
}

// ---------------------------------------------------------------------------
// Writing and deleting rules
// ---------------------------------------------------------------------------
/// Whether a text cannot be a key name of its own: it is empty, holds a
/// separator, or is longer than 128 bytes.
pub open spec fn bad_segment(seg: Seq<char>) -> bool {
    ||| seg.len() == 0
    ||| seg.contains('\\')
    ||| seg.contains('/')
    ||| encode_utf8(seg).len() > 128
}

/// Why a segment is refused.
pub open spec fn segment_error(seg: Seq<char>) -> Seq<char> {
    "bad path segment: "@ + debug_text(seg)
}

/// The refusal of a segment, from the form in which it is quoted.
pub fn segment_refusal(quoted: &str) -> (r: String)
    ensures
        r@ == "bad path segment: "@ + quoted@,
{
    let mut why = String::new();
    why.append("bad path segment: ");
    why.append(quoted);
    assert(why@ == "bad path segment: "@ + quoted@);
    why
}

/// Checks one segment of a rule's path.
pub fn validate_segment(seg: &str) -> (r: Result<(), String>)
    ensures
        match r {
            Ok(_) => !bad_segment(seg@),
            Err(why) => bad_segment(seg@) && why@ == segment_error(seg@),
        },
{
    let chars = chars_of(seg);
    let c = chars.as_slice();
    assert(c@.skip(0) == seg@);
    proof {
        lemma_first_at_contains(seg@, '\\');
        lemma_first_at_contains(seg@, '/');
    }
    if c.len() == 0 || find_char(c, 0, '\\') < c.len() || find_char(c, 0, '/') < c.len()
        || seg.as_bytes().len() > 128 {
        return Err(segment_refusal(debug_format(seg).as_str()));
    }
    Ok(())
}

/// Why a path is refused for one of its segments: the first bad one.
pub open spec fn segments_error(path: Seq<Seq<char>>) -> Option<Seq<char>>
    decreases path.len(),
{
    if path.len() == 0 {
        None
    } else if bad_segment(path[0]) {
        Some(segment_error(path[0]))
    } else {
        segments_error(path.skip(1))
    }
}

fn validate_path(path: &[String]) -> (r: Result<(), String>)
    ensures
        match r {
            Ok(_) => segments_error(texts(path@)) is None,
            Err(why) => segments_error(texts(path@)) == Some(why@),
        },
{
    let ghost all = texts(path@);
    let mut i: usize = 0;
    assert(all.skip(0) == all);
    while i < path.len()
        invariant
            i <= path@.len(),
            all == texts(path@),
            segments_error(all.skip(i as int)) == segments_error(all),
        decreases path@.len() - i,
    {
        assert(all.skip(i as int)[0] == path@[i as int]@);
        assert(all.skip(i as int).skip(1) == all.skip(i + 1));
        match validate_segment(path[i].as_str()) {
            Ok(_) => {},
            Err(why) => {
                return Err(why);
            },
        }
        i += 1;
    }
    Ok(())
}

/// One step of an edit in the registry.
pub enum RegistryOp {
    /// Open the Rules key: to write below it, or only to walk it.
    OpenRoot(bool),
    BeginTransaction,
    /// Create the key of a name below the last one, or open it if it is there.
    CreateKey(String),
    /// Open the key of a name below the last one, so that it can be deleted.
    OpenKey(String),
    /// Ask for the names of the last key's values.
    QueryValues,
    DeleteValue(Vec<u8>),
    SetValue(Vec<u8>, ValueType, Vec<u8>),
    Commit,
}

/// One step of an edit, as plain values.
pub enum Op {
    OpenRoot(bool),
    BeginTransaction,
    CreateKey(Seq<char>),
    OpenKey(Seq<char>),
    QueryValues,
    DeleteValue(Seq<u8>),
    SetValue(Seq<u8>, ValueType, Seq<u8>),
    Commit,
}

impl View for RegistryOp {
    type V = Op;

    open spec fn view(&self) -> Op {
        match self {
            RegistryOp::OpenRoot(write) => Op::OpenRoot(*write),
            RegistryOp::BeginTransaction => Op::BeginTransaction,
            RegistryOp::CreateKey(name) => Op::CreateKey(name@),
            RegistryOp::OpenKey(name) => Op::OpenKey(name@),
            RegistryOp::QueryValues => Op::QueryValues,
            RegistryOp::DeleteValue(name) => Op::DeleteValue(name@),
            RegistryOp::SetValue(name, ty, data) => Op::SetValue(name@, *ty, data@),
            RegistryOp::Commit => Op::Commit,
        }
    }
}

/// Steps as plain values.
pub open spec fn ops(v: Seq<RegistryOp>) -> Seq<Op> {
    v.map_values(|o: RegistryOp| o@)
}

/// Why writing a rule is refused, if it is.
pub open spec fn set_error(path: Seq<Seq<char>>) -> Option<Seq<char>> {
    if path.len() < 2 {
        Some("path must be <Layer>/<rule>[/exception...]"@)
    } else if path.len() > MAX_DEPTH + 1 {
        Some("rule nesting too deep"@)
    } else {
        segments_error(path)
    }
}

/// The steps that make a rule's key and ask for its values, up to the question.
pub open spec fn create_ops(path: Seq<Seq<char>>) -> Seq<Op> {
    seq![Op::OpenRoot(true), Op::BeginTransaction] + path.map_values(
        |seg: Seq<char>| Op::CreateKey(seg),
    ) + seq![Op::QueryValues]
}

/// Creates or replaces one rule's own values (children untouched): the steps up
/// to the question which values the rule has. `path` segments are relative to
/// the Rules key, e.g. ["Packet", "no-inbound", "ssh"]. The steps that answer
/// the question are `replace_values`.
pub fn set_rule(path: &[String]) -> (r: Result<Vec<RegistryOp>, String>)
    ensures
        match r {
            Ok(steps) => set_error(texts(path@)) is None && ops(steps@) == create_ops(texts(path@)),
            Err(why) => set_error(texts(path@)) == Some(why@),
        },
{
    if path.len() < 2 {
        return Err("path must be <Layer>/<rule>[/exception...]".to_owned());
    }
    if path.len() > MAX_DEPTH + 1 {
        return Err("rule nesting too deep".to_owned());
    }
    match validate_path(path) {
        Ok(_) => {},
        Err(why) => {
            return Err(why);
        },
    }
    let mut steps: Vec<RegistryOp> = Vec::new();
    steps.push(RegistryOp::OpenRoot(true));
    steps.push(RegistryOp::BeginTransaction);
    let ghost head = seq![Op::OpenRoot(true), Op::BeginTransaction];
    let ghost made = texts(path@).map_values(|seg: Seq<char>| Op::CreateKey(seg));
    let mut i: usize = 0;
    assert(ops(steps@) == head + made.take(0));
    // Chain create: one level per call.
    while i < path.len()
        invariant
            i <= path@.len(),
            made == texts(path@).map_values(|seg: Seq<char>| Op::CreateKey(seg)),
            ops(steps@) == head + made.take(i as int),
        decreases path@.len() - i,
    {
        let ghost before = ops(steps@);
        steps.push(RegistryOp::CreateKey(path[i].clone()));
        assert(ops(steps@) == before.push(made[i as int]));
        i += 1;
        assert(ops(steps@) == head + made.take(i as int));
    }
    assert(made.take(i as int) == made);
    let ghost before = ops(steps@);
    steps.push(RegistryOp::QueryValues);
    assert(ops(steps@) == before.push(Op::QueryValues));
    assert(ops(steps@) == create_ops(texts(path@)));
    Ok(steps)
}

/// Whether one of the authored values has a name.
pub open spec fn named(values: Seq<(Seq<char>, Seq<char>)>, name: Seq<u8>) -> bool {
    exists|i: int| 0 <= i < values.len() && encode_utf8((#[trigger] values[i]).0) == name
}

/// The step that writes an authored value.
pub open spec fn set_op(value: (Seq<char>, Seq<char>)) -> Op {
    Op::SetValue(
        encode_utf8(value.0),
        encoded_type(value.0, value.1),
        encoded_data(value.0, value.1),
    )
}

/// The steps that replace a rule's values: every value that is not authored
/// goes, every authored one is written, and the edit is committed.
pub open spec fn replace_ops(
    existing: Seq<Seq<u8>>,
    values: Seq<(Seq<char>, Seq<char>)>,
) -> Seq<Op> {
    existing.filter(|n: Seq<u8>| !named(values, n)).map_values(|n: Seq<u8>| Op::DeleteValue(n))
        + values.map_values(|v: (Seq<char>, Seq<char>)| set_op(v)) + seq![Op::Commit]
}

fn is_named(values: &[(String, String)], name: &[u8]) -> (r: bool)
    ensures
        r == named(pairs(values@), name@),
{
    let ghost all = pairs(values@);
    let mut i: usize = 0;
    while i < values.len()
        invariant
            i <= values@.len(),
            all == pairs(values@),
            forall|k: int| 0 <= k < i ==> encode_utf8((#[trigger] all[k]).0) != name@,
        decreases values@.len() - i,
    {
        assert(all[i as int].0 == values@[i as int].0@);
        if same_bytes(values[i].0.as_str().as_bytes(), name) {
            return true;
        }
        i += 1;
    }
    false
}

/// The steps that replace a rule's own values, from the names of the values it
/// has.
pub fn replace_values(existing: &[Vec<u8>], values: &[(String, String)]) -> (r: Vec<RegistryOp>)
    ensures
        ops(r@) == replace_ops(existing@.map_values(|n: Vec<u8>| n@), pairs(values@)),
{
    let ghost had = existing@.map_values(|n: Vec<u8>| n@);
    let ghost all = pairs(values@);
    let ghost stale = |n: Seq<u8>| !named(all, n);
    let ghost gone = |n: Seq<u8>| Op::DeleteValue(n);
    let mut steps: Vec<RegistryOp> = Vec::new();
    let mut i: usize = 0;
    proof {
        reveal(Seq::filter);
        assert(had.take(0) == Seq::<Seq<u8>>::empty());
        assert(ops(steps@) == had.take(0).filter(stale).map_values(gone));
    }
    while i < existing.len()
        invariant
            i <= existing@.len(),
            had == existing@.map_values(|n: Vec<u8>| n@),
            all == pairs(values@),
            stale == (|n: Seq<u8>| !named(all, n)),
            gone == (|n: Seq<u8>| Op::DeleteValue(n)),
            ops(steps@) == had.take(i as int).filter(stale).map_values(gone),
        decreases existing@.len() - i,
    {
        let ghost before = ops(steps@);
        proof {
            reveal(Seq::filter);
            assert(had.take(i + 1).drop_last() == had.take(i as int));
            assert(had.take(i + 1).last() == existing@[i as int]@);
        }
        if !is_named(values, existing[i].as_slice()) {
            steps.push(RegistryOp::DeleteValue(slice_to_vec(existing[i].as_slice())));
            assert(ops(steps@) == before.push(Op::DeleteValue(existing@[i as int]@)));
            assert(ops(steps@) == had.take(i + 1).filter(stale).map_values(gone));
        }
        i += 1;
    }
    assert(had.take(i as int) == had);
    let ghost deleted = ops(steps@);
    let ghost written = all.map_values(|v: (Seq<char>, Seq<char>)| set_op(v));
    let mut k: usize = 0;
    assert(ops(steps@) == deleted + written.take(0));
    while k < values.len()
        invariant
            k <= values@.len(),
            all == pairs(values@),
            written == all.map_values(|v: (Seq<char>, Seq<char>)| set_op(v)),
            ops(steps@) == deleted + written.take(k as int),
        decreases values@.len() - k,
    {
        let ghost before = ops(steps@);
        let (name, raw) = &values[k];
        let (ty, data) = encode_value(name.as_str(), raw.as_str());
        steps.push(RegistryOp::SetValue(slice_to_vec(name.as_str().as_bytes()), ty, data));
        assert(all[k as int] == (name@, raw@));
        assert(ops(steps@) == before.push(written[k as int]));
        k += 1;
        assert(ops(steps@) == deleted + written.take(k as int));
    }
    assert(written.take(k as int) == written);
    let ghost before = ops(steps@);
    steps.push(RegistryOp::Commit);
    assert(ops(steps@) == before.push(Op::Commit));
    assert(ops(steps@) == replace_ops(had, all));
    steps
}

/// Why deleting a rule is refused, if it is.
pub open spec fn delete_error(path: Seq<Seq<char>>) -> Option<Seq<char>> {
    if path.len() < 2 {
        Some("refusing to delete a whole layer"@)
    } else {
        segments_error(path)
    }
}

/// The steps that lead to a rule's key, up to the start of the transaction.
pub open spec fn reach_ops(path: Seq<Seq<char>>) -> Seq<Op> {
    seq![Op::OpenRoot(false)] + path.map_values(|seg: Seq<char>| Op::OpenKey(seg)) + seq![
        Op::BeginTransaction,
    ]
}

/// The walk that deletes what stands at a path, where it begins.
pub open spec fn walk_from(path: Seq<Seq<char>>) -> WalkView {
    WalkView { base: path.len(), pending: seq![] }
}

/// The deletion of a rule: the steps that lead to its key, the walk that deletes
/// it with its exceptions, and what the walk does first.
pub struct Deletion {
    pub steps: Vec<RegistryOp>,
    pub walk: Walk,
    pub first: WalkAction,
}

/// Deletes one rule and its exceptions. The walk begins at the rule's key, as
/// deep as the path that was checked is long.
pub fn delete_rule(path: &[String]) -> (r: Result<Deletion, String>)
    ensures
        match r {
            Ok(d) => {
                &&& delete_error(texts(path@)) is None
                &&& ops(d.steps@) == reach_ops(texts(path@))
                &&& d.walk.wf()
                &&& d.walk@ == walk_from(texts(path@))
                &&& d.first@ == d.walk@.entered()
            },
            Err(why) => delete_error(texts(path@)) == Some(why@),
        },
{
    if path.len() < 2 {
        return Err("refusing to delete a whole layer".to_owned());
    }
    match validate_path(path) {
        Ok(_) => {},
        Err(why) => {
            return Err(why);
        },
    }
    let mut steps: Vec<RegistryOp> = Vec::new();
    steps.push(RegistryOp::OpenRoot(false));
    let ghost head = seq![Op::OpenRoot(false)];
    let ghost opened = texts(path@).map_values(|seg: Seq<char>| Op::OpenKey(seg));
    let mut i: usize = 0;
    assert(ops(steps@) == head + opened.take(0));
    while i < path.len()
        invariant
            i <= path@.len(),
            opened == texts(path@).map_values(|seg: Seq<char>| Op::OpenKey(seg)),
            ops(steps@) == head + opened.take(i as int),
        decreases path@.len() - i,
    {
        let ghost before = ops(steps@);
        steps.push(RegistryOp::OpenKey(path[i].clone()));
        assert(ops(steps@) == before.push(opened[i as int]));
        i += 1;
        assert(ops(steps@) == head + opened.take(i as int));
    }
    assert(opened.take(i as int) == opened);
    let ghost before = ops(steps@);
    steps.push(RegistryOp::BeginTransaction);
    assert(ops(steps@) == before.push(Op::BeginTransaction));
    assert(ops(steps@) == reach_ops(texts(path@)));
    let (walk, first) = Walk::new(path.len());
    Ok(Deletion { steps, walk, first })
}

} // verus!
