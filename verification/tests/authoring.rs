//! Policy authoring.

use pnpd::policy::{
    decode_value, delete_rule, descends, encode_value, read_policy, replace_values, segment_refusal,
    set_rule, split_top_level, validate_segment, LayerRead, RegistryOp, RuleNode, ValueRecord,
    ValueType, MAX_DEPTH,
};
use pnpd::walk::{Walk, WalkAction, WalkEvent};

fn strings(parts: &[&str]) -> Vec<String> {
    parts.iter().map(|p| p.to_string()).collect()
}

fn authored(parts: &[(&str, &str)]) -> Vec<(String, String)> {
    parts.iter().map(|(n, v)| (n.to_string(), v.to_string())).collect()
}

/// A step of an edit in a form that can be compared.
fn shown(op: &RegistryOp) -> String {
    match op {
        RegistryOp::OpenRoot(write) => format!("root {write}"),
        RegistryOp::BeginTransaction => "begin".to_string(),
        RegistryOp::CreateKey(name) => format!("create {name}"),
        RegistryOp::OpenKey(name) => format!("open {name}"),
        RegistryOp::QueryValues => "query".to_string(),
        RegistryOp::DeleteValue(name) => format!("delete {}", String::from_utf8_lossy(name)),
        RegistryOp::SetValue(name, ty, data) => {
            format!("set {} {ty:?} {data:?}", String::from_utf8_lossy(name))
        }
        RegistryOp::Commit => "commit".to_string(),
    }
}

fn all_shown(ops: &[RegistryOp]) -> Vec<String> {
    ops.iter().map(shown).collect()
}

#[test]
fn value_typing_convention() {
    assert_eq!(encode_value("Actions", "PASS").0, ValueType::MULTI_SZ);
    assert_eq!(
        encode_value("FlowState.Equal", "established,related").0,
        ValueType::MULTI_SZ
    );
    assert_eq!(encode_value("DstPort.Equal", "22").0, ValueType::DWORD);
    assert_eq!(encode_value("Priority", "-5").0, ValueType::QWORD);
    assert_eq!(encode_value("Direction.Equal", "out").0, ValueType::SZ);
    assert_eq!(encode_value("Interface.Equal", "sz:22").0, ValueType::SZ);
    let (ty, data) = encode_value("SrcAddr.Equal", "10.0.0.0/8");
    assert_eq!(ty, ValueType::SZ);
    assert_eq!(&data[..data.len() - 1], b"10.0.0.0/8");
}

#[test]
fn segment_validation_refuses_separators() {
    assert!(validate_segment("ssh").is_ok());
    assert!(validate_segment("a\\b").is_err());
    assert!(validate_segment("a/b").is_err());
    assert!(validate_segment("").is_err());
}

#[test]
fn actions_split_only_on_top_level_commas() {
    assert_eq!(split_top_level("TAG(dnsq, Add)"), vec!["TAG(dnsq, Add)"]);
    assert_eq!(
        split_top_level("COUNT(dns),REPORT(3)"),
        vec!["COUNT(dns)", "REPORT(3)"]
    );
    assert_eq!(
        split_top_level("PROMPT(a, PROMPT(b, DROP)), PASS"),
        vec!["PROMPT(a, PROMPT(b, DROP))", " PASS"]
    );
    let (ty, data) = encode_value("Actions", "TAG(dnsq, Add)");
    assert_eq!(ty, ValueType::MULTI_SZ);
    assert_eq!(data, b"TAG(dnsq, Add)\0\0".to_vec());
}

#[test]
fn splitting_copes_with_unbalanced_parentheses() {
    assert_eq!(split_top_level(""), vec![""]);
    assert_eq!(split_top_level(","), vec!["", ""]);
    assert_eq!(split_top_level("a),b"), vec!["a)", "b"]);
    assert_eq!(split_top_level("a(,b"), vec!["a(,b"]);
    assert_eq!(split_top_level("\u{e4}(,),\u{1f600}"), vec!["\u{e4}(,)", "\u{1f600}"]);
    for s in ["", ",", "a),b(,c),,d", "x"] {
        assert_eq!(split_top_level(s).join(","), s);
    }
}

#[test]
fn integers_become_words_of_their_size() {
    assert_eq!(encode_value("P", "0"), (ValueType::DWORD, vec![0, 0, 0, 0]));
    assert_eq!(encode_value("P", " 22 "), (ValueType::DWORD, vec![22, 0, 0, 0]));
    assert_eq!(encode_value("P", "+7"), (ValueType::DWORD, vec![7, 0, 0, 0]));
    assert_eq!(encode_value("P", "4294967295"), (ValueType::DWORD, vec![255; 4]));
    assert_eq!(
        encode_value("P", "4294967296"),
        (ValueType::QWORD, vec![0, 0, 0, 0, 1, 0, 0, 0])
    );
    assert_eq!(encode_value("P", "-1"), (ValueType::QWORD, vec![255; 8]));
    assert_eq!(
        encode_value("P", "-9223372036854775808"),
        (ValueType::QWORD, vec![0, 0, 0, 0, 0, 0, 0, 0x80])
    );
    assert_eq!(
        encode_value("Priority", "9223372036854775808"),
        (ValueType::QWORD, vec![0, 0, 0, 0, 0, 0, 0, 0x80])
    );
    assert_eq!(encode_value("P", "18446744073709551615"), (ValueType::QWORD, vec![255; 8]));
    assert_eq!(encode_value("P", "+18446744073709551615"), (ValueType::QWORD, vec![255; 8]));
    assert_eq!(encode_value("Actions", "int:18446744073709551615").0, ValueType::QWORD);
    assert_eq!(encode_value("P", "18446744073709551616").0, ValueType::SZ);
    assert_eq!(encode_value("P", "-9223372036854775809").0, ValueType::SZ);
    assert_eq!(encode_value("P", "1.5").0, ValueType::SZ);
    assert_eq!(encode_value("P", "").0, ValueType::SZ);
    assert_eq!(encode_value("P", "-").0, ValueType::SZ);
}

#[test]
fn prefixes_force_a_type() {
    assert_eq!(encode_value("P", "multi:PASS"), (ValueType::MULTI_SZ, b"PASS\0\0".to_vec()));
    assert_eq!(encode_value("P", "sz:a,b"), (ValueType::SZ, b"a,b\0".to_vec()));
    assert_eq!(encode_value("Actions", "sz:22"), (ValueType::SZ, b"22\0".to_vec()));
    assert_eq!(encode_value("Actions", "int: 22"), (ValueType::DWORD, vec![22, 0, 0, 0]));
    assert_eq!(encode_value("P", "int:x"), (ValueType::SZ, b"x\0".to_vec()));
    assert_eq!(encode_value("P", "other:22"), (ValueType::SZ, b"other:22\0".to_vec()));
    assert_eq!(encode_value("P", "::1"), (ValueType::SZ, b"::1\0".to_vec()));
    assert_eq!(encode_value("P", "sz:int:5"), (ValueType::SZ, b"int:5\0".to_vec()));
}

#[test]
fn lists_are_trimmed_and_lose_their_empty_pieces() {
    assert_eq!(
        encode_value("S", " a , ,\tb\u{3000},"),
        (ValueType::MULTI_SZ, b"a\0b\0\0".to_vec())
    );
    assert_eq!(encode_value("Actions", ""), (ValueType::MULTI_SZ, vec![0]));
}

fn decoded(ty: ValueType, data: &[u8]) -> (String, String) {
    decode_value(ty, data)
}

#[test]
fn values_are_shown_by_their_type() {
    let both = |a: &str, b: &str| (a.to_string(), b.to_string());
    assert_eq!(decoded(ValueType::SZ, b"out\0rest"), both("sz", "\"out\""));
    assert_eq!(decoded(ValueType::EXPAND_SZ, b"no end"), both("sz", "\"no end\""));
    assert_eq!(decoded(ValueType::SZ, b"\xff\0"), both("sz", "\"\u{fffd}\""));
    assert_eq!(decoded(ValueType::DWORD, &[22, 0, 0, 1]), both("dword", "16777238"));
    assert_eq!(decoded(ValueType::DWORD, &[1, 2, 3]), both("dword", "null"));
    assert_eq!(decoded(ValueType::QWORD, &[255; 8]), both("qword", "-1"));
    assert_eq!(decoded(ValueType::QWORD, &[1, 0, 0, 0, 0, 0, 0, 0]), both("qword", "1"));
    assert_eq!(decoded(ValueType::QWORD, &[1]), both("qword", "null"));
    assert_eq!(decoded(ValueType::MULTI_SZ, b"a\0\0b\0\0"), both("multi", "[\"a\",\"b\"]"));
    assert_eq!(decoded(ValueType::MULTI_SZ, b""), both("multi", "[]"));
    assert_eq!(decoded(ValueType::MULTI_SZ, b"tail"), both("multi", "[\"tail\"]"));
    assert_eq!(decoded(ValueType::OTHER(3), &[0, 255]), both("type-3", "\"00ff\""));
}

#[test]
fn authored_values_read_back() {
    let back = |name: &str, raw: &str| {
        let (ty, data) = encode_value(name, raw);
        decode_value(ty, &data).1
    };
    assert_eq!(back("P", "22"), "22");
    assert_eq!(back("P", "-5"), "-5");
    assert_eq!(back("P", "4294967296"), "4294967296");
    assert_eq!(back("P", "-9223372036854775808"), "-9223372036854775808");
    assert_eq!(back("P", "sz:say \"hi\""), "\"say \\\"hi\\\"\"");
    assert_eq!(back("Actions", "TAG(x, Add), , PASS"), "[\"TAG(x, Add)\",\"PASS\"]");
    assert_eq!(back("P", "9223372036854775808"), "-9223372036854775808", "a qword is shown signed");
    assert_eq!(back("P", "18446744073709551615"), "-1");
    for v in [i64::MIN, -1, 0, 9, 10, 4294967295, 4294967296, i64::MAX] {
        assert_eq!(back("P", &v.to_string()), v.to_string());
    }
}

#[test]
fn refused_segments_are_quoted() {
    assert_eq!(validate_segment("a/b"), Err("bad path segment: \"a/b\"".to_string()));
    assert_eq!(validate_segment(""), Err("bad path segment: \"\"".to_string()));
    assert_eq!(
        validate_segment("a\\b\n"),
        Err("bad path segment: \"a\\\\b\\n\"".to_string())
    );
    assert_eq!(segment_refusal("x"), "bad path segment: x");
    assert!(validate_segment(&"x".repeat(128)).is_ok());
    assert!(validate_segment(&"x".repeat(129)).is_err());
    assert!(validate_segment(&"\u{e4}".repeat(64)).is_ok());
    assert!(validate_segment(&"\u{e4}".repeat(65)).is_err(), "the length counts bytes");
}

fn steps(r: Result<Vec<RegistryOp>, String>) -> Result<Vec<String>, String> {
    r.map(|ops| all_shown(&ops))
}

#[test]
fn writing_a_rule_creates_its_path_in_a_transaction() {
    assert_eq!(
        steps(set_rule(&strings(&["Packet", "no-inbound", "ssh"]))),
        Ok(strings(&[
            "root true",
            "begin",
            "create Packet",
            "create no-inbound",
            "create ssh",
            "query",
        ]))
    );
}

#[test]
fn writing_a_rule_checks_its_path() {
    let usage = "path must be <Layer>/<rule>[/exception...]".to_string();
    assert_eq!(steps(set_rule(&[])), Err(usage.clone()));
    assert_eq!(steps(set_rule(&strings(&["Packet"]))), Err(usage));
    let deep = vec!["x".to_string(); MAX_DEPTH + 1];
    assert!(set_rule(&deep).is_ok());
    let deeper = vec!["x".to_string(); MAX_DEPTH + 2];
    assert_eq!(steps(set_rule(&deeper)), Err("rule nesting too deep".to_string()));
    assert_eq!(
        steps(set_rule(&strings(&["Packet", "a/b", ""]))),
        Err("bad path segment: \"a/b\"".to_string())
    );
    assert_eq!(MAX_DEPTH, 12);
}

#[test]
fn values_are_replaced_and_committed() {
    let existing = vec![b"Old".to_vec(), b"Actions".to_vec(), b"Gone".to_vec()];
    let ops = replace_values(&existing, &authored(&[("Actions", "PASS"), ("P", "1"), ("P", "2")]));
    assert_eq!(
        all_shown(&ops),
        strings(&[
            "delete Old",
            "delete Gone",
            "set Actions MULTI_SZ [80, 65, 83, 83, 0, 0]",
            "set P DWORD [1, 0, 0, 0]",
            "set P DWORD [2, 0, 0, 0]",
            "commit",
        ])
    );
    assert_eq!(all_shown(&replace_values(&[], &[])), strings(&["commit"]));
}

#[test]
fn an_edit_is_one_transaction() {
    let mut ops = all_shown(&set_rule(&strings(&["Packet", "r"])).unwrap());
    ops.extend(all_shown(&replace_values(&[b"Old".to_vec()], &authored(&[("P", "1")]))));
    let begins: Vec<usize> = (0..ops.len()).filter(|&i| ops[i] == "begin").collect();
    let commits: Vec<usize> = (0..ops.len()).filter(|&i| ops[i] == "commit").collect();
    assert_eq!(begins, vec![1]);
    assert_eq!(commits, vec![ops.len() - 1]);
    for (i, op) in ops.iter().enumerate() {
        if op.starts_with("create") || op.starts_with("delete") || op.starts_with("set") {
            assert!(1 < i && i < ops.len() - 1);
        }
    }
}

#[test]
fn deleting_a_rule_opens_its_path() {
    let d = delete_rule(&strings(&["Packet", "r"])).ok().unwrap();
    assert_eq!(all_shown(&d.steps), strings(&["root false", "open Packet", "open r", "begin"]));
    assert!(matches!(d.first, WalkAction::ListChildren));
    assert_eq!(
        delete_rule(&strings(&["Packet"])).err().as_deref(),
        Some("refusing to delete a whole layer")
    );
    assert_eq!(
        delete_rule(&strings(&["Packet", "a\\b"])).err().as_deref(),
        Some("bad path segment: \"a\\\\b\"")
    );
}

/// A key of the tree that a walk goes over.
struct Node {
    name: String,
    children: Vec<Node>,
}

fn node(name: &str, children: Vec<Node>) -> Node {
    Node { name: name.to_string(), children }
}

/// A chain of keys, `n` of them below the first.
fn chain(n: usize) -> Node {
    if n == 0 {
        node("leaf", vec![])
    } else {
        node("link", vec![chain(n - 1)])
    }
}

/// Deletes a rule at a path of some length: the names that the walk deletes, and
/// the reason it gave up for, if it did.
fn run_walk(tree: &Node, depth: usize) -> (Vec<String>, Option<String>) {
    let mut keys: Vec<&Node> = vec![tree];
    let mut deleted = Vec::new();
    let deletion = delete_rule(&vec!["x".to_string(); depth]).ok().unwrap();
    let mut walk = deletion.walk;
    let mut action = deletion.first;
    loop {
        let event = match action {
            WalkAction::ListChildren => {
                let here = keys[keys.len() - 1];
                let mut listed: Vec<Option<Vec<u8>>> = vec![None];
                for c in &here.children {
                    listed.push(Some(c.name.as_bytes().to_vec()));
                }
                WalkEvent::Listed(listed)
            }
            WalkAction::OpenChild(name) => {
                let here = keys[keys.len() - 1];
                match here.children.iter().find(|c| c.name == name) {
                    Some(c) => {
                        keys.push(c);
                        WalkEvent::Opened
                    }
                    None => WalkEvent::Failed(format!("no {name}")),
                }
            }
            WalkAction::DeleteKey => {
                let gone = keys.pop().unwrap();
                deleted.push(gone.name.clone());
                WalkEvent::Deleted
            }
            WalkAction::Commit => return (deleted, None),
            WalkAction::Refuse(why) => return (deleted, Some(why)),
        };
        action = walk.step(event);
    }
}

#[test]
fn a_walk_deletes_everything_leaves_first() {
    let tree = node(
        "rule",
        vec![
            node("a", vec![node("a1", vec![]), node("a2", vec![])]),
            node("b", vec![]),
        ],
    );
    let (deleted, why) = run_walk(&tree, 2);
    assert_eq!(deleted, strings(&["a1", "a2", "a", "b", "rule"]));
    assert_eq!(why, None);
}

#[test]
fn a_walk_refuses_what_is_nested_too_deep() {
    let (deleted, why) = run_walk(&chain(11), 2);
    assert_eq!((deleted.len(), why), (12, None));
    let (deleted, why) = run_walk(&chain(12), 2);
    assert_eq!(deleted, Vec::<String>::new());
    assert_eq!(why, Some("rule nesting too deep".to_string()));
    let (deleted, why) = run_walk(&chain(0), MAX_DEPTH + 2);
    assert_eq!((deleted.len(), why), (0, Some("rule nesting too deep".to_string())));
}

#[test]
fn what_can_be_written_can_be_deleted() {
    for n in 2..=20 {
        let path = vec!["x".to_string(); n];
        let below = (MAX_DEPTH + 1).saturating_sub(n);
        if set_rule(&path).is_ok() {
            assert_eq!(run_walk(&chain(0), n), (strings(&["leaf"]), None));
            let (deleted, why) = run_walk(&chain(below), n);
            assert_eq!((deleted.len(), why), (below + 1, None), "{n} segments");
        } else {
            assert!(n > MAX_DEPTH + 1);
        }
    }
}

#[test]
fn a_walk_stops_at_a_failure() {
    let (mut walk, first) = Walk::new(2);
    assert!(matches!(first, WalkAction::ListChildren));
    let listed = vec![Some(b"x".to_vec()), Some(b"bad\xff".to_vec())];
    assert!(matches!(walk.step(WalkEvent::Listed(listed)), WalkAction::OpenChild(n) if n == "x"));
    assert!(
        matches!(walk.step(WalkEvent::Failed("denied".to_string())), WalkAction::Refuse(why) if why == "denied")
    );
}

#[test]
fn a_walk_opens_listed_names_as_texts() {
    let (mut walk, _) = Walk::new(2);
    let listed = vec![Some(b"bad\xff".to_vec())];
    assert!(
        matches!(walk.step(WalkEvent::Listed(listed)), WalkAction::OpenChild(n) if n == "bad\u{fffd}")
    );
}

fn value(name: &str, ty: ValueType, data: &[u8]) -> ValueRecord {
    ValueRecord { name: name.as_bytes().to_vec(), ty, data: data.to_vec() }
}

fn rule(name: &str, values: Vec<ValueRecord>, children: Vec<Option<RuleNode>>) -> RuleNode {
    RuleNode { name: name.as_bytes().to_vec(), values: Some(values), children }
}

fn unread(name: &str) -> RuleNode {
    RuleNode { name: name.as_bytes().to_vec(), values: None, children: vec![] }
}

fn layer(name: &str, rules: Vec<Option<RuleNode>>) -> LayerRead {
    LayerRead { name: name.as_bytes().to_vec(), rules }
}

#[test]
fn the_policy_is_shown_whole() {
    let ssh = rule("ssh", vec![value("DstPort.Equal", ValueType::DWORD, &[22, 0, 0, 0])], vec![]);
    let drop = rule(
        "no-inbound",
        vec![
            value("Actions", ValueType::MULTI_SZ, b"DROP\0\0"),
            value("Direction.Equal", ValueType::SZ, b"in\0"),
        ],
        vec![Some(ssh)],
    );
    let read = Ok(vec![Some(layer("Packet", vec![Some(drop)])), Some(layer("RawPacket", vec![]))]);
    assert_eq!(
        read_policy(&read),
        concat_all(&[
            "{\"present\":true,\"layers\":{\"Packet\":[{\"name\":\"no-inbound\",\"values\":{",
            "\"Actions\":{\"kind\":\"multi\",\"value\":[\"DROP\"]},",
            "\"Direction.Equal\":{\"kind\":\"sz\",\"value\":\"in\"}},",
            "\"children\":[{\"name\":\"ssh\",\"values\":{",
            "\"DstPort.Equal\":{\"kind\":\"dword\",\"value\":22}},\"children\":[]}]}],",
            "\"RawPacket\":[]}}",
        ])
    );
}

fn concat_all(parts: &[&str]) -> String {
    parts.join("")
}

#[test]
fn without_rules_the_policy_says_why() {
    assert_eq!(
        read_policy(&Err("no \"key\"".to_string())),
        "{\"present\":false,\"layers\":{},\"error\":\"no \\\"key\\\"\"}"
    );
    assert_eq!(read_policy(&Ok(vec![])), "{\"present\":true,\"layers\":{}}");
}

#[test]
fn what_could_not_be_opened_is_left_out_and_what_could_not_be_read_is_named() {
    let partly = rule("partly", vec![], vec![Some(rule("x", vec![], vec![])), None]);
    let below = rule("below", vec![], vec![Some(unread("y"))]);
    let read = Ok(vec![
        None,
        Some(layer("Packet", vec![None, Some(unread("a")), Some(partly), Some(below), None])),
    ]);
    assert_eq!(
        read_policy(&read),
        concat_all(&[
            "{\"present\":true,\"layers\":{\"Packet\":[",
            "{\"name\":\"a\",\"values\":{},\"children\":[],\"error\":true},",
            "{\"name\":\"partly\",\"values\":{},\"children\":[],\"error\":true},",
            "{\"name\":\"below\",\"values\":{},\"children\":[],\"error\":true}]}}",
        ])
    );
}

fn nested(levels: usize, innermost: RuleNode) -> RuleNode {
    let mut r = innermost;
    for _ in 0..levels {
        r = rule("n", vec![], vec![Some(r)]);
    }
    r
}

#[test]
fn exceptions_are_shown_down_to_the_greatest_depth() {
    assert!(descends(0));
    assert!(descends(MAX_DEPTH - 1));
    assert!(!descends(MAX_DEPTH));
    let at = |levels: usize| {
        let r = nested(levels, rule("deep", vec![], vec![]));
        read_policy(&Ok(vec![Some(layer("L", vec![Some(r)]))]))
    };
    assert!(at(MAX_DEPTH).contains("deep"));
    assert!(!at(MAX_DEPTH + 1).contains("deep"));
    let hidden = nested(MAX_DEPTH + 1, unread("bad"));
    let text = read_policy(&Ok(vec![Some(layer("L", vec![Some(hidden)]))]));
    assert!(!text.contains("error"), "what is not looked at cannot fail");
}
