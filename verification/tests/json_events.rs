use base64::Engine;
use serde_json::Value;
use stellar_mixer_treepir_server::encoding::hex_encode;
use stellar_mixer_treepir_server::events::MixerTreeEvent;
use stellar_mixer_treepir_server::json::Json;
use stellar_mixer_treepir_server::json_events::{
    collect_symbols, json_to_hash, json_to_hash_vec, json_to_u64,
    parse_mixer_tree_event_from_xdr_json,
};

fn hash_hex(byte: u8) -> String {
    hex_encode(&[byte; 32])
}

fn symbols(topic_name: &str) -> Vec<String> {
    vec!["mixer".to_string(), topic_name.to_string()]
}

fn json(text: &str) -> Json {
    let value: Value = serde_json::from_str(text).unwrap();
    Json::from_value(&value)
}

fn event_value(fields: &[(&str, Value)]) -> Json {
    let value = Value::Object(
        fields
            .iter()
            .map(|(name, value)| ((*name).to_string(), value.clone()))
            .collect(),
    );
    Json::from_value(&value)
}

#[test]
fn parses_deposit_event_from_xdr_json_shape() {
    let value = event_value(&[
        ("index", Value::from(7)),
        ("leaf", Value::from(hash_hex(1))),
        ("root", Value::from(hash_hex(2))),
    ]);

    let parsed = parse_mixer_tree_event_from_xdr_json(&symbols("deposit"), &value)
        .ok()
        .unwrap();

    match parsed {
        Some(MixerTreeEvent::Deposit { index, leaf, root }) => {
            assert_eq!(index, 7);
            assert_eq!(leaf, [1u8; 32]);
            assert_eq!(root, [2u8; 32]);
        }
        other => panic!("unexpected event: {other:?}"),
    }
}

#[test]
fn parses_deposit_event_from_named_scval_map_shape() {
    let value = json(&format!(
        r#"{{
            "map": [
                {{ "key": {{ "symbol": "index" }}, "val": {{ "u64": 7 }} }},
                {{ "key": {{ "symbol": "leaf" }}, "val": {{ "bytes": "{}" }} }},
                {{ "key": {{ "symbol": "root" }}, "val": {{ "bytes": "{}" }} }}
            ]
        }}"#,
        hash_hex(1),
        hash_hex(2)
    ));

    let parsed = parse_mixer_tree_event_from_xdr_json(&symbols("deposit"), &value)
        .ok()
        .unwrap();

    match parsed {
        Some(MixerTreeEvent::Deposit { index, leaf, root }) => {
            assert_eq!(index, 7);
            assert_eq!(leaf, [1u8; 32]);
            assert_eq!(root, [2u8; 32]);
        }
        other => panic!("unexpected event: {other:?}"),
    }
}

#[test]
fn parses_withdraw_change_event_from_xdr_json_shape() {
    let value = event_value(&[
        ("index", Value::from(8)),
        ("output_leaf", Value::from(hash_hex(3))),
        ("root", Value::from(hash_hex(4))),
    ]);

    let parsed = parse_mixer_tree_event_from_xdr_json(&symbols("withdraw"), &value)
        .ok()
        .unwrap();

    match parsed {
        Some(MixerTreeEvent::WithdrawChange { index, leaf, root }) => {
            assert_eq!(index, 8);
            assert_eq!(leaf, [3u8; 32]);
            assert_eq!(root, [4u8; 32]);
        }
        other => panic!("unexpected event: {other:?}"),
    }
}

#[test]
fn parses_transfer_event_from_xdr_json_shape() {
    let value = event_value(&[
        ("start_index", Value::from(9)),
        ("output_leaves", Value::from(vec![hash_hex(5), hash_hex(6)])),
        ("root", Value::from(hash_hex(7))),
    ]);

    let parsed = parse_mixer_tree_event_from_xdr_json(&symbols("transfer"), &value)
        .ok()
        .unwrap();

    match parsed {
        Some(MixerTreeEvent::Transfer {
            start_index,
            output_leaves,
            root,
        }) => {
            assert_eq!(start_index, 9);
            assert_eq!(output_leaves, vec![[5u8; 32], [6u8; 32]]);
            assert_eq!(root, [7u8; 32]);
        }
        other => panic!("unexpected event: {other:?}"),
    }
}

#[test]
fn ignores_unknown_event_topic() {
    let parsed = parse_mixer_tree_event_from_xdr_json(&symbols("unknown"), &json("{}"))
        .ok()
        .unwrap();

    assert!(parsed.is_none());
}

#[test]
fn deposit_wins_over_other_topics() {
    let value = event_value(&[
        ("index", Value::from(7)),
        ("leaf", Value::from(hash_hex(1))),
        ("root", Value::from(hash_hex(2))),
    ]);
    let names = vec!["transfer".to_string(), "deposit".to_string()];
    let parsed = parse_mixer_tree_event_from_xdr_json(&names, &value).ok().unwrap();
    assert!(matches!(parsed, Some(MixerTreeEvent::Deposit { index: 7, .. })));
}

#[test]
fn change_goes_by_several_names() {
    let value = event_value(&[
        ("change_index", Value::from(8)),
        ("change_leaf", Value::from(hash_hex(3))),
        ("root", Value::from(hash_hex(4))),
    ]);
    let parsed = parse_mixer_tree_event_from_xdr_json(&symbols("withdraw"), &value)
        .ok()
        .unwrap();
    assert!(matches!(
        parsed,
        Some(MixerTreeEvent::WithdrawChange { index: 8, leaf, .. }) if leaf == [3u8; 32]
    ));
}

#[test]
fn names_the_missing_field() {
    let value = event_value(&[("index", Value::from(7))]);
    let error = parse_mixer_tree_event_from_xdr_json(&symbols("deposit"), &value)
        .err()
        .unwrap();
    assert_eq!(error.message(), "missing hash field [\"leaf\"]");

    let error = parse_mixer_tree_event_from_xdr_json(&symbols("withdraw"), &json("{}"))
        .err()
        .unwrap();
    assert_eq!(error.message(), "missing u64 field [\"index\", \"change_index\"]");

    let value = event_value(&[("start_index", Value::from(7))]);
    let error = parse_mixer_tree_event_from_xdr_json(&symbols("transfer"), &value)
        .err()
        .unwrap();
    assert_eq!(error.message(), "missing hash vec field [\"output_leaves\"]");
}

#[test]
fn shows_the_invalid_value() {
    let value = json(r#"{"index": {"a": null, "b": [true, -1, "x\"y"]}}"#);
    let error = parse_mixer_tree_event_from_xdr_json(&symbols("deposit"), &value)
        .err()
        .unwrap();
    assert_eq!(
        error.message(),
        "invalid u64 field [\"index\"]: {\"a\":null,\"b\":[true,-1,\"x\\\"y\"]}: \
         not a u64-compatible JSON value"
    );
}

#[test]
fn reads_numbers() {
    assert_eq!(json_to_u64(&json("18446744073709551615")).ok(), Some(u64::MAX));
    assert_eq!(json_to_u64(&json("\"42\"")).ok(), Some(42));
    assert_eq!(json_to_u64(&json("\"+42\"")).ok(), Some(42));
    assert_eq!(json_to_u64(&json(r#"{"u32": 5, "other": 6}"#)).ok(), Some(5));
    assert_eq!(json_to_u64(&json(r#"{"anything": {"u64": "5"}}"#)).ok(), Some(5));
    let message = |text: &str| json_to_u64(&json(text)).err().unwrap().message();
    assert_eq!(message("-1"), "not a u64-compatible JSON value");
    assert_eq!(message("1.5"), "not a u64-compatible JSON value");
    assert_eq!(message("[1]"), "not a u64-compatible JSON value");
    assert_eq!(message("{}"), "not a u64-compatible JSON value");
    assert_eq!(message("\"\""), "cannot parse integer from empty string");
    assert_eq!(message("\"-1\""), "invalid digit found in string");
    assert_eq!(
        message("\"18446744073709551616\""),
        "number too large to fit in target type"
    );
}

#[test]
fn reads_hashes() {
    let bytes: Vec<String> = (0..32).map(|i| i.to_string()).collect();
    let list = format!("[{}]", bytes.join(","));
    let hash = json_to_hash(&json(&list)).ok().unwrap();
    assert_eq!(hash[0], 0);
    assert_eq!(hash[31], 31);
    let wrapped = format!(r#"{{"BytesN": "0x{}"}}"#, hash_hex(9));
    assert_eq!(json_to_hash(&json(&wrapped)).ok(), Some([9u8; 32]));
    let base64 = "AQEBAQEBAQEBAQEBAQEBAQEBAQEBAQEBAQEBAQEBAQE=";
    assert_eq!(json_to_hash(&json(&format!("\" {base64} \""))).ok(), Some([1u8; 32]));

    let message = |text: &str| json_to_hash(&json(text)).err().unwrap().message();
    assert_eq!(message("7"), "not a hash JSON value");
    assert_eq!(message("[1,2]"), "not a hash JSON value");
    assert_eq!(message("\"AQE=\""), "expected 32-byte hash, got 2 bytes");
    assert_eq!(message("\"A*==\""), "Invalid symbol 42, offset 1.");
    let big = list.replace("31]", "256]");
    assert_eq!(message(&big), "hash byte is out of range");
    let text = list.replace("31]", "\"31\"]");
    assert_eq!(message(&text), "hash byte is not a number");
}

#[test]
fn forms_of_a_hash_agree() {
    let mut hash = [0xab; 32];
    hash[0] = 0xd3;
    hash[1] = 0x1f;
    let hex = hex::encode(hash);
    let base64 = base64::engine::general_purpose::STANDARD.encode(hash);
    assert!(base64.starts_with("0x"));
    let numbers: Vec<String> = hash.iter().map(|byte| byte.to_string()).collect();
    let forms = [
        format!("\"{hex}\""),
        format!("\"{}\"", hex.to_uppercase()),
        format!("\"0x{}\"", hex.replace('a', "A")),
        format!("\" \\t{hex}\\u00a0\""),
        format!("\"{base64}\""),
        format!("\"\\n0x{hex} \""),
        format!("\" {base64} \""),
        format!("[{}]", numbers.join(",")),
        format!("{{\"bytes\": \"{hex}\"}}"),
        format!("{{\"hash\": \"{base64}\"}}"),
        format!("{{\"other\": {{\"bytesN\": [{}]}}}}", numbers.join(", ")),
    ];
    for form in forms {
        assert_eq!(json_to_hash(&json(&form)).ok(), Some(hash), "{form}");
    }
}

#[test]
fn reads_lists_of_hashes() {
    let list = format!(r#"{{"vec": ["{}", "{}"]}}"#, hash_hex(1), hash_hex(2));
    assert_eq!(
        json_to_hash_vec(&json(&list)).ok(),
        Some(vec![[1u8; 32], [2u8; 32]])
    );
    assert_eq!(json_to_hash_vec(&json("[]")).ok(), Some(vec![]));
    let message = |text: &str| json_to_hash_vec(&json(text)).err().unwrap().message();
    assert_eq!(message("{}"), "not a hash vec JSON object");
    assert_eq!(message("7"), "not a hash vec JSON value");
    let mixed = format!(r#"["{}", 7]"#, hash_hex(1));
    assert_eq!(message(&mixed), "not a hash JSON value");
}

#[test]
fn collects_symbols_in_order() {
    let mut out: Vec<String> = Vec::new();
    collect_symbols(
        &json(r#"[{"symbol": "anything"}, "mixer", "other", {"sym": "deposit"}]"#),
        &mut out,
    );
    assert_eq!(out, vec!["anything", "mixer", "deposit", "deposit"]);
}
