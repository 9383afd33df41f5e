use namada_wallet::wallet_file::{
    can_read_public_keys, can_read_view_keys, public_keys_from_wallet, view_keys_from_wallet,
    TomlEntry, TomlValue,
};

fn s(v: &str) -> TomlValue {
    TomlValue::Str(v.to_string())
}

fn entry(key: &str, value: TomlValue) -> TomlEntry {
    TomlEntry { key: key.to_string(), value }
}

fn table(entries: Vec<TomlEntry>) -> TomlValue {
    TomlValue::Table(entries)
}

fn sample_wallet() -> TomlValue {
    table(vec![
        entry("addresses", table(vec![entry("alice", s("tnam1qq"))])),
        entry(
            "public_keys",
            table(vec![
                entry("alice", s("ED25519_PK_PREFIXtpknam1aaa")),
                entry("bob", s("tpknam1bbb")),
                entry("carol", TomlValue::Other),
            ]),
        ),
        entry(
            "view_keys",
            table(vec![
                entry("one", table(vec![entry("key", s("  zvknam1one \n")), entry("birthday", TomlValue::Other)])),
                entry("two", table(vec![entry("birthday", TomlValue::Other)])),
                entry("three", s("not a table")),
                entry("four", table(vec![entry("key", s("zvknam1four"))])),
            ]),
        ),
    ])
}

#[test]
fn view_keys_in_entry_order() {
    let doc = sample_wallet();
    assert!(can_read_view_keys(&doc));
    assert_eq!(
        view_keys_from_wallet(&doc),
        Some(vec!["zvknam1one".to_string(), "zvknam1four".to_string()])
    );
}

#[test]
fn public_keys_in_entry_order() {
    let doc = sample_wallet();
    assert!(can_read_public_keys(&doc));
    assert_eq!(
        public_keys_from_wallet(&doc),
        Some(vec!["tpknam1aaa".to_string(), "tpknam1bbb".to_string()])
    );
}

#[test]
fn missing_sections() {
    let doc = table(vec![entry("addresses", table(vec![]))]);
    assert!(can_read_view_keys(&doc));
    assert!(can_read_public_keys(&doc));
    assert_eq!(view_keys_from_wallet(&doc), None);
    assert_eq!(public_keys_from_wallet(&doc), None);
    assert_eq!(view_keys_from_wallet(&TomlValue::Other), None);
}

#[test]
fn empty_sections() {
    let doc = table(vec![entry("view_keys", table(vec![])), entry("public_keys", table(vec![]))]);
    assert_eq!(view_keys_from_wallet(&doc), Some(vec![]));
    assert_eq!(public_keys_from_wallet(&doc), Some(vec![]));
}

#[test]
fn unreadable_sections() {
    let not_tables = table(vec![entry("view_keys", s("x")), entry("public_keys", TomlValue::Other)]);
    assert!(!can_read_view_keys(&not_tables));
    assert!(!can_read_public_keys(&not_tables));
    let key_not_string = table(vec![entry(
        "view_keys",
        table(vec![entry("one", table(vec![entry("key", TomlValue::Other)]))]),
    )]);
    assert!(!can_read_view_keys(&key_not_string));
}

#[test]
fn first_of_repeated_keys_counts() {
    let doc = table(vec![
        entry("view_keys", table(vec![entry("a", table(vec![entry("key", s("first"))]))])),
        entry("view_keys", table(vec![entry("a", table(vec![entry("key", s("second"))]))])),
    ]);
    assert_eq!(view_keys_from_wallet(&doc), Some(vec!["first".to_string()]));
}

use namada_wallet::wallet_file::{public_keys_from_text, view_keys_from_text, KeyListError};

const WALLET_TEXT: &str = r#"
[public_keys]
zed = "tpknam1zzz"
alice = "ED25519_PK_PREFIXtpknam1aaa"
count = 3

[view_keys.second]
key = " zvknam1second "

[view_keys.first]
key = "zvknam1first"
birthday = 12

[view_keys.third]
birthday = 5
"#;

#[test]
fn keys_from_wallet_text() {
    // Tables are walked in key order.
    assert_eq!(
        public_keys_from_text(WALLET_TEXT).unwrap(),
        vec!["tpknam1aaa".to_string(), "tpknam1zzz".to_string()]
    );
    assert_eq!(
        view_keys_from_text(WALLET_TEXT).unwrap(),
        vec!["zvknam1first".to_string(), "zvknam1second".to_string()]
    );
}

#[test]
fn missing_sections_in_text() {
    let text = "[addresses]\nalice = \"tnam1qq\"\n";
    assert!(matches!(public_keys_from_text(text), Err(KeyListError::Missing)));
    assert!(matches!(view_keys_from_text(text), Err(KeyListError::Missing)));
    assert!(matches!(view_keys_from_text(""), Err(KeyListError::Missing)));
}

#[test]
fn malformed_sections_in_text() {
    let text = "public_keys = \"x\"\nview_keys = 3\n";
    assert!(matches!(public_keys_from_text(text), Err(KeyListError::Malformed)));
    assert!(matches!(view_keys_from_text(text), Err(KeyListError::Malformed)));
    let text = "[view_keys.a]\nkey = 7\n";
    assert!(matches!(view_keys_from_text(text), Err(KeyListError::Malformed)));
}

#[test]
fn unparsable_text_carries_the_parser_message() {
    let text = "[public_keys\nalice = ";
    let expected = toml::de::from_str::<toml::Value>(text).unwrap_err().to_string();
    match public_keys_from_text(text) {
        Err(KeyListError::Unparsable(message)) => assert_eq!(message, expected),
        other => panic!("unexpected result {:?}", other),
    }
    assert!(matches!(view_keys_from_text(text), Err(KeyListError::Unparsable(_))));
}
