use cuthulhu::pass_key::PassKey;
use cuthulhu::text::parse_hex_u32;
use std::collections::HashMap;

#[test]
fn a_colour_is_read_in_any_case_and_written_in_one() {
    assert_eq!("color:FF0000ff".parse::<PassKey>().unwrap(), PassKey::Color(Some(0xFF0000FF)));
    assert_eq!(PassKey::Color(Some(0xFF0000FF)).to_text(), "color:ff0000ff");
}

#[test]
fn a_preset_id_may_contain_the_separator() {
    let key: PassKey = "preset:vinyl:thin".parse().unwrap();
    assert_eq!(key, PassKey::Preset(Some("vinyl:thin".into())));
    assert_eq!(key.to_text(), "preset:vinyl:thin");
}

#[test]
fn a_malformed_key_is_refused_by_name() {
    for bad in ["", "all:1", "color:", "color:zz", "color:ff0000",
                "color:none", "line-type:cut", "no-material", "colour:ff0000ff"] {
        let err = bad.parse::<PassKey>().expect_err("must not parse");
        assert!(err.contains(bad), "{err} should quote the input");
    }
}

#[test]
fn no_two_keys_write_the_same_string() {
    let keys = [
        PassKey::All,
        PassKey::Color(Some(0xFF0000FF)),
        PassKey::Color(None),
        PassKey::Preset(None),
        PassKey::Preset(Some("none".into())),
        PassKey::Preset(Some("no-preset".into())),
        PassKey::Preset(Some("all".into())),
        PassKey::Preset(Some("vinyl:thin".into())),
        PassKey::Preset(Some("with,comma".into())),
        PassKey::Preset(Some(String::new())),
    ];
    let mut seen: HashMap<String, PassKey> = HashMap::new();
    for key in &keys {
        let text = key.to_text();
        assert_eq!(text.parse::<PassKey>().unwrap(), *key, "round trip {text}");
        if let Some(prev) = seen.insert(text.clone(), key.clone()) {
            panic!("{prev:?} and {key:?} both write {text}");
        }
    }
}

#[test]
fn every_key_writes_its_canonical_string_and_reads_back() {
    let table = [
        (PassKey::All, "all"),
        (PassKey::Color(Some(0xFF0000FF)), "color:ff0000ff"),
        (PassKey::Color(Some(0x0000FFFF)), "color:0000ffff"),
        (PassKey::Color(None), "no-color"),
        (PassKey::Preset(Some("cameo5-htv".into())), "preset:cameo5-htv"),
        (PassKey::Preset(None), "no-preset"),
    ];
    for (key, text) in table {
        assert_eq!(key.to_text(), text);
        assert_eq!(text.parse::<PassKey>().unwrap(), key);
    }
}

#[test]
fn hex_reading_follows_from_str_radix_at_any_length() {
    let hex = |t: &str| parse_hex_u32(&t.chars().collect());
    assert_eq!(hex("ff"), Some(255));
    assert_eq!(hex("+FF"), Some(255));
    assert_eq!(hex("00000000000ff"), Some(255));
    assert_eq!(hex("ffffffff"), Some(u32::MAX));
    assert_eq!(hex("100000000"), None);
    assert_eq!(hex("1000000000000000000g"), None);
    assert_eq!(hex(""), None);
    assert_eq!(hex("+"), None);
    assert_eq!(hex("-1"), None);
    for t in ["0", "7fffffff", "0000000001", "abc"] {
        assert_eq!(hex(t), u32::from_str_radix(t, 16).ok());
    }
}
