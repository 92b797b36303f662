use dsc::opts::NameVal;
use std::str::FromStr;

#[test]
fn user_and_password() {
    let pair = NameVal::parse("user:pass").unwrap();
    assert_eq!(pair.name, "user");
    assert_eq!(pair.value, "pass");
}

#[test]
fn splits_on_first_colon_only() {
    let pair = NameVal::parse("Header:a:b").unwrap();
    assert_eq!(pair.name, "Header");
    assert_eq!(pair.value, "a:b");
}

#[test]
fn no_colon_is_no_pair() {
    let err = NameVal::parse("userpass").unwrap_err();
    assert_eq!(err, "Not a key:value pair, no `:` found in 'userpass'");
}

#[test]
fn empty_text_is_no_pair() {
    let err = NameVal::parse("").unwrap_err();
    assert_eq!(err, "Not a key:value pair, no `:` found in ''");
}

#[test]
fn empty_name_and_value() {
    let pair = NameVal::parse(":").unwrap();
    assert_eq!(pair.name, "");
    assert_eq!(pair.value, "");
    let pair = NameVal::parse(":x").unwrap();
    assert_eq!(pair.name, "");
    assert_eq!(pair.value, "x");
    let pair = NameVal::parse("x:").unwrap();
    assert_eq!(pair.name, "x");
    assert_eq!(pair.value, "");
}

#[test]
fn characters_of_several_bytes() {
    let pair = NameVal::parse("jürgen:pässwörd:€").unwrap();
    assert_eq!(pair.name, "jürgen");
    assert_eq!(pair.value, "pässwörd:€");
}

#[test]
fn from_str_parses() {
    let pair = NameVal::from_str("X-Key:secret").unwrap();
    assert_eq!(pair.name, "X-Key");
    assert_eq!(pair.value, "secret");
    let pair: NameVal = "a:b".parse().unwrap();
    assert_eq!(pair.name, "a");
    assert_eq!(pair.value, "b");
    assert!("ab".parse::<NameVal>().is_err());
}

#[test]
fn clone_keeps_both_parts() {
    let pair = NameVal::parse("user:pass").unwrap();
    let copy = pair.clone();
    assert_eq!(copy.name, pair.name);
    assert_eq!(copy.value, pair.value);
}
