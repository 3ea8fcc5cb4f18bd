use httpc::KeyValueParser;
use httpc::Mapping;

#[test]
fn parses_two_pairs() {
    let m = KeyValueParser::parse("a=1,b=2");
    assert_eq!(m.len(), 2);
    assert_eq!(m.get("a"), Some(&"1".to_string()));
    assert_eq!(m.get("b"), Some(&"2".to_string()));
}

#[test]
fn drops_segment_without_equals() {
    let m = KeyValueParser::parse("noequals,c=3");
    assert_eq!(m.len(), 1);
    assert_eq!(m.get("c"), Some(&"3".to_string()));
    assert_eq!(m.get("noequals"), None);
}

#[test]
fn empty_input_yields_empty_mapping() {
    let m = KeyValueParser::parse("");
    assert_eq!(m.len(), 0);
}

#[test]
fn duplicate_key_keeps_last_value() {
    let m = KeyValueParser::parse("a=1,b=2,a=3");
    assert_eq!(m.len(), 2);
    assert_eq!(m.get("a"), Some(&"3".to_string()));
    assert_eq!(m.get("b"), Some(&"2".to_string()));
}

#[test]
fn splits_each_segment_on_first_equals_only() {
    let m = KeyValueParser::parse("a=b=c");
    assert_eq!(m.len(), 1);
    assert_eq!(m.get("a"), Some(&"b=c".to_string()));
}

#[test]
fn no_whitespace_trimming() {
    let m = KeyValueParser::parse("a =1, b=2");
    assert_eq!(m.len(), 2);
    assert_eq!(m.get("a "), Some(&"1".to_string()));
    assert_eq!(m.get(" b"), Some(&"2".to_string()));
    assert_eq!(m.get("a"), None);
    assert_eq!(m.get("b"), None);
}

#[test]
fn empty_key_and_empty_value() {
    let m = KeyValueParser::parse("=x,k=");
    assert_eq!(m.len(), 2);
    assert_eq!(m.get(""), Some(&"x".to_string()));
    assert_eq!(m.get("k"), Some(&"".to_string()));
}

#[test]
fn commas_only_yield_empty_mapping() {
    let m = KeyValueParser::parse(",,,");
    assert_eq!(m.len(), 0);
}

#[test]
fn insert_overwrites_in_place() {
    let mut m = Mapping::new();
    m.insert("k".to_string(), "1".to_string());
    m.insert("k".to_string(), "2".to_string());
    assert_eq!(m.len(), 1);
    assert_eq!(m.get("k"), Some(&"2".to_string()));
}

#[test]
fn unicode_keys_and_values() {
    let m = KeyValueParser::parse("gr\u{00fc}\u{00df}e=sch\u{00f6}n");
    assert_eq!(m.len(), 1);
    assert_eq!(
        m.get("gr\u{00fc}\u{00df}e"),
        Some(&"sch\u{00f6}n".to_string())
    );
}
