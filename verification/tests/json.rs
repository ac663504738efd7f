use auth_api::json::{lookup_member, parse_object};

fn member(body: &str, key: &str) -> Option<String> {
    lookup_member(&parse_object(body).expect("object should parse"), key)
}

#[test]
fn simple_objects_parse() {
    let fields = parse_object(r#"{"a":"x","b":"y"}"#).unwrap();
    assert_eq!(lookup_member(&fields, "a").unwrap(), "x");
    assert_eq!(lookup_member(&fields, "b").unwrap(), "y");
    assert!(lookup_member(&fields, "c").is_none());
}

#[test]
fn the_empty_object_parses() {
    let fields = parse_object("  { }  ").unwrap();
    assert_eq!(fields.len(), 0);
}

#[test]
fn whitespace_is_insignificant() {
    assert_eq!(member("\t{ \"k\" :\n \"v\" }\r\n", "k").unwrap(), "v");
}

#[test]
fn short_escapes_decode() {
    assert_eq!(member(r#"{"k":"a\"b\\c\/d\ne\tf\rg\bh\fi"}"#, "k").unwrap(),
        "a\"b\\c/d\ne\tf\rg\u{8}h\u{c}i");
}

#[test]
fn ascii_unicode_escapes_decode() {
    assert_eq!(member(r#"{"k":"A/\u001f"}"#, "k").unwrap(), "A/\u{1f}");
}

#[test]
fn non_string_values_are_skipped_not_fatal() {
    let body = r#"{"n":17,"neg":-2.5e3,"t":true,"f":false,"z":null,"k":"v"}"#;
    assert_eq!(member(body, "k").unwrap(), "v");
    assert!(member(body, "n").is_none());
    assert!(member(body, "t").is_none());
}

#[test]
fn nested_containers_are_skipped_whole() {
    let body = r#"{"deep":{"a":[1,{"b":"}]"},[]],"c":{}},"k":"v"}"#;
    assert_eq!(member(body, "k").unwrap(), "v");
}

#[test]
fn the_first_member_wins_on_duplicate_keys() {
    assert_eq!(member(r#"{"k":"first","k":"second"}"#, "k").unwrap(), "first");
}

#[test]
fn non_objects_do_not_parse() {
    assert!(parse_object("").is_none());
    assert!(parse_object("[1,2]").is_none());
    assert!(parse_object("\"just a string\"").is_none());
    assert!(parse_object("{").is_none());
    assert!(parse_object(r#"{"k":"v""#).is_none());
    assert!(parse_object(r#"{"k" "v"}"#).is_none());
    assert!(parse_object(r#"{"k":"v"} trailing"#).is_none());
    assert!(parse_object(r#"{"k":}"#).is_none());
    assert!(parse_object(r#"{"k":"v",}"#).is_none());
}

#[test]
fn unterminated_strings_do_not_parse() {
    assert!(parse_object(r#"{"k":"open}"#).is_none());
    assert!(parse_object(r#"{"k":"bad\u00"}"#).is_none());
}

#[test]
fn non_ascii_content_passes_through() {
    assert_eq!(member("{\"k\":\"héllo — 世界\"}", "k").unwrap(), "héllo — 世界");
}
