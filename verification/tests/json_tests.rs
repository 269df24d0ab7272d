use flux_core::json::Json;

fn obj(members: Vec<(&str, Json)>) -> Json {
    Json::Object(members.into_iter().map(|(k, v)| (k.to_string(), v)).collect())
}

fn text(s: &str) -> Json {
    Json::Str(s.to_string())
}

#[test]
fn parse_reads_every_kind_of_value() {
    let j = Json::parse("{\"b\":true,\"n\":null,\"s\":\"x\",\"a\":[1,-2,1.5],\"o\":{}}").unwrap();
    assert_eq!(j.get("b"), Some(&Json::Bool(true)));
    assert_eq!(j.get("n"), Some(&Json::Null));
    assert_eq!(j.get("s"), Some(&text("x")));
    assert_eq!(
        j.get("a"),
        Some(&Json::Array(vec![Json::UInt(1), Json::Int(-2), Json::Float("1.5".to_string())]))
    );
    assert_eq!(j.get("o"), Some(&Json::Object(vec![])));
    assert_eq!(j.get("missing"), None);
}

#[test]
fn parse_differs_from_its_input() {
    assert_eq!(Json::parse("\"a\\nb\""), Some(text("a\nb")));
    assert_eq!(Json::parse(" 7 "), Some(Json::UInt(7)));
    assert_eq!(Json::parse("18446744073709551615"), Some(Json::UInt(u64::MAX)));
    assert_eq!(Json::parse("-9223372036854775808"), Some(Json::Int(i64::MIN)));
}

#[test]
fn parse_refuses_what_is_no_json() {
    assert_eq!(Json::parse(""), None);
    assert_eq!(Json::parse("{"), None);
    assert_eq!(Json::parse("{\"a\":1} x"), None);
    assert_eq!(Json::parse("not json"), None);
}

#[test]
fn render_writes_compact_text() {
    let j = obj(vec![
        ("a", Json::Array(vec![Json::UInt(1), Json::Int(-2), Json::Null])),
        ("b", Json::Bool(false)),
        ("c", text("x\"y\n")),
    ]);
    assert_eq!(j.render().as_deref(), Some("{\"a\":[1,-2,null],\"b\":false,\"c\":\"x\\\"y\\n\"}"));
    assert_eq!(Json::Float("1.5".to_string()).render().as_deref(), Some("1.5"));
    assert_eq!(Json::Int(5).render().as_deref(), Some("5"));
}

#[test]
fn render_fails_on_a_number_that_is_none() {
    assert_eq!(Json::Float("abc".to_string()).render(), None);
    assert_eq!(Json::Array(vec![Json::Float("".to_string())]).render(), None);
}

#[test]
fn parse_and_render_round_trip() {
    let j = obj(vec![
        ("args", Json::Array(vec![text("spec"), text("--fail-fast")])),
        ("command", text("rspec")),
        ("n", Json::UInt(3)),
    ]);
    let t = j.render().unwrap();
    assert_eq!(Json::parse(&t), Some(j));
}

#[test]
fn the_last_of_two_equal_keys_counts() {
    let j = obj(vec![("k", Json::UInt(1)), ("k", Json::UInt(2))]);
    assert_eq!(j.get("k"), Some(&Json::UInt(2)));
    assert_eq!(j.render().as_deref(), Some("{\"k\":2}"));
    assert_eq!(Json::parse("{\"k\":1,\"k\":2}").unwrap().get("k"), Some(&Json::UInt(2)));
}

#[test]
fn accessors_read_one_kind_each() {
    assert_eq!(text("x").as_str(), Some("x"));
    assert_eq!(Json::UInt(1).as_str(), None);
    assert_eq!(Json::Bool(true).as_bool(), Some(true));
    assert_eq!(Json::Null.as_bool(), None);
    assert_eq!(Json::UInt(5).as_i64(), Some(5));
    assert_eq!(Json::UInt(u64::MAX).as_i64(), None);
    assert_eq!(Json::UInt(9223372036854775807).as_i64(), Some(i64::MAX));
    assert_eq!(Json::Int(-5).as_i64(), Some(-5));
    assert_eq!(Json::Int(-5).as_u64(), None);
    assert_eq!(Json::Int(5).as_u64(), Some(5));
    assert_eq!(Json::UInt(5).as_u64(), Some(5));
    assert_eq!(Json::Float("1.5".to_string()).as_u64(), None);
    assert_eq!(Json::Float("1.5".to_string()).as_i64(), None);
    assert_eq!(Json::Array(vec![]).as_array(), Some(&vec![]));
    assert_eq!(text("x").as_array(), None);
    assert_eq!(text("x").get("k"), None);
    assert_eq!(obj(vec![("k", text("v"))]).get_str("k"), Some("v"));
    assert_eq!(obj(vec![("k", Json::UInt(1))]).get_str("k"), None);
}

#[test]
fn strings_keeps_only_strings() {
    let items = vec![text("a"), Json::UInt(1), text("b"), Json::Null];
    assert_eq!(Json::strings(&items), vec!["a".to_string(), "b".to_string()]);
    assert_eq!(
        Json::string_array(&["x".to_string(), "y".to_string()]),
        Json::Array(vec![text("x"), text("y")])
    );
}

#[test]
fn clone_copies_the_whole_value() {
    let j = obj(vec![("a", Json::Array(vec![obj(vec![("b", text("c"))])]))]);
    assert_eq!(j.clone(), j);
}

fn nested(depth: usize) -> Json {
    let mut j = Json::UInt(0);
    for n in 0..depth {
        j = if n % 2 == 0 { Json::Array(vec![j]) } else { obj(vec![("k", j)]) };
    }
    j
}

#[test]
fn nesting_is_bounded_when_writing() {
    assert!(Json::UInt(0).nests_within(0));
    assert!(!nested(1).nests_within(0));
    assert!(nested(3).nests_within(3));
    assert!(!nested(3).nests_within(2));
    assert!(!Json::Array(vec![Json::Null, nested(2)]).nests_within(2));
    let deepest = nested(127);
    let text = deepest.render().unwrap();
    assert_eq!(Json::parse(&text), Some(deepest));
    assert_eq!(nested(128).render(), None);
}
