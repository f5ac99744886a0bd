use glb_pipeline::json::parse::parse;
use glb_pipeline::json::text::write_json;
use glb_pipeline::json::{Json, Member};

fn text(s: &str) -> Json {
    Json::Text(s.as_bytes().to_vec())
}

fn number(s: &str) -> Json {
    Json::Number(s.as_bytes().to_vec())
}

fn member(k: &str, v: Json) -> Member {
    Member { key: k.as_bytes().to_vec(), value: v }
}

fn written(v: &Json) -> Vec<u8> {
    let mut out = Vec::new();
    write_json(&mut out, v);
    out
}

#[test]
fn parse_reads_scalars() {
    assert_eq!(parse(&b" null ".to_vec()), Some(Json::Null));
    assert_eq!(parse(&b"true".to_vec()), Some(Json::Bool(true)));
    assert_eq!(parse(&b"false".to_vec()), Some(Json::Bool(false)));
    assert_eq!(parse(&b"-12.5e+3".to_vec()), Some(number("-12.5e+3")));
    assert_eq!(parse(&b"\"a b\"".to_vec()), Some(text("a b")));
}

#[test]
fn parse_reads_nested_values() {
    let got = parse(&b"{ \"a\" : [1, {\"b\":null}], \"c\":\"d\" }\n".to_vec());
    let want = Json::Object(vec![
        member("a", Json::Array(vec![number("1"), Json::Object(vec![member("b", Json::Null)])])),
        member("c", text("d")),
    ]);
    assert_eq!(got, Some(want));
}

#[test]
fn parse_resolves_escapes() {
    let got = parse(&b"\"\\\"\\\\\\/\\b\\f\\n\\r\\t\\u0041\\u00e9\\u20AC\\ud83d\\ude00\"".to_vec());
    let mut want = b"\"\\/\x08\x0C\n\r\tA".to_vec();
    want.extend_from_slice("\u{e9}\u{20ac}\u{1f600}".as_bytes());
    assert_eq!(got, Some(Json::Text(want)));
}

#[test]
fn parse_rejects_malformed_texts() {
    for bad in [
        "", "nul", "[1,]", "[1 2]", "{\"a\"}", "{\"a\":1,}", "01", "1.", "-", "1e", "+1", ".5",
        "\"abc", "\"\\x\"", "\"\\ud83d\"", "\"\\ude00\"", "\"a\nb\"", "1 2", "[", "{\"a\":1", "tru",
    ] {
        assert_eq!(parse(&bad.as_bytes().to_vec()), None, "{}", bad);
    }
}

#[test]
fn parse_accepts_numerals_of_every_form() {
    for good in ["0", "-0", "10", "0.5", "1e5", "1E-5", "-1.25e+10", "123456789012345678901234567890"] {
        assert_eq!(parse(&good.as_bytes().to_vec()), Some(number(good)), "{}", good);
    }
}

#[test]
fn parse_stops_at_depth_limit() {
    let deep = |n: usize| {
        let mut s = vec![b'['; n];
        s.extend(vec![b']'; n]);
        s
    };
    assert!(parse(&deep(128)).is_some());
    assert_eq!(parse(&deep(129)), None);
}

#[test]
fn write_is_compact_and_escapes() {
    let v = Json::Object(vec![
        member("k\"", Json::Array(vec![Json::Null, Json::Bool(true), Json::Bool(false), number("1.5")])),
        member("t", Json::Text(b"a\\b\n\x01".to_vec())),
        member("e", Json::Array(vec![])),
        member("o", Json::Object(vec![])),
    ]);
    assert_eq!(
        String::from_utf8(written(&v)).unwrap(),
        "{\"k\\\"\":[null,true,false,1.5],\"t\":\"a\\\\b\\u000a\\u0001\",\"e\":[],\"o\":{}}"
    );
}

#[test]
fn written_text_reads_back() {
    let v = Json::Object(vec![
        member("a", Json::Array(vec![number("-1e9"), text("\u{0}\u{1f}\"\\x"), Json::Null])),
        member("", Json::Object(vec![member("b", Json::Bool(false))])),
    ]);
    let mut out = written(&v);
    out.extend_from_slice(b"   ");
    assert_eq!(parse(&out), Some(v));
}
