use stone_prover::json::{decode_doc, encode_doc, Json};

fn parse(text: &str) -> Option<Json> {
    decode_doc(&text.as_bytes().to_vec())
}

fn print(j: &Json) -> String {
    String::from_utf8(encode_doc(j)).unwrap()
}

#[test]
fn scalars_print_canonically() {
    assert_eq!(print(&Json::Null), "null");
    assert_eq!(print(&Json::Bool(true)), "true");
    assert_eq!(print(&Json::Bool(false)), "false");
    assert_eq!(print(&Json::Int(0)), "0");
    assert_eq!(print(&Json::Int(-123)), "-123");
    assert_eq!(print(&Json::Int(i64::MAX)), "9223372036854775807");
    assert_eq!(print(&Json::Int(i64::MIN)), "-9223372036854775808");
    assert_eq!(print(&Json::Arr(vec![])), "[]");
    assert_eq!(print(&Json::Obj(vec![])), "{}");
}

#[test]
fn numbers_parse_back_at_the_boundaries() {
    for v in [0i64, 1, -1, 42, i64::MAX, i64::MIN] {
        match parse(&v.to_string()) {
            Some(Json::Int(w)) => assert_eq!(w, v),
            other => panic!("{} parsed to {:?}", v, other),
        }
    }
    assert!(parse("9223372036854775808").is_none());
    assert!(parse("-9223372036854775809").is_none());
    assert!(parse("01").is_none());
    assert!(parse("1.5").is_none());
    assert!(parse("-").is_none());
}

#[test]
fn strings_parse_with_escapes() {
    match parse("\"a\\\"b\\\\c\\n\\t\\u0041\"") {
        Some(Json::Str(b)) => assert_eq!(b, b"a\"b\\c\n\tA".to_vec()),
        other => panic!("parsed to {:?}", other),
    }
    assert!(parse("\"unterminated").is_none());
    assert!(parse("\"bad escape \\q\"").is_none());
}

#[test]
fn nested_documents_round_trip_through_text() {
    let doc = Json::Obj(vec![
        (b"xs".to_vec(), Json::Arr(vec![Json::Int(1), Json::Null, Json::Bool(false)])),
        (b"s".to_vec(), Json::Str(b"hi there".to_vec())),
        (b"o".to_vec(), Json::Obj(vec![(b"k".to_vec(), Json::Int(-7))])),
    ]);
    let text = print(&doc);
    assert_eq!(text, "{\"xs\":[1,null,false],\"s\":\"hi there\",\"o\":{\"k\":-7}}");
    let back = parse(&text).expect("canonical text must parse");
    assert_eq!(print(&back), text);
}

#[test]
fn whitespace_is_insignificant_between_tokens() {
    let j = parse(" \t\r\n{ \"a\" : [ 1 , 2 ] , \"b\" : { } } \n").expect("must parse");
    assert_eq!(print(&j), "{\"a\":[1,2],\"b\":{}}");
}

#[test]
fn trailing_garbage_is_rejected() {
    assert!(parse("{} {}").is_none());
    assert!(parse("nullx").is_none());
    assert!(parse("[1,]").is_none());
    assert!(parse("{\"a\":}").is_none());
    assert!(parse("").is_none());
}
