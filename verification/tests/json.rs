//! JSON values on one line.

use copybot_hot::json::{line_of, read_json, Json};

#[test]
fn a_value_is_written_on_one_line() {
    let j = Json::Fields(vec![
        ("a\"b".to_string(), Json::Number("0.100000".to_string())),
        ("list".to_string(), Json::List(vec![Json::Null, Json::Bool(true), Json::Bool(false)])),
        ("text".to_string(), Json::Text("x\ny\\\u{1}\u{e9}".to_string())),
        ("none".to_string(), Json::Fields(vec![])),
        ("empty".to_string(), Json::List(vec![])),
    ]);
    assert_eq!(
        line_of(&j),
        "{\"a\\\"b\":0.100000,\"list\":[null,true,false],\"text\":\"x\\ny\\\\\\u0001\u{e9}\",\"none\":{},\"empty\":[]}"
    );
}

#[test]
fn a_line_reads_back() {
    let line = r#"{"b":[1,{"c":"d"}],"e":"f\\g"}"#;
    assert_eq!(line_of(&read_json(line).unwrap()), line);
}
