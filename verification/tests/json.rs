use jasonrpc::json::{is_document, split_array, JsonError, JsonRawValue};

#[test]
fn json_error_keeps_its_message() {
    let error = JsonError::new("expected ident at line 1 column 2");
    assert_eq!(error.message(), "expected ident at line 1 column 2");
    assert_eq!(error.to_string(), error.clone().message());
}

#[test]
fn raw_values_are_kept_as_text() {
    let raw = JsonRawValue::from_string(" \t{\"a\": [1, 2.50]}\r\n".to_owned()).unwrap();
    assert_eq!(raw.get(), "{\"a\": [1, 2.50]}");
    assert_eq!(raw.clone(), raw);
    for bad in ["", " ", "{", "1 2", "nul", "\"\n\"", "[1,]"] {
        let error = JsonRawValue::from_string(bad.to_owned()).unwrap_err();
        assert!(!error.message().is_empty(), "{bad:?}");
    }
    assert_ne!(
        JsonRawValue::from_string("1.0".to_owned()).unwrap(),
        JsonRawValue::from_string("1".to_owned()).unwrap()
    );
}

#[test]
fn raw_values_are_written() {
    assert_eq!(JsonRawValue::string("a\"\\\u{8}\u{1f}").get(), r#""a\"\\\b\u001f""#);
    assert_eq!(JsonRawValue::string("plain \u{7f}\u{20ac}").get(), "\"plain \u{7f}\u{20ac}\"");
    assert_eq!(JsonRawValue::integer(i64::MIN).get(), "-9223372036854775808");
    assert_eq!(JsonRawValue::integer(0).get(), "0");
    assert_eq!(JsonRawValue::null().get(), "null");
}

#[test]
fn arrays_are_split_into_their_elements() {
    let rows = split_array(b" [1, {\"a\" : [2]} ,\"x,y\",null ] ").unwrap();
    let rows: Vec<String> = rows.into_iter().map(|r| String::from_utf8(r).unwrap()).collect();
    assert_eq!(rows, ["1", "{\"a\" : [2]}", "\"x,y\"", "null"]);
    assert!(split_array(b"[]").unwrap().is_empty());
    let rows = split_array(b"\n[\t1.50e+1\r\n,\n{ \"b\" :1,\"a\":2 },  [ 1 , 2 ]]").unwrap();
    let rows: Vec<String> = rows.into_iter().map(|r| String::from_utf8(r).unwrap()).collect();
    assert_eq!(rows, ["1.50e+1", "{ \"b\" :1,\"a\":2 }", "[ 1 , 2 ]"]);
    assert!(split_array(b" [ \n ] ").unwrap().is_empty());
    assert!(split_array(b"[\"\xff\"]").is_err());
    for bad in ["{}", "1", "[1", "[1] 2", "", "[1,]", "[,1]", "[1 2]", "[1x]", "[1\"x\"]", "[}"] {
        assert!(!split_array(bad.as_bytes()).unwrap_err().message().is_empty());
    }
}

#[test]
fn documents_are_told_from_other_texts() {
    assert!(is_document(b"{\"a\":1}"));
    assert!(is_document(b" 1 "));
    assert!(!is_document(b"{a:1}"));
    assert!(!is_document(b""));
}
