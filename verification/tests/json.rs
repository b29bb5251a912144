use getprice::errors::AppError;
use getprice::json::Json;

#[test]
fn json_text_is_read_into_a_tree() {
    let json = Json::parse("{\"b\":[1,\"two\",null,true,{\"x\":-2.50}],\"a\":{\"n\":1e-7}}").unwrap();
    let list = json.get("b").unwrap();
    assert_eq!(list.at(0).unwrap().as_number(), Some("1"));
    assert_eq!(list.at(1).unwrap().as_text(), Some("two"));
    assert!(matches!(list.at(2), Some(Json::Null)));
    assert!(matches!(list.at(3), Some(Json::Bool(true))));
    assert_eq!(list.at(4).unwrap().get("x").unwrap().as_number(), Some("-2.5"));
    assert!(list.at(5).is_none());
    assert_eq!(json.get("a").unwrap().get("n").unwrap().as_number(), Some("1e-7"));
    assert!(json.get("c").is_none());
    assert!(json.get("").is_none());
}

#[test]
fn only_objects_have_fields_and_only_arrays_items() {
    let list = Json::parse("[{\"a\":1}]").unwrap();
    assert!(list.get("a").is_none());
    assert!(list.get("0").is_none());
    assert!(list.at(0).unwrap().at(0).is_none());
    assert!(list.at(0).unwrap().get("a").is_some());
    let text = Json::parse("\"12\"").unwrap();
    assert_eq!(text.as_text(), Some("12"));
    assert_eq!(text.as_number(), None);
    assert!(text.get("a").is_none());
    let number = Json::parse("12").unwrap();
    assert_eq!(number.as_number(), Some("12"));
    assert_eq!(number.as_text(), None);
    assert!(number.at(0).is_none());
}

#[test]
fn the_first_field_of_a_name_is_found() {
    let json = Json::Object(vec![
        ("a".to_string(), Json::Number("1".to_string())),
        ("b".to_string(), Json::Number("2".to_string())),
        ("a".to_string(), Json::Number("3".to_string())),
    ]);
    assert_eq!(json.get("a").unwrap().as_number(), Some("1"));
    assert_eq!(json.get("b").unwrap().as_number(), Some("2"));
}

#[test]
fn what_is_not_json_is_refused_with_the_reason() {
    for text in ["", "{", "{\"a\":}", "[1,]", "nul", "{\"a\":1} x", "<html></html>"] {
        match Json::parse(text) {
            Err(AppError::MalformedResponse(cause)) => assert!(!cause.is_empty()),
            _ => panic!("{:?}", text),
        }
    }
    match Json::parse("[1,") {
        Err(AppError::MalformedResponse(cause)) => {
            assert_eq!(cause, "EOF while parsing a value at line 1 column 3")
        }
        _ => panic!(),
    }
}
