//! JSON values and their texts.
use vmond::json::{json_eq, Json, JsonMap};

#[test]
fn values_are_read_and_written() {
    let raw = r#"{"a":[1,-2,18446744073709551615],"b":{"c":null,"d":true},"e":1.5,"f":"x\n"}"#;
    let value = Json::parse(raw).ok().unwrap();
    assert_eq!(value.render(), raw);
    let object = value.as_object().unwrap();
    assert!(matches!(object.get("e"), Some(Json::Float(bits)) if f64::from_bits(*bits) == 1.5));
    assert!(matches!(object.get("a"), Some(Json::Array(items)) if items.len() == 3));
    assert_eq!(object.text_at("f"), Some("x\n".to_owned()));
    assert!(json_eq(&Json::parse(&value.render()).ok().unwrap(), &value));
    assert!(Json::parse("{").is_err());
    assert!(matches!(Json::parse(""), Err(e) if e == "EOF while parsing a value at line 1 column 0"));
}

#[test]
fn names_of_an_object_are_distinct_and_in_order() {
    let value = Json::parse(r#"{"b":1,"a":2,"b":3}"#).ok().unwrap();
    assert_eq!(value.render(), r#"{"a":2,"b":3}"#);
}

#[test]
fn numbers_that_json_lacks_become_null() {
    assert_eq!(Json::Int(i128::MAX).render(), "null");
    assert_eq!(Json::Float(f64::NAN.to_bits()).render(), "null");
    assert_eq!(Json::Float(2.0f64.to_bits()).render(), "2.0");
}

#[test]
fn values_of_integers_and_texts_read_back() {
    let odd: String = (0u32..0x300).chain([0xd7ff, 0xe000, 0x1f600, 0x10ffff]).filter_map(char::from_u32).collect();
    let mut value = Json::Array(vec![
        Json::Int(i128::from(i64::MIN)),
        Json::Int(i128::from(u64::MAX)),
        Json::Int(0),
        Json::Str(odd.clone()),
        Json::Null,
        Json::Bool(true),
    ]);
    for _ in 1..127 {
        let mut object = JsonMap::new();
        object.insert(odd.clone(), value);
        value = Json::Object(object);
    }
    let text = value.render();
    assert!(json_eq(&Json::parse(&text).ok().unwrap(), &value));
    assert!(Json::parse(&format!("[{text}]")).is_err());
}
