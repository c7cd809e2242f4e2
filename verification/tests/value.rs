use s2replay::value::{dict_insert, find_key, Value};

fn text(s: &str) -> Value {
    Value::String(s.to_string())
}

fn sample() -> Value {
    Value::Dict(vec![
        ("m_title".to_string(), text("Lost Temple")),
        (
            "m_playerList".to_string(),
            Value::Optional(Box::new(Value::Array(vec![Value::Dict(vec![
                ("m_name".to_string(), text("Embegee")),
                ("m_teamId".to_string(), Value::U64(3)),
                ("m_offset".to_string(), Value::I64(-7)),
            ])]))),
        ),
        ("m_none".to_string(), Value::Null),
    ])
}

#[test]
fn as_str_gives_text_only() {
    assert_eq!(text("abc").as_str(), Ok("abc"));
    assert_eq!(text("").as_str(), Ok(""));
    assert_eq!(Value::Bytes(vec![b'a']).as_str(), Err(()));
    assert_eq!(Value::Null.as_str(), Err(()));
    assert_eq!(Value::Optional(Box::new(text("abc"))).as_str(), Err(()));
}

#[test]
fn as_array_looks_through_optional() {
    let items = vec![Value::U64(1), Value::Null];
    assert_eq!(Value::Array(vec![Value::U64(1), Value::Null]).as_array(), Ok(&items[..]));
    assert_eq!(
        Value::Optional(Box::new(Value::Array(vec![Value::U64(1), Value::Null]))).as_array(),
        Ok(&items[..])
    );
    assert_eq!(
        Value::Optional(Box::new(Value::Optional(Box::new(Value::Array(Vec::new()))))).as_array(),
        Ok(&[][..])
    );
    assert_eq!(Value::Optional(Box::new(Value::U64(1))).as_array(), Err(()));
    assert_eq!(Value::Dict(Vec::new()).as_array(), Err(()));
    assert_eq!(Value::Null.as_array(), Err(()));
}

#[test]
fn as_u64_and_as_i64_keep_apart() {
    assert_eq!(Value::U64(u64::MAX).as_u64(), Ok(u64::MAX));
    assert_eq!(Value::U64(5).as_i64(), Err(()));
    assert_eq!(Value::I64(-5).as_i64(), Ok(-5));
    assert_eq!(Value::I64(5).as_u64(), Err(()));
    assert_eq!(Value::Boolean(true).as_u64(), Err(()));
    assert_eq!(text("5").as_i64(), Err(()));
}

#[test]
fn get_path_walks_the_dictionaries() {
    let value = sample();
    assert_eq!(value.get_path(&[]), Ok(&value));
    assert_eq!(value.get_path(&["m_title"]).and_then(|x| x.as_str()), Ok("Lost Temple"));
    assert_eq!(value.get_path(&["m_none"]), Ok(&Value::Null));
    assert_eq!(value.get_path(&["m_missing"]), Err(()));
    assert_eq!(value.get_path(&["m_title", "more"]), Err(()));
    // an optional is no dictionary, and neither is an array
    assert_eq!(value.get_path(&["m_playerList", "m_name"]), Err(()));
    let players = value.get_path(&["m_playerList"]).and_then(|x| x.as_array()).unwrap();
    assert_eq!(players[0].get_path(&["m_teamId"]).and_then(|x| x.as_u64()), Ok(3));
    assert_eq!(players[0].get_path(&["m_offset"]).and_then(|x| x.as_i64()), Ok(-7));
    assert_eq!(players[0].get_path(&["m_name"]).and_then(|x| x.as_str()), Ok("Embegee"));
    assert_eq!(Value::U64(1).get_path(&["a"]), Err(()));
    assert_eq!(Value::U64(1).get_path(&[]), Ok(&Value::U64(1)));
    let nested = Value::Dict(vec![(
        "a".to_string(),
        Value::Dict(vec![("b".to_string(), Value::Dict(vec![("c".to_string(), Value::U64(9))]))]),
    )]);
    assert_eq!(nested.get_path(&["a", "b", "c"]), Ok(&Value::U64(9)));
    assert_eq!(nested.get_path(&["a", "c"]), Err(()));
}

#[test]
fn dictionary_keeps_each_key_once() {
    let mut entries: Vec<(String, Value)> = Vec::new();
    dict_insert(&mut entries, "b".to_string(), Value::U64(1));
    dict_insert(&mut entries, "a".to_string(), Value::U64(2));
    dict_insert(&mut entries, "b".to_string(), Value::U64(3));
    assert_eq!(
        entries,
        vec![("b".to_string(), Value::U64(3)), ("a".to_string(), Value::U64(2))]
    );
    assert_eq!(find_key(&entries, "a"), Some(1));
    assert_eq!(find_key(&entries, "b"), Some(0));
    assert_eq!(find_key(&entries, "A"), None);
    assert_eq!(find_key(&entries, ""), None);
}
