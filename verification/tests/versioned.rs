use s2replay::color::{Color, ColorField, ColorVisitor};
use s2replay::format::{find_choice_arm, find_struct_field, IntBounds, Struct, TypeInfo};
use s2replay::protocol15405::{
    game_event_types, message_event_types, typeinfos, GAME_DETAILS_TYPEID, GAME_EVENTID_TYPEID,
    MESSAGE_EVENTID_TYPEID, PROTOCOL_NUM, REPLAY_HEADER_TYPEID, TYPE_COUNT,
};
use s2replay::value::Value;
use s2replay::versioned::{
    blob_value, catalogue_is_valid, decode, int_value, Deserializer, Error, ErrorCode,
    PrimitiveInt,
};
use s2replay::vlq::read_vlq;

const HEADER: &'static [u8] = &[
    0x05, 0x08, 0x00, 0x09, 0xfe, 0x03, 0x02, 0x09, 0xd6, 0x03, 0x04, 0x09, 0xc2, 0x03, 0x06, 0x09,
    0x52, 0x08, 0x09, 0x04, 0x0a, 0x09, 0x02, 0x0c, 0x09, 0xc8, 0x01, 0x0e, 0x09, 0x00, 0x10, 0x09,
    0x04, 0x05, 0x12, 0x00, 0x02, 0x0e, 0x45, 0x6d, 0x62, 0x65, 0x67, 0x65, 0x65, 0x02, 0x05, 0x08,
    0x00, 0x09, 0x04, 0x02, 0x07, 0x00, 0x00, 0x53, 0x32, 0x04, 0x09, 0x02, 0x08, 0x09, 0xf4,
];

const FILE_JSON: &'static str = "{\"m_signature\":\"StarCraft II replay\\u001b11\",\"m_version\":{\"m_flags\":1,\"m_major\":1,\"m_minor\":0,\"m_revision\":2,\"m_build\":16223,\"m_baseBuild\":15405},\"m_type\":2,\"m_elapsedGameLoops\":25243}";

const REPLAY_DETAILS: [u8; 267] = [
    0x05, 0x1c, 0x00, 0x04, 0x01, 0x00, 0x04, 0x05, 0x12, 0x00, 0x02, 0x0e,
    0x45, 0x6d, 0x62, 0x65, 0x67, 0x65, 0x65, 0x02, 0x05, 0x0a, 0x00, 0x09,
    0x02, 0x02, 0x07, 0x00, 0x00, 0x53, 0x32, 0x04, 0x09, 0x02, 0x06, 0x02,
    0x00, 0x08, 0x09, 0x80, 0x89, 0x0f, 0x04, 0x02, 0x0c, 0x54, 0x65, 0x72,
    0x72, 0x61, 0x6e, 0x06, 0x05, 0x08, 0x00, 0x09, 0xfe, 0x03, 0x02, 0x09,
    0xd6, 0x03, 0x04, 0x09, 0xc2, 0x03, 0x06, 0x09, 0x52, 0x08, 0x09, 0x04,
    0x0a, 0x09, 0x00, 0x0c, 0x09, 0xc8, 0x01, 0x0e, 0x09, 0x00, 0x10, 0x09,
    0x02, 0x05, 0x12, 0x00, 0x02, 0x0a, 0x4d, 0x65, 0x64, 0x69, 0x63, 0x02,
    0x05, 0x0a, 0x00, 0x09, 0x02, 0x02, 0x07, 0x00, 0x00, 0x53, 0x32, 0x04,
    0x09, 0x02, 0x06, 0x02, 0x00, 0x08, 0x09, 0x80, 0x89, 0x0f, 0x04, 0x02,
    0x08, 0x5a, 0x65, 0x72, 0x67, 0x06, 0x05, 0x08, 0x00, 0x09, 0xfe, 0x03,
    0x02, 0x09, 0xe8, 0x02, 0x04, 0x09, 0x28, 0x06, 0x09, 0x3c, 0x08, 0x09,
    0x04, 0x0a, 0x09, 0x02, 0x0c, 0x09, 0xc8, 0x01, 0x0e, 0x09, 0x00, 0x10,
    0x09, 0x02, 0x02, 0x02, 0x16, 0x4c, 0x6f, 0x73, 0x74, 0x20, 0x54, 0x65,
    0x6d, 0x70, 0x6c, 0x65, 0x04, 0x02, 0x00, 0x06, 0x05, 0x02, 0x00, 0x02,
    0x16, 0x4d, 0x69, 0x6e, 0x69, 0x6d, 0x61, 0x70, 0x2e, 0x74, 0x67, 0x61,
    0x08, 0x06, 0x01, 0x0a, 0x09, 0xd0, 0x0f, 0x0c, 0x09, 0x00, 0x0e, 0x02,
    0x00, 0x10, 0x02, 0x00, 0x12, 0x02, 0x00, 0x14, 0x04, 0x01, 0x00, 0x02,
    0x02, 0x50, 0x73, 0x32, 0x6d, 0x61, 0x00, 0x00, 0x55, 0x53, 0xc8, 0xc9,
    0xca, 0xcb, 0xcc, 0xcd, 0xce, 0xcf, 0xd0, 0xd1, 0xd2, 0xd3, 0xd4, 0xd5,
    0xd6, 0xd7, 0xd8, 0xd9, 0xda, 0xdb, 0xdc, 0xdd, 0xde, 0xdf, 0xe0, 0xe1,
    0xe2, 0xe3, 0xe4, 0xe5, 0xe6, 0xe7, 0x16, 0x06, 0x00, 0x18, 0x09, 0x08,
    0x1a, 0x09, 0x00,
];
const HEADER_FILE: [u8; 60] = [
    0x05, 0x08, 0x00, 0x02, 0x2c, 0x53, 0x74, 0x61, 0x72, 0x43, 0x72, 0x61,
    0x66, 0x74, 0x20, 0x49, 0x49, 0x20, 0x72, 0x65, 0x70, 0x6c, 0x61, 0x79,
    0x1b, 0x31, 0x31, 0x02, 0x05, 0x0c, 0x00, 0x09, 0x02, 0x02, 0x09, 0x02,
    0x04, 0x09, 0x00, 0x06, 0x09, 0x04, 0x08, 0x09, 0xbe, 0xfd, 0x01, 0x0a,
    0x09, 0xda, 0xf0, 0x01, 0x04, 0x09, 0x04, 0x06, 0x09, 0xb6, 0x8a, 0x03,
];

fn to_json(value: &Value) -> serde_json::Value {
    match value {
        Value::I64(n) => serde_json::Value::from(*n),
        Value::U64(n) => serde_json::Value::from(*n),
        Value::Bytes(bytes) => {
            serde_json::Value::Array(bytes.iter().map(|b| serde_json::Value::from(*b)).collect())
        }
        Value::String(text) => serde_json::Value::from(text.clone()),
        Value::Array(items) => serde_json::Value::Array(items.iter().map(to_json).collect()),
        Value::Dict(entries) => {
            let mut map = serde_json::Map::new();
            for (key, item) in entries.iter() {
                map.insert(key.clone(), to_json(item));
            }
            serde_json::Value::Object(map)
        }
        Value::Optional(inner) => to_json(inner),
        Value::Boolean(b) => serde_json::Value::Bool(*b),
        Value::Null => serde_json::Value::Null,
    }
}

fn text(s: &str) -> Value {
    Value::String(s.to_string())
}

fn syntax(code: ErrorCode, at: usize) -> Error {
    Error::SyntaxError(code, at)
}

#[test]
fn test_versioned() {
    let catalogue = typeinfos();
    let mut de = Deserializer::new(HEADER, &catalogue, 18);
    let color: Color = Color::deserialize(&mut de).unwrap();
    assert_eq!(color.a, 255);
    assert_eq!(color.r, 235);
    assert_eq!(color.g, 225);
    assert_eq!(color.b, 41);
}

#[test]
fn test_versioned_json() {
    let catalogue = typeinfos();
    let mut de = Deserializer::new(HEADER, &catalogue, 18);
    let color: serde_json::Value = to_json(&de.root().unwrap());
    assert_eq!(color.to_string(), "{\"m_a\":255,\"m_b\":41,\"m_g\":225,\"m_r\":235}");
}

#[test]
fn details_json_deserialize() {
    let catalogue = typeinfos();
    let stuff = decode(&catalogue, GAME_DETAILS_TYPEID, &REPLAY_DETAILS).unwrap();
    assert_eq!(stuff.get_path(&["m_title"]).and_then(|x| x.as_str()), Ok("Lost Temple"));
    let players = stuff.get_path(&["m_playerList"]).and_then(|x| x.as_array()).unwrap();
    assert_eq!(players.len(), 2);
    assert_eq!(players[0].get_path(&["m_name"]).and_then(|x| x.as_str()), Ok("Embegee"));
    assert_eq!(players[0].get_path(&["m_race"]).and_then(|x| x.as_str()), Ok("Terran"));
    assert_eq!(players[0].get_path(&["m_teamId"]).and_then(|x| x.as_u64()), Ok(0));
    assert_eq!(players[1].get_path(&["m_name"]).and_then(|x| x.as_str()), Ok("Medic"));
    assert_eq!(players[1].get_path(&["m_race"]).and_then(|x| x.as_str()), Ok("Zerg"));
    assert_eq!(players[1].get_path(&["m_teamId"]).and_then(|x| x.as_u64()), Ok(1));
    assert_eq!(players[1].get_path(&["m_color", "m_r"]).and_then(|x| x.as_u64()), Ok(180));
    assert_eq!(
        players[0].get_path(&["m_toon", "m_programId"]),
        Ok(&Value::Bytes(vec![0, 0, b'S', b'2']))
    );
    assert_eq!(stuff.get_path(&["m_isBlizzardMap"]), Ok(&Value::Boolean(true)));
    assert_eq!(stuff.get_path(&["m_miniSave"]), Ok(&Value::Boolean(false)));
    // the type of the time starts at the least 64-bit number
    assert_eq!(
        stuff.get_path(&["m_timeUTC"]).and_then(|x| x.as_i64()),
        Ok(-9223372036854775808 + 1000)
    );
    let handles = stuff.get_path(&["m_cacheHandles"]).and_then(|x| x.as_array()).unwrap();
    assert_eq!(handles.len(), 1);
    match &handles[0] {
        Value::Bytes(bytes) => assert_eq!(bytes.len(), 40),
        other => panic!("a handle that is no text is bytes, got {:?}", other),
    }
}

#[test]
fn header_json_deserialize() {
    let expected: serde_json::Value = serde_json::from_str(FILE_JSON).unwrap();
    let catalogue = typeinfos();
    let result = to_json(&decode(&catalogue, REPLAY_HEADER_TYPEID, &HEADER_FILE).unwrap());
    assert_eq!(expected, result);
}

#[test]
fn test() {
    let catalogue = typeinfos();
    let mut de = Deserializer::new(&HEADER_FILE, &catalogue, REPLAY_HEADER_TYPEID as usize);
    let root = de.root().unwrap();
    assert_eq!(de.offset(), 60);
    assert_eq!(
        root,
        Value::Dict(vec![
            ("m_signature".to_string(), text("StarCraft II replay\u{1b}11")),
            (
                "m_version".to_string(),
                Value::Dict(vec![
                    ("m_flags".to_string(), Value::U64(1)),
                    ("m_major".to_string(), Value::U64(1)),
                    ("m_minor".to_string(), Value::U64(0)),
                    ("m_revision".to_string(), Value::U64(2)),
                    ("m_build".to_string(), Value::U64(16223)),
                    ("m_baseBuild".to_string(), Value::U64(15405)),
                ])
            ),
            ("m_type".to_string(), Value::U64(2)),
            ("m_elapsedGameLoops".to_string(), Value::U64(25243)),
        ])
    );
}

#[test]
fn catalogue_is_the_one_of_the_protocol() {
    let catalogue = typeinfos();
    assert_eq!(PROTOCOL_NUM, 15405);
    assert_eq!(catalogue.len(), TYPE_COUNT);
    assert_eq!(catalogue.len(), 131);
    assert!(catalogue_is_valid(&catalogue));
    assert_eq!(REPLAY_HEADER_TYPEID, 13);
    assert_eq!(GAME_DETAILS_TYPEID, 32);
    assert_eq!(GAME_EVENTID_TYPEID, 0);
    assert_eq!(MESSAGE_EVENTID_TYPEID, 1);
    match &catalogue[18] {
        TypeInfo::Struct(st) => {
            assert_eq!(st.fields, vec![("m_a", 10, 0), ("m_r", 10, 1), ("m_g", 10, 2), ("m_b", 10, 3)]);
            assert_eq!(find_struct_field(&st.fields, 2), Some(2));
            assert_eq!(find_struct_field(&st.fields, 4), None);
            assert_eq!(find_struct_field(&st.fields, -1), None);
        }
        other => panic!("type 18 is the colour, got {:?}", other),
    }
    match &catalogue[27] {
        TypeInfo::Int { bounds } => {
            assert_eq!(bounds.min, -9223372036854775808);
            assert_eq!(bounds.bitlen, 64);
        }
        other => panic!("type 27 is a 64-bit integer, got {:?}", other),
    }
    match &catalogue[130] {
        TypeInfo::Struct(st) => assert_eq!(st.fields, vec![("m_progress", 64, -1)]),
        other => panic!("type 130 is a struct, got {:?}", other),
    }
}

#[test]
fn catalogue_with_a_loose_reference_is_not_valid() {
    let mut catalogue = typeinfos();
    catalogue.truncate(20);
    // type 17 refers to type 14 and 16, type 13 to 11: still inside; 8 to 7
    assert!(catalogue_is_valid(&catalogue));
    catalogue.truncate(14);
    assert!(catalogue_is_valid(&catalogue));
    catalogue.push(TypeInfo::Optional { typeid: 15 });
    assert!(!catalogue_is_valid(&catalogue));
    let looped = vec![TypeInfo::Array { bounds: IntBounds { min: 0, bitlen: 4 }, typeid: 0 }];
    assert!(catalogue_is_valid(&looped));
    let loose = vec![TypeInfo::Struct(Struct { fields: vec![("x", 0, 0), ("y", 1, 1)] })];
    assert!(!catalogue_is_valid(&loose));
    let arms = vec![TypeInfo::Choice {
        bounds: IntBounds { min: 0, bitlen: 1 },
        types: vec![(0, "a", 0), (1, "b", 7)],
    }];
    assert!(!catalogue_is_valid(&arms));
    assert!(catalogue_is_valid(&[]));
}

#[test]
fn events_are_found_by_their_identifier() {
    let game = game_event_types();
    assert_eq!(game.len(), 73);
    let at = find_choice_arm(&game, 27).unwrap();
    assert_eq!(game[at], (27, "NNet.Game.SCmdEvent", 70));
    let at = find_choice_arm(&game, 96).unwrap();
    assert_eq!(game[at], (96, "NNet.Game.STriggerGameCreditsFinishedEvent", 62));
    assert_eq!(find_choice_arm(&game, 6), None);
    let message = message_event_types();
    assert_eq!(message.len(), 4);
    let at = find_choice_arm(&message, 1).unwrap();
    assert_eq!(message[at], (1, "NNet.Game.SPingMessage", 129));
    assert_eq!(find_choice_arm(&message, 4), None);
}

fn number<T: PrimitiveInt>(bytes: &[u8]) -> Result<T, ErrorCode> {
    T::from_vint(read_vlq(bytes, 0).unwrap())
}

#[test]
fn vlq_boundary_values() {
    assert_eq!(number::<i64>(&[0x00]), Ok(0));
    assert_eq!(number::<i64>(&[0x03]), Ok(-1));
    assert_eq!(number::<i64>(&[0x7e]), Ok(63));
    assert_eq!(number::<i64>(&[0x80, 0x01]), Ok(64));
    assert_eq!(number::<i64>(&[0x81, 0x01]), Ok(-64));
    // a negative zero is refused where an unsigned number is due
    assert_eq!(number::<u32>(&[0x01]), Err(ErrorCode::NegativeInUnsigned));
    assert_eq!(number::<u8>(&[0x01]), Err(ErrorCode::NegativeInUnsigned));
    assert_eq!(number::<u64>(&[0x01]), Err(ErrorCode::NegativeInUnsigned));
    assert_eq!(number::<usize>(&[0x03]), Err(ErrorCode::NegativeInUnsigned));
    assert_eq!(number::<i64>(&[0x01]), Ok(0));
    assert_eq!(number::<i32>(&[0x01]), Ok(0));
}

#[test]
fn vlq_lengths_and_continuation() {
    let raw = read_vlq(&[0xff, 0xbe, 0xfd, 0x01, 0x55], 1).unwrap();
    assert_eq!(raw.len, 3);
    assert_eq!(raw.negative, false);
    assert_eq!(raw.magnitude, Some(16223));
    assert_eq!(read_vlq(&[0x80], 0).map(|r| r.len), None);
    assert_eq!(read_vlq(&[0x80, 0x80, 0x80], 0).map(|r| r.len), None);
    assert_eq!(read_vlq(&[0x00], 1).map(|r| r.len), None);
    // groups of zeros keep the value
    let padded = read_vlq(&[0x82, 0x80, 0x80, 0x80, 0x80, 0x80, 0x80, 0x80, 0x80, 0x80, 0x80, 0x00], 0).unwrap();
    assert_eq!(padded.len, 12);
    assert_eq!(padded.magnitude, Some(1));
    // 6 + 9 * 7 = 69 bits of ones do not fit
    let wide = read_vlq(&[0xfe, 0xff, 0xff, 0xff, 0xff, 0xff, 0xff, 0xff, 0xff, 0x7f], 0).unwrap();
    assert_eq!(wide.len, 10);
    assert_eq!(wide.magnitude, None);
}

#[test]
fn vlq_widths() {
    // 255 and 256
    assert_eq!(number::<u8>(&[0xfe, 0x03]), Ok(255));
    assert_eq!(number::<u8>(&[0x80, 0x04]), Err(ErrorCode::IntOutOfRange));
    // 2^32 - 1 and 2^32
    assert_eq!(number::<u32>(&[0xfe, 0xff, 0xff, 0xff, 0x1f]), Ok(u32::MAX));
    assert_eq!(number::<u32>(&[0x80, 0x80, 0x80, 0x80, 0x20]), Err(ErrorCode::IntOutOfRange));
    assert_eq!(number::<u64>(&[0x80, 0x80, 0x80, 0x80, 0x20]), Ok(1 << 32));
    assert_eq!(number::<usize>(&[0x80, 0x80, 0x80, 0x80, 0x20]), Ok(1 << 32));
    // 2^31 - 1, 2^31, -2^31, -2^31 - 1
    assert_eq!(number::<i32>(&[0xfe, 0xff, 0xff, 0xff, 0x0f]), Ok(i32::MAX));
    assert_eq!(number::<i32>(&[0x80, 0x80, 0x80, 0x80, 0x10]), Err(ErrorCode::IntOutOfRange));
    assert_eq!(number::<i32>(&[0x81, 0x80, 0x80, 0x80, 0x10]), Ok(i32::MIN));
    assert_eq!(number::<i32>(&[0x83, 0x80, 0x80, 0x80, 0x10]), Err(ErrorCode::IntOutOfRange));
    // 2^63 - 1, 2^63, -2^63, 2^64 - 1, 2^64
    let max63 = [0xfe, 0xff, 0xff, 0xff, 0xff, 0xff, 0xff, 0xff, 0xff, 0x01];
    let pow63 = [0x80, 0x80, 0x80, 0x80, 0x80, 0x80, 0x80, 0x80, 0x80, 0x02];
    let neg63 = [0x81, 0x80, 0x80, 0x80, 0x80, 0x80, 0x80, 0x80, 0x80, 0x02];
    let max64 = [0xfe, 0xff, 0xff, 0xff, 0xff, 0xff, 0xff, 0xff, 0xff, 0x03];
    let pow64 = [0x80, 0x80, 0x80, 0x80, 0x80, 0x80, 0x80, 0x80, 0x80, 0x04];
    assert_eq!(number::<i64>(&max63), Ok(i64::MAX));
    assert_eq!(number::<i64>(&pow63), Err(ErrorCode::IntOutOfRange));
    assert_eq!(number::<i64>(&neg63), Ok(i64::MIN));
    assert_eq!(number::<u64>(&pow63), Ok(1 << 63));
    assert_eq!(number::<u64>(&max64), Ok(u64::MAX));
    assert_eq!(number::<u64>(&pow64), Err(ErrorCode::IntOutOfRange));
    assert_eq!(number::<i64>(&pow64), Err(ErrorCode::IntOutOfRange));
}

#[test]
fn blob_of_length_zero() {
    let catalogue = typeinfos();
    let value = decode(&catalogue, 9, &[0x02, 0x00]).unwrap();
    // no byte at all: the bytes are valid text, so the value is the empty text
    assert_eq!(value, text(""));
    assert_eq!(value.as_str().map(|s| s.as_bytes().to_vec()), Ok(Vec::new()));
}

#[test]
fn blob_is_text_where_it_is_valid_utf8() {
    let catalogue = typeinfos();
    assert_eq!(decode(&catalogue, 9, &[0x02, 0x06, b'a', b'b', b'c']), Ok(text("abc")));
    assert_eq!(decode(&catalogue, 9, &[0x02, 0x04, 0xc3, 0xa9]), Ok(text("\u{e9}")));
    assert_eq!(decode(&catalogue, 9, &[0x02, 0x04, 0xc3, 0x28]), Ok(Value::Bytes(vec![0xc3, 0x28])));
    assert_eq!(decode(&catalogue, 9, &[0x02, 0x02, 0xff]), Ok(Value::Bytes(vec![0xff])));
    assert_eq!(blob_value(vec![b'S', b'2']), text("S2"));
    assert_eq!(blob_value(vec![0x80]), Value::Bytes(vec![0x80]));
    assert_eq!(blob_value(Vec::new()), text(""));
}

#[test]
fn optional_none_is_null_whatever_the_element() {
    let catalogue = typeinfos();
    for typeid in [22usize, 31, 33, 47, 48, 77, 104] {
        assert_eq!(decode(&catalogue, typeid, &[0x04, 0x00]), Ok(Value::Null));
    }
}

#[test]
fn optional_some_wraps_the_value() {
    let catalogue = typeinfos();
    assert_eq!(
        decode(&catalogue, 33, &[0x04, 0x01, 0x09, 0x0a]),
        Ok(Value::Optional(Box::new(Value::U64(5))))
    );
    assert_eq!(
        decode(&catalogue, 33, &[0x04, 0xff, 0x09, 0x0a]),
        Ok(Value::Optional(Box::new(Value::U64(5))))
    );
    assert_eq!(decode(&catalogue, 33, &[0x04]), Err(syntax(ErrorCode::UnexpectedEof, 1)));
    assert_eq!(decode(&catalogue, 33, &[0x04, 0x01]), Err(syntax(ErrorCode::UnexpectedEof, 2)));
}

#[test]
fn integer_counts_from_the_least_value_of_its_type() {
    let catalogue = typeinfos();
    // type 38 starts at 1, type 64 at -2^31, type 84 at -128
    assert_eq!(decode(&catalogue, 38, &[0x09, 0x06]), Ok(Value::U64(4)));
    assert_eq!(decode(&catalogue, 64, &[0x09, 0x0a]), Ok(Value::I64(-2147483643)));
    assert_eq!(decode(&catalogue, 84, &[0x09, 0x80, 0x02]), Ok(Value::U64(0)));
    assert_eq!(decode(&catalogue, 84, &[0x09, 0xfe, 0x01]), Ok(Value::I64(-1)));
    assert_eq!(decode(&catalogue, 10, &[0x09, 0x03]), Ok(Value::I64(-1)));
    assert_eq!(int_value(1, 3), Ok(Value::U64(4)));
    assert_eq!(int_value(-5, 3), Ok(Value::I64(-2)));
    assert_eq!(int_value(i64::MAX, 1), Err(ErrorCode::IntOutOfRange));
    assert_eq!(int_value(i64::MIN, -1), Err(ErrorCode::IntOutOfRange));
    assert_eq!(int_value(i64::MIN, i64::MAX), Ok(Value::I64(-1)));
}

#[test]
fn array_holds_its_elements_in_order() {
    let catalogue = typeinfos();
    // type 50: array of type 5
    assert_eq!(
        decode(&catalogue, 50, &[0x00, 0x06, 0x09, 0x02, 0x09, 0x04, 0x09, 0x06]),
        Ok(Value::Array(vec![Value::U64(1), Value::U64(2), Value::U64(3)]))
    );
    assert_eq!(decode(&catalogue, 50, &[0x00, 0x00]), Ok(Value::Array(Vec::new())));
    assert_eq!(
        decode(&catalogue, 50, &[0x00, 0x04, 0x09, 0x02]),
        Err(syntax(ErrorCode::UnexpectedEof, 4))
    );
    assert_eq!(
        decode(&catalogue, 50, &[0x00, 0x04, 0x09, 0x02, 0x06, 0x01]),
        Err(syntax(ErrorCode::TypeMismatch { expected: 5, got_kind: 6 }, 4))
    );
}

#[test]
fn bit_array_is_its_count_and_its_bytes() {
    let catalogue = typeinfos();
    assert_eq!(
        decode(&catalogue, 41, &[0x01, 0x14, 0xab, 0x03]),
        Ok(Value::Array(vec![Value::U64(10), Value::Bytes(vec![0xab, 0x03])]))
    );
    assert_eq!(
        decode(&catalogue, 41, &[0x01, 0x00]),
        Ok(Value::Array(vec![Value::U64(0), Value::Bytes(Vec::new())]))
    );
    assert_eq!(decode(&catalogue, 41, &[0x01, 0x12, 0xab]), Err(syntax(ErrorCode::UnexpectedEof, 3)));
}

#[test]
fn choice_is_a_dictionary_of_its_arm() {
    let catalogue = typeinfos();
    assert_eq!(
        decode(&catalogue, 6, &[0x03, 0x02, 0x09, 0x80, 0x01]),
        Ok(Value::Dict(vec![("m_uint14".to_string(), Value::U64(64))]))
    );
    assert_eq!(
        decode(&catalogue, 96, &[0x03, 0x08, 0x02, 0x04, b'o', b'k']),
        Ok(Value::Dict(vec![("TextChanged".to_string(), text("ok"))]))
    );
    assert_eq!(
        decode(&catalogue, 6, &[0x03, 0x08, 0x09, 0x00]),
        Err(syntax(ErrorCode::UnknownChoice(4), 1))
    );
    // the arm `None` of type 96 is the null type, which has no form on the wire
    assert_eq!(
        decode(&catalogue, 96, &[0x03, 0x00, 0x09, 0x00]),
        Err(syntax(ErrorCode::TypeMismatch { expected: 95, got_kind: 9 }, 2))
    );
}

#[test]
fn bool_and_raw_bytes() {
    let catalogue = typeinfos();
    assert_eq!(decode(&catalogue, 26, &[0x06, 0x00]), Ok(Value::Boolean(false)));
    assert_eq!(decode(&catalogue, 26, &[0x06, 0x02]), Ok(Value::Boolean(true)));
    assert_eq!(decode(&catalogue, 26, &[0x06]), Err(syntax(ErrorCode::UnexpectedEof, 1)));
    assert_eq!(
        decode(&catalogue, 14, &[0x07, 0x00, 0x00, 0x53, 0x32]),
        Ok(Value::Bytes(vec![0x00, 0x00, 0x53, 0x32]))
    );
    assert_eq!(decode(&catalogue, 14, &[0x07, 0x00, 0x00, 0x53]), Err(syntax(ErrorCode::UnexpectedEof, 4)));
    let reals = vec![TypeInfo::Real32, TypeInfo::Real64];
    assert_eq!(decode(&reals, 0, &[0x07, 1, 2, 3, 4]), Ok(Value::Bytes(vec![1, 2, 3, 4])));
    assert_eq!(
        decode(&reals, 1, &[0x08, 1, 2, 3, 4, 5, 6, 7, 8]),
        Ok(Value::Bytes(vec![1, 2, 3, 4, 5, 6, 7, 8]))
    );
    assert_eq!(
        decode(&reals, 1, &[0x07, 1, 2, 3, 4]),
        Err(syntax(ErrorCode::TypeMismatch { expected: 1, got_kind: 7 }, 0))
    );
}

#[test]
fn struct_fields_come_by_tag_in_wire_order() {
    let catalogue = typeinfos();
    // b, then a, then b again: b keeps its place and takes the later value
    assert_eq!(
        decode(&catalogue, 18, &[0x05, 0x06, 0x06, 0x09, 0x02, 0x00, 0x09, 0x04, 0x06, 0x09, 0x06]),
        Ok(Value::Dict(vec![
            ("m_b".to_string(), Value::U64(3)),
            ("m_a".to_string(), Value::U64(2)),
        ]))
    );
    // type 8 has the single field m_playerId with the tag -1
    assert_eq!(
        decode(&catalogue, 8, &[0x05, 0x02, 0x03, 0x09, 0x0e]),
        Ok(Value::Dict(vec![("m_playerId".to_string(), Value::U64(7))]))
    );
    assert_eq!(decode(&catalogue, 62, &[0x05, 0x00]), Ok(Value::Dict(Vec::new())));
}

#[test]
fn each_failure_of_the_decoder() {
    let catalogue = typeinfos();
    assert_eq!(decode(&catalogue, 13, &[]), Err(syntax(ErrorCode::UnexpectedEof, 0)));
    assert_eq!(decode(&catalogue, 13, &[0x05]), Err(syntax(ErrorCode::UnexpectedEof, 1)));
    assert_eq!(decode(&catalogue, 13, &[0x0a]), Err(syntax(ErrorCode::BadKindByte(0x0a), 0)));
    assert_eq!(decode(&catalogue, 13, &[0xff, 0x00]), Err(syntax(ErrorCode::BadKindByte(0xff), 0)));
    assert_eq!(
        decode(&catalogue, 13, &[0x09, 0x00]),
        Err(syntax(ErrorCode::TypeMismatch { expected: 13, got_kind: 9 }, 0))
    );
    assert_eq!(
        decode(&catalogue, 18, &[0x05, 0x02, 0x10, 0x09, 0x00]),
        Err(syntax(ErrorCode::BadTag(8), 2))
    );
    assert_eq!(
        decode(&catalogue, 18, &[0x05, 0x02, 0x03, 0x09, 0x00]),
        Err(syntax(ErrorCode::BadTag(-1), 2))
    );
    assert_eq!(decode(&catalogue, 6, &[0x03, 0x0a]), Err(syntax(ErrorCode::UnknownChoice(5), 1)));
    assert_eq!(decode(&catalogue, 27, &[0x09, 0x03]), Err(syntax(ErrorCode::IntOutOfRange, 1)));
    assert_eq!(
        decode(&catalogue, 9, &[0x02, 0x80, 0x80, 0x80, 0x80, 0x20]),
        Err(syntax(ErrorCode::IntOutOfRange, 1))
    );
    assert_eq!(decode(&catalogue, 9, &[0x02, 0x01]), Err(syntax(ErrorCode::NegativeInUnsigned, 1)));
    assert_eq!(decode(&catalogue, 18, &[0x05, 0x03]), Err(syntax(ErrorCode::NegativeInUnsigned, 1)));
    assert_eq!(decode(&catalogue, 10, &[0x09, 0x02, 0xff]), Err(syntax(ErrorCode::TrailingBytes, 2)));
    assert_eq!(decode(&catalogue, 18, HEADER), Err(syntax(ErrorCode::TrailingBytes, 17)));
    assert_eq!(decode(&catalogue, 9, &[0x02, 0x06, b'a']), Err(syntax(ErrorCode::UnexpectedEof, 3)));
    assert_eq!(decode(&catalogue, 10, &[0x09, 0x80]), Err(syntax(ErrorCode::UnexpectedEof, 2)));
}

#[test]
fn stack_is_as_deep_after_a_value_as_before() {
    let catalogue = typeinfos();
    let mut de = Deserializer::new(&REPLAY_DETAILS, &catalogue, GAME_DETAILS_TYPEID);
    assert_eq!(de.depth(), 1);
    assert!(de.visit().is_ok());
    assert_eq!(de.depth(), 1);
    assert_eq!(de.offset(), REPLAY_DETAILS.len());
    assert_eq!(de.top_typeinfo(), 32);
    // a failure deep inside pops what was pushed
    let broken = &REPLAY_DETAILS[..100];
    let mut de = Deserializer::new(broken, &catalogue, GAME_DETAILS_TYPEID);
    assert_eq!(de.visit(), Err(syntax(ErrorCode::UnexpectedEof, 100)));
    assert_eq!(de.depth(), 1);
    let mut de = Deserializer::new(&[0x09, 0x02, 0x09, 0x04], &catalogue, 5);
    assert_eq!(de.instance(10), Ok(Value::U64(1)));
    assert_eq!(de.depth(), 1);
    assert_eq!(de.instance(26), Err(syntax(ErrorCode::TypeMismatch { expected: 26, got_kind: 9 }, 2)));
    assert_eq!(de.depth(), 1);
    assert_eq!(de.top_typeinfo(), 5);
}

#[test]
fn decoder_reads_piece_by_piece() {
    let catalogue = typeinfos();
    let mut de = Deserializer::new(HEADER, &catalogue, 18);
    assert_eq!(de.peek(), Some(0x05));
    assert_eq!(de.expect_skip(0x09), Err(syntax(ErrorCode::TypeMismatch { expected: 18, got_kind: 5 }, 0)));
    assert_eq!(de.offset(), 0);
    assert_eq!(de.expect_skip(0x05), Ok(()));
    assert_eq!(de.parse_vint::<u32>(), Ok(4));
    assert_eq!(de.parse_vint::<i64>(), Ok(0));
    assert_eq!(de.integer(IntBounds { min: 0, bitlen: 8 }), Ok(Value::U64(255)));
    assert_eq!(de.read_byte(), Ok(0x02));
    assert_eq!(de.integer(IntBounds { min: -235, bitlen: 8 }), Ok(Value::U64(0)));
    assert_eq!(de.offset(), 10);
    assert_eq!(de.read_bytes(3), Ok(vec![0x04, 0x09, 0xc2]));
    assert_eq!(de.read_bytes(1000).err(), Some(syntax(ErrorCode::UnexpectedEof, 63)));
    assert_eq!(de.offset(), 13);
    let mut de = Deserializer::new(&HEADER[33..], &catalogue, 20);
    // a player: name, then the toon as a struct of type 17
    assert_eq!(de.expect_skip(0x05), Ok(()));
    assert_eq!(de.parse_vint::<u32>(), Ok(9));
    assert_eq!(de.parse_vint::<i64>(), Ok(0));
    assert_eq!(de.blob(IntBounds { min: 0, bitlen: 8 }), Ok(text("Embegee")));
    assert_eq!(de.parse_vint::<i64>(), Ok(1));
    match de.typeinfo(17) {
        TypeInfo::Struct(st) => {
            assert_eq!(
                de.struct_(st),
                Err(syntax(ErrorCode::UnexpectedEof, 30))
            );
        }
        other => panic!("type 17 is a struct, got {:?}", other),
    }
    let mut de = Deserializer::new(&[0x0b], &catalogue, 10);
    assert_eq!(de.expect_skip(0x09), Err(syntax(ErrorCode::BadKindByte(0x0b), 0)));
    assert_eq!(de.read_byte(), Ok(0x0b));
    assert_eq!(de.read_byte(), Err(syntax(ErrorCode::UnexpectedEof, 1)));
    assert_eq!(de.peek(), None);
    assert_eq!(de.expect_skip(0x09), Err(syntax(ErrorCode::UnexpectedEof, 1)));
}

#[test]
fn struct_method_decodes_against_given_fields() {
    let catalogue = typeinfos();
    let mut de = Deserializer::new(HEADER, &catalogue, 18);
    let st = Struct { fields: vec![("alpha", 10, 0), ("red", 10, 1), ("green", 10, 2), ("blue", 10, 3)] };
    assert_eq!(
        de.struct_(&st),
        Ok(Value::Dict(vec![
            ("alpha".to_string(), Value::U64(255)),
            ("red".to_string(), Value::U64(235)),
            ("green".to_string(), Value::U64(225)),
            ("blue".to_string(), Value::U64(41)),
        ]))
    );
    assert_eq!(de.offset(), 17);
    assert_eq!(de.visit_seq(10, 0), Ok(Vec::new()));
    assert_eq!(de.visit_map(&st.fields, 0), Ok(Vec::new()));
}

#[test]
fn color_reports_what_it_lacks() {
    let catalogue = typeinfos();
    // three fields only: a, r, g
    let mut de = Deserializer::new(
        &[0x05, 0x06, 0x00, 0x09, 0x02, 0x02, 0x09, 0x04, 0x04, 0x09, 0x06],
        &catalogue,
        18,
    );
    assert_eq!(Color::deserialize(&mut de), Err(Error::MissingFieldError("m_b")));
    assert_eq!(de.depth(), 1);
    let mut de = Deserializer::new(&[0x05, 0x00], &catalogue, 18);
    assert_eq!(Color::deserialize(&mut de), Err(Error::MissingFieldError("m_a")));
    // the version struct has fields that a colour does not have
    let mut de = Deserializer::new(&[0x05, 0x02, 0x00, 0x09, 0x02], &catalogue, 11);
    assert_eq!(Color::deserialize(&mut de), Err(Error::UnknownFieldError));
    // 256 is no channel
    let mut de = Deserializer::new(&[0x05, 0x02, 0x00, 0x09, 0x80, 0x04], &catalogue, 18);
    assert_eq!(Color::deserialize(&mut de), Err(syntax(ErrorCode::IntOutOfRange, 3)));
    let mut de = Deserializer::new(&[0x05, 0x02, 0x08, 0x09, 0x00], &catalogue, 18);
    assert_eq!(Color::deserialize(&mut de), Err(syntax(ErrorCode::BadTag(4), 2)));
    let mut de = Deserializer::new(&[0x09, 0x02], &catalogue, 18);
    assert_eq!(
        Color::deserialize(&mut de),
        Err(syntax(ErrorCode::TypeMismatch { expected: 18, got_kind: 9 }, 0))
    );
    let mut de = Deserializer::new(&[0x05, 0x00], &catalogue, 10);
    assert_eq!(
        Color::deserialize(&mut de),
        Err(syntax(ErrorCode::TypeMismatch { expected: 10, got_kind: 5 }, 0))
    );
    let mut de = Deserializer::new(&[], &catalogue, 18);
    assert_eq!(Color::deserialize(&mut de), Err(syntax(ErrorCode::UnexpectedEof, 0)));
}

#[test]
fn color_fields_go_by_their_names() {
    assert_eq!(ColorField::deserialize("m_a"), Ok(ColorField::A));
    assert_eq!(ColorField::deserialize("m_r"), Ok(ColorField::R));
    assert_eq!(ColorField::deserialize("m_g"), Ok(ColorField::G));
    assert_eq!(ColorField::deserialize("m_b"), Ok(ColorField::B));
    assert_eq!(ColorField::deserialize("m_c"), Err(Error::UnknownFieldError));
    assert_eq!(ColorField::deserialize("a"), Err(Error::UnknownFieldError));
    let catalogue = typeinfos();
    let mut de = Deserializer::new(&HEADER[2..], &catalogue, 18);
    let mut visitor = ColorVisitor { a: None, r: None, g: Some(1), b: None };
    match de.typeinfo(18) {
        TypeInfo::Struct(st) => {
            assert_eq!(visitor.visit_map(&mut de, &st.fields, 2), Err(Error::MissingFieldError("m_b")));
        }
        other => panic!("type 18 is a struct, got {:?}", other),
    }
    assert_eq!(visitor.a, Some(255));
    assert_eq!(visitor.r, Some(235));
    assert_eq!(visitor.g, Some(1));
    assert_eq!(visitor.b, None);
    assert_eq!(de.offset(), 8);
}

fn quantity(n: i64) -> Vec<u8> {
    let negative = n < 0;
    let mut left = n.unsigned_abs();
    let mut first = ((left & 0x3f) << 1) as u8 | negative as u8;
    left >>= 6;
    if left != 0 {
        first |= 0x80;
    }
    let mut out = vec![first];
    while left != 0 {
        let mut byte = (left & 0x7f) as u8;
        left >>= 7;
        if left != 0 {
            byte |= 0x80;
        }
        out.push(byte);
    }
    out
}

/// The wire form of `value` as a value of the type `typeid`.
fn wire(catalogue: &[TypeInfo], typeid: u32, value: &Value) -> Vec<u8> {
    let mut out = Vec::new();
    match (&catalogue[typeid as usize], value) {
        (TypeInfo::Int { bounds }, Value::U64(n)) => {
            out.push(0x09);
            out.extend(quantity((*n as i128 - bounds.min as i128) as i64));
        }
        (TypeInfo::Int { bounds }, Value::I64(n)) => {
            out.push(0x09);
            out.extend(quantity((*n as i128 - bounds.min as i128) as i64));
        }
        (TypeInfo::Blob { .. }, Value::String(text)) => {
            out.push(0x02);
            out.extend(quantity(text.len() as i64));
            out.extend_from_slice(text.as_bytes());
        }
        (TypeInfo::Blob { .. }, Value::Bytes(bytes)) => {
            out.push(0x02);
            out.extend(quantity(bytes.len() as i64));
            out.extend_from_slice(bytes);
        }
        (TypeInfo::FourCC, Value::Bytes(bytes)) => {
            out.push(0x07);
            out.extend_from_slice(bytes);
        }
        (TypeInfo::Bool, Value::Boolean(b)) => {
            out.push(0x06);
            out.push(*b as u8);
        }
        (TypeInfo::Optional { .. }, Value::Null) => {
            out.push(0x04);
            out.push(0x00);
        }
        (TypeInfo::Optional { typeid }, Value::Optional(inner)) => {
            out.push(0x04);
            out.push(0x01);
            out.extend(wire(catalogue, *typeid, inner));
        }
        (TypeInfo::Array { typeid, .. }, Value::Array(items)) => {
            out.push(0x00);
            out.extend(quantity(items.len() as i64));
            for item in items {
                out.extend(wire(catalogue, *typeid, item));
            }
        }
        (TypeInfo::BitArray { .. }, Value::Array(pair)) => match (&pair[0], &pair[1]) {
            (Value::U64(bits), Value::Bytes(bytes)) => {
                out.push(0x01);
                out.extend(quantity(*bits as i64));
                out.extend_from_slice(bytes);
            }
            other => panic!("no bit array: {:?}", other),
        },
        (TypeInfo::Choice { types, .. }, Value::Dict(entries)) => {
            let arm = types.iter().find(|arm| arm.1 == entries[0].0).unwrap();
            out.push(0x03);
            out.extend(quantity(arm.0 as i64));
            out.extend(wire(catalogue, arm.2, &entries[0].1));
        }
        (TypeInfo::Struct(st), Value::Dict(entries)) => {
            out.push(0x05);
            out.extend(quantity(entries.len() as i64));
            for (key, item) in entries {
                let field = st.fields.iter().find(|field| field.0 == key).unwrap();
                out.extend(quantity(field.2 as i64));
                out.extend(wire(catalogue, field.1, item));
            }
        }
        (info, value) => panic!("{:?} is no value of {:?}", value, info),
    }
    out
}

#[test]
fn decode_gives_back_what_was_encoded() {
    let catalogue = typeinfos();
    let control_group = Value::Dict(vec![
        ("m_controlGroupIndex".to_string(), Value::U64(9)),
        ("m_controlGroupUpdate".to_string(), Value::U64(2)),
        (
            "m_mask".to_string(),
            Value::Optional(Box::new(Value::Dict(vec![(
                "__parent".to_string(),
                Value::Array(vec![Value::U64(11), Value::Bytes(vec![0xff, 0x07])]),
            )]))),
        ),
    ]);
    let dialog = Value::Dict(vec![
        ("m_eventData".to_string(), Value::Dict(vec![("Checked".to_string(), Value::Boolean(true))])),
        ("m_controlId".to_string(), Value::I64(-2147483648)),
        ("m_eventType".to_string(), Value::U64(2147483647)),
    ]);
    let toon = Value::Dict(vec![
        ("m_id".to_string(), Value::U64(i64::MAX as u64)),
        ("m_name".to_string(), text("gr\u{fc}n \u{2603}")),
        ("m_programId".to_string(), Value::Bytes(vec![0, 0, b'S', b'2'])),
        ("m_realm".to_string(), Value::U64(0)),
        ("m_region".to_string(), Value::U64(63)),
    ]);
    let sync = Value::Dict(vec![
        ("m_length".to_string(), Value::Array(vec![Value::U64(64), Value::U64(8191), Value::U64(8192)])),
        ("m_soundHash".to_string(), Value::Array(Vec::new())),
    ]);
    let cases: Vec<(u32, Value)> = vec![
        (78, control_group),
        (97, dialog),
        (17, toon),
        (99, sync),
        (27, Value::I64(i64::MIN)),
        (27, Value::I64(-1)),
        (84, Value::I64(-128)),
        (84, Value::U64(127)),
        (9, Value::Bytes(vec![0xfe, 0xff])),
        (28, text(&"x".repeat(300))),
        (31, Value::Null),
        (31, Value::Optional(Box::new(Value::Array(vec![Value::Bytes(vec![0x80; 40])])))),
    ];
    for (typeid, value) in cases.iter() {
        let bytes = wire(&catalogue, *typeid, value);
        assert_eq!(decode(&catalogue, *typeid as usize, &bytes).as_ref(), Ok(value));
        // behind other bytes and before others the same value is read
        let mut framed = vec![0xaa, 0xbb];
        framed.extend_from_slice(&bytes);
        framed.push(0xcc);
        let mut de = Deserializer::new(&framed, &catalogue, *typeid as usize);
        assert_eq!(de.read_bytes(2), Ok(vec![0xaa, 0xbb]));
        assert_eq!(de.root().as_ref(), Ok(value));
        assert_eq!(de.offset(), 2 + bytes.len());
        assert_eq!(de.depth(), 1);
    }
}

#[test]
fn read_bits_reads_whole_bytes_high_byte_first() {
    let catalogue = typeinfos();
    let mut de = Deserializer::new(&[0x01, 0x02, 0x03, 0xff, 0xfe], &catalogue, 0);
    assert_eq!(de.read_bits(0), Ok(0));
    assert_eq!(de.read_bits(8), Ok(1));
    assert_eq!(de.read_bits(16), Ok(0x0203));
    assert_eq!(de.read_bits(24), Err(syntax(ErrorCode::UnexpectedEof, 5)));
    assert_eq!(de.offset(), 3);
    assert_eq!(de.read_bits(16), Ok(0xfffe));
    let mut de = Deserializer::new(&[0xff; 7], &catalogue, 0);
    assert_eq!(de.read_bits(56), Ok(0x00ff_ffff_ffff_ffff));
}

#[test]
fn value_deserialize_is_visit() {
    let catalogue = typeinfos();
    let mut de = Deserializer::new(&[0x09, 0x0a], &catalogue, 10);
    assert_eq!(Value::deserialize(&mut de), Ok(Value::U64(5)));
    assert_eq!(de.offset(), 2);
}
