use odx_desktop::dtc::{
    collect_dtc_definitions, dedup_dtc_list, dtc_definitions_from_json, get_member, json_to_u32,
    object_text_value, sort_dtc_list, DtcDefinition, JsonNumber, JsonValue,
};

fn s(t: &str) -> JsonValue {
    JsonValue::Str(t.to_string())
}

fn n(v: u64) -> JsonValue {
    JsonValue::Number(JsonNumber::PosInt(v))
}

fn obj(members: Vec<(&str, JsonValue)>) -> JsonValue {
    JsonValue::Object(members.into_iter().map(|(k, v)| (k.to_string(), v)).collect())
}

fn dtc(code: u64, short: &str) -> JsonValue {
    obj(vec![("short_name", s(short)), ("trouble_code", n(code))])
}

fn def(code: u32, short: Option<&str>) -> DtcDefinition {
    DtcDefinition {
        trouble_code: code,
        code_hex: format!("{code:06X}"),
        display_trouble_code: None,
        short_name: short.map(|x| x.to_string()),
        description: None,
        level: None,
        is_temporary: None,
    }
}

fn codes(defs: &[DtcDefinition]) -> Vec<(u32, Option<String>)> {
    defs.iter().map(|d| (d.trouble_code, d.short_name.clone())).collect()
}

#[test]
fn json_numbers_and_texts_as_u32() {
    assert_eq!(json_to_u32(&n(7)), Some(7));
    assert_eq!(json_to_u32(&n(4294967295)), Some(u32::MAX));
    assert_eq!(json_to_u32(&n(4294967296)), None);
    assert_eq!(json_to_u32(&JsonValue::Number(JsonNumber::NegInt(-1))), None);
    assert_eq!(json_to_u32(&JsonValue::Number(JsonNumber::Float)), None);
    assert_eq!(json_to_u32(&s(" 0x1A ")), Some(26));
    assert_eq!(json_to_u32(&s("0XFF")), Some(255));
    assert_eq!(json_to_u32(&s("42")), Some(42));
    assert_eq!(json_to_u32(&s("x42")), None);
    assert_eq!(json_to_u32(&JsonValue::Bool(true)), None);
}

#[test]
fn object_members_and_texts() {
    let o = vec![
        ("text".to_string(), s("  Misfire ")),
        ("long_name".to_string(), obj(vec![("value", s(" Long "))])),
        ("blank".to_string(), s("   ")),
        ("num".to_string(), n(3)),
    ];
    assert!(matches!(get_member(&o, "num"), Some(JsonValue::Number(JsonNumber::PosInt(3)))));
    assert!(get_member(&o, "missing").is_none());
    assert_eq!(object_text_value(&o, "text").as_deref(), Some("Misfire"));
    assert_eq!(object_text_value(&o, "long_name").as_deref(), Some("Long"));
    assert_eq!(object_text_value(&o, "blank"), None);
    assert_eq!(object_text_value(&o, "num"), None);
    assert_eq!(object_text_value(&o, "missing"), None);
}

#[test]
fn definitions_are_collected_in_document_order() {
    let doc = obj(vec![
        (
            "dtcs",
            JsonValue::Array(vec![
                obj(vec![
                    ("display_trouble_code", s("P0300")),
                    ("is_temporary", JsonValue::Bool(false)),
                    ("level", s("2")),
                    ("long_name", s("Random misfire")),
                    ("short_name", s("MISFIRE")),
                    ("trouble_code", s("0x030000")),
                ]),
                obj(vec![("nested", dtc(16, "INNER")), ("trouble_code", n(5))]),
            ]),
        ),
        ("other", JsonValue::Null),
    ]);
    let mut out = Vec::new();
    collect_dtc_definitions(&doc, &mut out);
    assert_eq!(out.len(), 3);
    assert_eq!(out[0].trouble_code, 0x030000);
    assert_eq!(out[0].code_hex, "030000");
    assert_eq!(out[0].display_trouble_code.as_deref(), Some("P0300"));
    assert_eq!(out[0].short_name.as_deref(), Some("MISFIRE"));
    assert_eq!(out[0].description.as_deref(), Some("Random misfire"));
    assert_eq!(out[0].level, Some(2));
    assert_eq!(out[0].is_temporary, Some(false));
    assert_eq!(codes(&out[1..]), vec![(5, None), (16, Some("INNER".to_string()))]);
    assert_eq!(out[1].code_hex, "000005");
}

#[test]
fn description_prefers_text_then_description_then_long_name() {
    let doc = obj(vec![
        ("description", s("second")),
        ("long_name", s("third")),
        ("text", s("first")),
        ("trouble_code", n(1)),
    ]);
    assert_eq!(dtc_definitions_from_json(&doc)[0].description.as_deref(), Some("first"));
    let doc2 = obj(vec![("description", s("second")), ("long_name", s("third")), ("trouble_code", n(1))]);
    assert_eq!(dtc_definitions_from_json(&doc2)[0].description.as_deref(), Some("second"));
}

#[test]
fn duplicates_are_dropped_and_codes_sorted() {
    let doc = JsonValue::Array(vec![dtc(9, "B"), dtc(3, "A"), dtc(9, "B"), dtc(9, "C"), dtc(3, "Z")]);
    let defs = dtc_definitions_from_json(&doc);
    assert_eq!(
        codes(&defs),
        vec![
            (3, Some("A".to_string())),
            (3, Some("Z".to_string())),
            (9, Some("B".to_string())),
            (9, Some("C".to_string())),
        ]
    );
}

#[test]
fn dedup_and_sort_lists() {
    let list = vec![def(2, Some("x")), def(1, None), def(2, Some("x")), def(1, None), def(0, None)];
    let unique = dedup_dtc_list(list);
    assert_eq!(codes(&unique), vec![(2, Some("x".to_string())), (1, None), (0, None)]);
    let sorted = sort_dtc_list(unique);
    assert_eq!(codes(&sorted), vec![(0, None), (1, None), (2, Some("x".to_string()))]);
    let stable = sort_dtc_list(vec![def(5, Some("b")), def(1, None), def(5, Some("a"))]);
    assert_eq!(codes(&stable), vec![(1, None), (5, Some("b".to_string())), (5, Some("a".to_string()))]);
}
