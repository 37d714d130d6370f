use kidur::{
    parse_field_pair, parse_field_value, split_key_value, split_n, trim, truncate, FieldDef,
    FieldInput, FieldInputError, FieldType, FieldValue, NodeId, SupertagDef, Timestamp,
    ValueProblem,
};

#[test]
fn key_value_splits_at_first_equals() {
    let (k, v) = split_key_value("a=b=c").unwrap();
    assert_eq!(k, "a");
    assert_eq!(v, "b=c");
    let (k, v) = split_key_value("=x").unwrap();
    assert_eq!(k, "");
    assert_eq!(v, "x");
    assert!(split_key_value("novalue").is_none());
}

#[test]
fn split_and_splitn_match_std() {
    for s in ["a,b,c", "", ",", "a,,b,", "single", "x, y ,z,w"] {
        let ours = split_n(s, ',', None);
        let std: Vec<String> = s.split(',').map(|p| p.to_string()).collect();
        assert_eq!(ours, std);
        let ours3 = split_n(s, ',', Some(3));
        let std3: Vec<String> = s.splitn(3, ',').map(|p| p.to_string()).collect();
        assert_eq!(ours3, std3);
    }
}

#[test]
fn trim_matches_std() {
    for s in ["  a b  ", "\t\nx\r\n", "", "   ", "\u{3000}wide\u{a0}", "none"] {
        assert_eq!(trim(s), s.trim());
    }
}

#[test]
fn truncate_cuts_bytes_and_marks() {
    assert_eq!(truncate("short", 60), "short");
    assert_eq!(truncate("abcdef", 6), "abcdef");
    assert_eq!(truncate("abcdefgh", 3), "abc...");
    assert_eq!(truncate("héllo", 3), "hé...");
}

#[test]
fn bool_words() {
    for (w, b) in [("true", true), ("1", true), ("yes", true), ("false", false), ("0", false), ("no", false)] {
        assert!(matches!(parse_field_value(w, FieldType::Bool), Ok(FieldInput::Value(FieldValue::Bool(v))) if v == b));
    }
    assert!(matches!(parse_field_value("maybe", FieldType::Bool), Err(ValueProblem::NotBool)));
}

#[test]
fn multi_select_items_are_trimmed() {
    match parse_field_value(" a , b,c ", FieldType::MultiSelect) {
        Ok(FieldInput::Value(FieldValue::MultiSelect(items))) => assert_eq!(items, vec!["a", "b", "c"]),
        other => panic!("unexpected {:?}", other),
    }
}

#[test]
fn geo_parts() {
    match parse_field_value(" 48.2 , 16.3 , Vienna, AT", FieldType::Geo) {
        Ok(FieldInput::Geo { lat, lng, label }) => {
            assert_eq!(lat, "48.2");
            assert_eq!(lng, "16.3");
            assert_eq!(label.as_deref(), Some("Vienna, AT"));
        }
        other => panic!("unexpected {:?}", other),
    }
    match parse_field_value("1,2", FieldType::Geo) {
        Ok(FieldInput::Geo { label, .. }) => assert!(label.is_none()),
        other => panic!("unexpected {:?}", other),
    }
    assert!(matches!(parse_field_value("1", FieldType::Geo), Err(ValueProblem::TooFewCoordinates)));
}

#[test]
fn references_and_timestamps() {
    let id = NodeId::new();
    match parse_field_value(&id.to_string(), FieldType::Reference) {
        Ok(FieldInput::Value(FieldValue::Reference(r))) => assert_eq!(r, id),
        other => panic!("unexpected {:?}", other),
    }
    assert!(matches!(parse_field_value("nope", FieldType::Reference), Err(ValueProblem::BadUuid(_))));
    match parse_field_value("2024-03-01", FieldType::Timestamp) {
        Ok(FieldInput::Value(FieldValue::Timestamp(t))) => {
            assert_eq!(t, Timestamp { secs: 1_709_251_200, nanos: 0 })
        }
        other => panic!("unexpected {:?}", other),
    }
    match parse_field_value("2024-03-01T12:00:00Z", FieldType::Timestamp) {
        Ok(FieldInput::Value(FieldValue::Timestamp(t))) => {
            assert_eq!(t, Timestamp { secs: 1_709_294_400, nanos: 0 })
        }
        other => panic!("unexpected {:?}", other),
    }
    assert!(matches!(parse_field_value("soon", FieldType::Timestamp), Err(ValueProblem::BadDate)));
    assert!(matches!(parse_field_value("3.5", FieldType::Number), Ok(FieldInput::Number(ref s)) if s == "3.5"));
}

#[test]
fn pairs_are_typed_by_schema() {
    let mut def = SupertagDef::new("task");
    def.fields.push(FieldDef::new("done", FieldType::Bool));
    match parse_field_pair("done=yes", Some(&def)) {
        Ok((k, v, FieldInput::Value(FieldValue::Bool(true)))) => {
            assert_eq!(k, "done");
            assert_eq!(v, "yes");
        }
        other => panic!("unexpected {:?}", other),
    }
    match parse_field_pair("note=yes", Some(&def)) {
        Ok((k, _, FieldInput::Value(FieldValue::Text(t)))) => {
            assert_eq!(k, "note");
            assert_eq!(t, "yes");
        }
        other => panic!("unexpected {:?}", other),
    }
    match parse_field_pair("done=perhaps", Some(&def)) {
        Err(FieldInputError::BadValue { key, value, problem: ValueProblem::NotBool }) => {
            assert_eq!(key, "done");
            assert_eq!(value, "perhaps");
        }
        other => panic!("unexpected {:?}", other),
    }
    assert!(matches!(parse_field_pair("done", None), Err(FieldInputError::NotKeyValue)));
}
