use kidur::{
    is_definition_file, validate_fields, FieldDef, FieldMap, FieldType, FieldValue, KidurError,
    Node, NodeId, SupertagDef, SupertagRegistry,
};

fn quest_registry() -> SupertagRegistry {
    let mut reg = SupertagRegistry::empty();
    reg.register(SupertagDef {
        name: "quest".to_string(),
        description: None,
        fields: vec![FieldDef {
            name: "status".to_string(),
            field_type: FieldType::Enum,
            required: true,
            options: vec!["active".to_string(), "completed".to_string()],
            ref_tag: None,
        }],
    });
    reg
}

#[test]
fn validate_node_with_valid_tag() {
    let reg = quest_registry();
    let node = Node::new("My quest")
        .with_supertag("quest")
        .with_field("status", FieldValue::Enum("active".to_string()));
    assert!(reg.validate_node(&node).is_ok());
}

#[test]
fn validate_node_missing_required() {
    let reg = quest_registry();
    // No "status" field — required
    let node = Node::new("My quest").with_supertag("quest");
    let err = reg.validate_node(&node).unwrap_err();
    assert!(
        matches!(err, KidurError::MissingRequiredField(ref f) if f == "status"),
        "expected MissingRequiredField(status), got: {:?}",
        err
    );
}

#[test]
fn validate_node_unknown_tag() {
    let reg = quest_registry();
    let node = Node::new("My node").with_supertag("nonexistent");
    let err = reg.validate_node(&node).unwrap_err();
    assert!(
        matches!(err, KidurError::UnknownSupertag(ref t) if t == "nonexistent"),
        "expected UnknownSupertag(nonexistent), got: {:?}",
        err
    );
}

#[test]
fn validate_node_no_tag() {
    let reg = quest_registry();
    // Node with no supertag → always passes
    let node = Node::new("plain node");
    assert!(reg.validate_node(&node).is_ok());
}

#[test]
fn names_list() {
    let reg = quest_registry();
    let names = reg.names();
    assert_eq!(names.len(), 1);
    assert!(names.contains(&"quest"));
}

#[test]
fn register_and_get() {
    let mut reg = SupertagRegistry::empty();
    assert!(reg.get("person").is_none());
    reg.register(SupertagDef::new("person"));
    assert!(reg.get("person").is_some());
}

#[test]
fn register_replaces_same_name() {
    let mut reg = SupertagRegistry::empty();
    reg.register(SupertagDef::new("person"));
    reg.register(SupertagDef::new("task"));
    let mut second = SupertagDef::new("person");
    second.description = Some("updated".to_string());
    reg.register(second);
    assert_eq!(reg.names(), vec!["person", "task"]);
    assert_eq!(reg.get("person").unwrap().description.as_deref(), Some("updated"));
    let copy = reg.clone();
    assert_eq!(copy.names(), vec!["person", "task"]);
}

#[test]
fn registry_from_definitions_later_wins() {
    let mut a = SupertagDef::new("note");
    a.description = Some("first".to_string());
    let mut b = SupertagDef::new("note");
    b.description = Some("second".to_string());
    let reg = SupertagRegistry::from_defs(vec![a, SupertagDef::new("task"), b]);
    assert_eq!(reg.names().len(), 2);
    assert_eq!(reg.get("note").unwrap().description.as_deref(), Some("second"));
}

#[test]
fn only_toml_files_hold_definitions() {
    assert!(is_definition_file(Some("toml")));
    assert!(!is_definition_file(Some("txt")));
    assert!(!is_definition_file(Some("TOML")));
    assert!(!is_definition_file(None));
}

// ---- field validation ----

fn quest_def() -> SupertagDef {
    SupertagDef {
        name: "quest".to_string(),
        description: None,
        fields: vec![
            FieldDef {
                name: "status".to_string(),
                field_type: FieldType::Enum,
                required: true,
                options: vec![
                    "active".to_string(),
                    "completed".to_string(),
                    "paused".to_string(),
                ],
                ref_tag: None,
            },
            FieldDef {
                name: "owner".to_string(),
                field_type: FieldType::Reference,
                required: false,
                options: vec![],
                ref_tag: Some("person".to_string()),
            },
            FieldDef {
                name: "priority".to_string(),
                field_type: FieldType::Enum,
                required: false,
                options: vec![
                    "low".to_string(),
                    "medium".to_string(),
                    "high".to_string(),
                    "critical".to_string(),
                ],
                ref_tag: None,
            },
            FieldDef {
                name: "title".to_string(),
                field_type: FieldType::Text,
                required: false,
                options: vec![],
                ref_tag: None,
            },
        ],
    }
}

#[test]
fn valid_fields_pass() {
    let def = quest_def();
    let mut fields = FieldMap::new();
    fields.insert("status".to_string(), FieldValue::Enum("active".to_string()));
    fields.insert("priority".to_string(), FieldValue::Enum("high".to_string()));
    assert!(validate_fields(&def, &fields).is_ok());
}

#[test]
fn missing_required_field_fails() {
    let def = quest_def();
    let fields = FieldMap::new(); // no status
    let err = validate_fields(&def, &fields).unwrap_err();
    assert!(
        matches!(err, KidurError::MissingRequiredField(ref f) if f == "status"),
        "expected MissingRequiredField(status), got: {:?}",
        err
    );
}

#[test]
fn wrong_type_fails() {
    let def = quest_def();
    let mut fields = FieldMap::new();
    fields.insert("status".to_string(), FieldValue::Enum("active".to_string()));
    // priority expects Enum but we supply Number
    fields.insert("priority".to_string(), FieldValue::Number(1.0f64.to_bits()));
    let err = validate_fields(&def, &fields).unwrap_err();
    assert!(
        matches!(err, KidurError::FieldValidation { ref field, .. } if field == "priority"),
        "expected FieldValidation on 'priority', got: {:?}",
        err
    );
}

#[test]
fn invalid_enum_option_fails() {
    let def = quest_def();
    let mut fields = FieldMap::new();
    // "deleted" is not in the options list
    fields.insert("status".to_string(), FieldValue::Enum("deleted".to_string()));
    let err = validate_fields(&def, &fields).unwrap_err();
    assert!(
        matches!(err, KidurError::FieldValidation { ref field, .. } if field == "status"),
        "expected FieldValidation on 'status', got: {:?}",
        err
    );
}

#[test]
fn extra_fields_allowed() {
    let def = quest_def();
    let mut fields = FieldMap::new();
    fields.insert("status".to_string(), FieldValue::Enum("active".to_string()));
    // "extra_field" is not in the schema — open-world, should be fine
    fields.insert("extra_field".to_string(), FieldValue::Text("anything".to_string()));
    assert!(validate_fields(&def, &fields).is_ok());
}

#[test]
fn optional_reference_valid() {
    let def = quest_def();
    let mut fields = FieldMap::new();
    fields.insert("status".to_string(), FieldValue::Enum("active".to_string()));
    fields.insert("owner".to_string(), FieldValue::Reference(NodeId::new()));
    assert!(validate_fields(&def, &fields).is_ok());
}

#[test]
fn multi_select_valid() {
    let mut def = quest_def();
    def.fields.push(FieldDef {
        name: "tags".to_string(),
        field_type: FieldType::MultiSelect,
        required: false,
        options: vec!["urgent".to_string(), "exploration".to_string()],
        ref_tag: None,
    });
    let mut fields = FieldMap::new();
    fields.insert("status".to_string(), FieldValue::Enum("active".to_string()));
    fields.insert("tags".to_string(), FieldValue::MultiSelect(vec!["urgent".to_string()]));
    assert!(validate_fields(&def, &fields).is_ok());
}

#[test]
fn multi_select_invalid_option_fails() {
    let mut def = quest_def();
    def.fields.push(FieldDef {
        name: "tags".to_string(),
        field_type: FieldType::MultiSelect,
        required: false,
        options: vec!["urgent".to_string(), "exploration".to_string()],
        ref_tag: None,
    });
    let mut fields = FieldMap::new();
    fields.insert("status".to_string(), FieldValue::Enum("active".to_string()));
    fields.insert(
        "tags".to_string(),
        FieldValue::MultiSelect(vec!["urgent".to_string(), "unknown-tag".to_string()]),
    );
    let err = validate_fields(&def, &fields).unwrap_err();
    assert!(
        matches!(err, KidurError::FieldValidation { ref field, .. } if field == "tags"),
        "expected FieldValidation on 'tags', got: {:?}",
        err
    );
}

#[test]
fn optional_field_absent_passes() {
    let def = quest_def();
    let mut fields = FieldMap::new();
    // Only supply the required field; all optional fields absent
    fields.insert("status".to_string(), FieldValue::Enum("active".to_string()));
    assert!(validate_fields(&def, &fields).is_ok());
}

#[test]
fn enum_with_no_options_accepts_any_value() {
    // FieldDef with Enum type but empty options list → any string value accepted
    let def = SupertagDef {
        name: "open".to_string(),
        description: None,
        fields: vec![FieldDef {
            name: "state".to_string(),
            field_type: FieldType::Enum,
            required: true,
            options: vec![], // no constraints
            ref_tag: None,
        }],
    };
    let mut fields = FieldMap::new();
    fields.insert("state".to_string(), FieldValue::Enum("anything".to_string()));
    assert!(validate_fields(&def, &fields).is_ok());
}

#[test]
fn validation_reasons_are_exact() {
    let def = quest_def();
    let mut fields = FieldMap::new();
    fields.insert("status".to_string(), FieldValue::Enum("deleted".to_string()));
    match validate_fields(&def, &fields).unwrap_err() {
        KidurError::FieldValidation { field, reason } => {
            assert_eq!(field, "status");
            assert_eq!(
                reason,
                "enum value 'deleted' is not in options [\"active\", \"completed\", \"paused\"]"
            );
        }
        other => panic!("unexpected {:?}", other),
    }

    let mut fields = FieldMap::new();
    fields.insert("status".to_string(), FieldValue::Enum("active".to_string()));
    fields.insert("title".to_string(), FieldValue::Bool(true));
    match validate_fields(&def, &fields).unwrap_err() {
        KidurError::FieldValidation { field, reason } => {
            assert_eq!(field, "title");
            assert_eq!(reason, "expected type Text, got kind 'bool'");
        }
        other => panic!("unexpected {:?}", other),
    }

    let mut def = quest_def();
    def.fields.push(FieldDef {
        name: "tags".to_string(),
        field_type: FieldType::MultiSelect,
        required: false,
        options: vec!["a\"b".to_string()],
        ref_tag: None,
    });
    let mut fields = FieldMap::new();
    fields.insert("status".to_string(), FieldValue::Enum("active".to_string()));
    fields.insert(
        "tags".to_string(),
        FieldValue::MultiSelect(vec!["a\"b".to_string(), "x".to_string(), "y".to_string()]),
    );
    match validate_fields(&def, &fields).unwrap_err() {
        KidurError::FieldValidation { field, reason } => {
            assert_eq!(field, "tags");
            assert_eq!(reason, "multi_select value 'x' is not in options [\"a\\\"b\"]");
        }
        other => panic!("unexpected {:?}", other),
    }
}

#[test]
fn first_missing_in_definition_order_then_first_bad_key() {
    let def = SupertagDef {
        name: "t".to_string(),
        description: None,
        fields: vec![
            FieldDef { required: true, ..FieldDef::new("zeta", FieldType::Text) },
            FieldDef { required: true, ..FieldDef::new("alpha", FieldType::Text) },
            FieldDef::new("b", FieldType::Bool),
            FieldDef::new("a", FieldType::Bool),
        ],
    };
    let fields = FieldMap::new();
    assert!(matches!(validate_fields(&def, &fields), Err(KidurError::MissingRequiredField(ref f)) if f == "zeta"));

    let mut fields = FieldMap::new();
    fields.insert("zeta".to_string(), FieldValue::Text("z".to_string()));
    fields.insert("alpha".to_string(), FieldValue::Text("a".to_string()));
    fields.insert("b".to_string(), FieldValue::Text("wrong".to_string()));
    fields.insert("a".to_string(), FieldValue::Text("wrong".to_string()));
    assert!(matches!(validate_fields(&def, &fields), Err(KidurError::FieldValidation { ref field, .. }) if field == "a"));
}

#[test]
fn last_definition_of_a_name_governs() {
    let def = SupertagDef {
        name: "t".to_string(),
        description: None,
        fields: vec![FieldDef::new("x", FieldType::Text), FieldDef::new("x", FieldType::Bool)],
    };
    let mut fields = FieldMap::new();
    fields.insert("x".to_string(), FieldValue::Bool(true));
    assert!(validate_fields(&def, &fields).is_ok());
    let mut fields = FieldMap::new();
    fields.insert("x".to_string(), FieldValue::Text("t".to_string()));
    assert!(validate_fields(&def, &fields).is_err());
}

#[test]
fn from_defs_keeps_the_last_definition_of_a_name() {
    let mut first = SupertagDef::new("task");
    first.description = Some("first".to_string());
    let person = SupertagDef::new("person");
    let mut second = SupertagDef::new("task");
    second.description = Some("second".to_string());
    second.fields.push(FieldDef::new("due", FieldType::Timestamp));
    let reg = SupertagRegistry::from_defs(vec![first, person, second]);
    assert_eq!(reg.names(), vec!["task", "person"]);
    let task = reg.get("task").unwrap();
    assert_eq!(task.description.as_deref(), Some("second"));
    assert_eq!(task.fields.len(), 1);
    assert_eq!(task.fields[0].name, "due");
    assert!(reg.get("person").is_some());
    assert!(reg.get("missing").is_none());
}
