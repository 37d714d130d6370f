use kidur::{
    Edge, FieldDef, FieldType, FieldValue, Node, NodeId, SupertagDef, Timestamp, Visibility,
};

// ---- visibility ----

#[test]
fn test_default_is_private() {
    assert_eq!(Visibility::default(), Visibility::Private);
}

#[test]
fn test_as_str() {
    assert_eq!(Visibility::Private.as_str(), "private");
    assert_eq!(Visibility::Shared.as_str(), "shared");
    assert_eq!(Visibility::Public.as_str(), "public");
}

#[test]
fn test_display() {
    assert_eq!(Visibility::Public.to_string(), "public");
}

#[test]
fn visibility_text_matches_name_for_every_variant() {
    for v in [Visibility::Private, Visibility::Shared, Visibility::Public] {
        assert_eq!(v.to_string(), v.as_str());
    }
}

// ---- node ids ----

#[test]
fn test_unique() {
    let a = NodeId::new();
    let b = NodeId::new();
    assert_ne!(a, b);
}

#[test]
fn test_time_sorted() {
    let a = NodeId::new();
    let b = NodeId::new();
    // UUID v7 is monotonically increasing
    assert!(a < b);
}

#[test]
fn test_string_roundtrip() {
    let id = NodeId::new();
    let s = id.to_string();
    let restored: NodeId = s.parse().unwrap();
    assert_eq!(id, restored);
}

#[test]
fn test_nil_check() {
    let nil = NodeId::nil();
    assert!(nil.is_nil());
    let real = NodeId::new();
    assert!(!real.is_nil());
}

#[test]
fn test_from_uuid() {
    let uuid = uuid::Uuid::now_v7();
    let id = NodeId::from_uuid(uuid.as_u128());
    assert_eq!(id.as_uuid(), uuid.as_u128());
}

#[test]
fn node_id_text_is_hyphenated_lower_hex() {
    let id = NodeId::from_uuid(0x67e5_5044_10b1_426f_9247_bb68_0e5f_e0c8);
    assert_eq!(id.to_string(), "67e55044-10b1-426f-9247-bb680e5fe0c8");
    assert_eq!(NodeId::nil().to_string(), "00000000-0000-0000-0000-000000000000");
}

#[test]
fn node_id_parses_other_layouts_and_refuses_garbage() {
    let simple = NodeId::parse("67e5504410b1426f9247bb680e5fe0c8").unwrap();
    assert_eq!(simple.as_uuid(), 0x67e5_5044_10b1_426f_9247_bb68_0e5f_e0c8);
    assert!(NodeId::parse("not a uuid").is_err());
    assert!("".parse::<NodeId>().is_err());
}

#[test]
fn new_node_id_carries_version_seven() {
    let id = NodeId::new();
    assert_eq!((id.as_uuid() >> 76) & 0xf, 7);
    assert_eq!((id.as_uuid() >> 62) & 0x3, 2);
    assert_eq!(id.to_string().chars().nth(14), Some('7'));
}

// ---- timestamps ----

#[test]
fn timestamp_now_is_after_2020() {
    let t = Timestamp::now();
    assert!(t.secs > 1_577_836_800);
    assert!(t.nanos < 2_000_000_000);
}

#[test]
fn timestamp_parses_rfc3339_and_dates() {
    let t = Timestamp::parse_rfc3339("2015-05-15T00:00:00Z").unwrap();
    assert_eq!(t, Timestamp { secs: 1_431_648_000, nanos: 0 });
    let t = Timestamp::parse_rfc3339("2015-05-15T02:00:00.5+02:00").unwrap();
    assert_eq!(t, Timestamp { secs: 1_431_648_000, nanos: 500_000_000 });
    assert!(Timestamp::parse_rfc3339("2015-05-15").is_none());
    let d = Timestamp::parse_date_midnight("1970-01-02", "%Y-%m-%d").unwrap();
    assert_eq!(d, Timestamp { secs: 86_400, nanos: 0 });
    let d = Timestamp::parse_date_midnight("2015-05-15", "%Y-%m-%d").unwrap();
    assert_eq!(d.secs, 1_431_648_000);
    assert!(Timestamp::parse_date_midnight("yesterday", "%Y-%m-%d").is_none());
}

#[test]
fn timestamp_order() {
    let a = Timestamp { secs: 10, nanos: 5 };
    let b = Timestamp { secs: 10, nanos: 6 };
    let c = Timestamp { secs: 11, nanos: 0 };
    assert!(a.is_before(&b));
    assert!(b.is_before(&c));
    assert!(!c.is_before(&a));
    assert!(!a.is_before(&a));
}

// ---- field values ----

#[test]
fn test_kind_check() {
    assert_eq!(FieldValue::Text("x".to_string()).kind(), "text");
    assert_eq!(FieldValue::RichText("x".to_string()).kind(), "rich_text");
    assert_eq!(FieldValue::Number(1.0f64.to_bits()).kind(), "number");
    assert_eq!(FieldValue::Bool(true).kind(), "bool");
    assert_eq!(FieldValue::Enum("x".to_string()).kind(), "enum");
    assert_eq!(FieldValue::MultiSelect(vec![]).kind(), "multi_select");
    assert_eq!(FieldValue::Reference(NodeId::nil()).kind(), "reference");
    assert_eq!(FieldValue::Timestamp(Timestamp::now()).kind(), "timestamp");
    assert_eq!(FieldValue::Email("a@b.com".to_string()).kind(), "email");
    assert_eq!(FieldValue::Url("https://example.com".to_string()).kind(), "url");
    assert_eq!(
        FieldValue::Geo { lat: 0.0f64.to_bits(), lng: 0.0f64.to_bits(), label: None }.kind(),
        "geo"
    );
}

#[test]
fn field_type_name_matches_debug() {
    let types = [
        FieldType::Text,
        FieldType::RichText,
        FieldType::Number,
        FieldType::Bool,
        FieldType::Enum,
        FieldType::MultiSelect,
        FieldType::Reference,
        FieldType::Timestamp,
        FieldType::Email,
        FieldType::Url,
        FieldType::Geo,
    ];
    for t in types {
        assert_eq!(t.name(), format!("{:?}", t));
    }
}

// ---- nodes ----

#[test]
fn test_defaults() {
    let node = Node::new("hello");
    assert_eq!(node.content, "hello");
    assert!(node.parent_id.is_none());
    assert!(node.supertag.is_none());
    assert!(node.fields.is_empty());
    assert_eq!(node.visibility, Visibility::Private);
    assert_eq!(f64::from_bits(node.sort_order), 0.0);
    assert!(!node.id.is_nil());
}

#[test]
fn test_builder_chain() {
    let parent_id = NodeId::new();
    let node = Node::new("task content")
        .with_parent(parent_id)
        .with_supertag("task")
        .with_field("priority", FieldValue::Number(1.0f64.to_bits()));

    assert_eq!(node.parent_id, Some(parent_id));
    assert_eq!(node.supertag.as_deref(), Some("task"));
    assert!(node.fields.contains_key("priority"));
    assert_eq!(node.content, "task content");
}

#[test]
fn test_each_node_has_unique_id() {
    let a = Node::new("a");
    let b = Node::new("b");
    assert_ne!(a.id, b.id);
}

#[test]
fn new_node_timestamps_agree() {
    let node = Node::new("t");
    assert_eq!(node.created_at, node.updated_at);
    assert!(node.created_by.is_empty());
}

#[test]
fn with_field_replaces_and_keeps_keys_sorted() {
    let node = Node::new("n")
        .with_field("zeta", FieldValue::Bool(true))
        .with_field("alpha", FieldValue::Bool(false))
        .with_field("mid", FieldValue::Text("x".to_string()))
        .with_field("alpha", FieldValue::Bool(true));
    let keys: Vec<&str> = node.fields.entries().iter().map(|(k, _)| k.as_str()).collect();
    assert_eq!(keys, vec!["alpha", "mid", "zeta"]);
    assert!(matches!(node.fields.get("alpha"), Some(FieldValue::Bool(true))));
    assert!(node.fields.get("missing").is_none());
    assert_eq!(node.fields.len(), 3);
}

// ---- edges ----

#[test]
fn test_creation() {
    let from = NodeId::new();
    let to = NodeId::new();
    let edge = Edge::new(from, to, "references");

    assert_eq!(edge.from_id, from);
    assert_eq!(edge.to_id, to);
    assert_eq!(edge.kind, "references");
}

#[test]
fn test_equality() {
    let from = NodeId::new();
    let to = NodeId::new();
    let edge1 = Edge::new(from, to, "link");
    let edge2 = edge1.clone();
    assert_eq!(edge1, edge2);
}

// ---- supertag definitions ----

#[test]
fn minimal_definitions() {
    let def = SupertagDef::new("task");
    assert_eq!(def.name, "task");
    assert!(def.description.is_none());
    assert!(def.fields.is_empty());

    let fd = FieldDef::new("priority", FieldType::Number);
    assert_eq!(fd.name, "priority");
    assert_eq!(fd.field_type, FieldType::Number);
    assert!(!fd.required);
    assert!(fd.options.is_empty());
    assert!(fd.ref_tag.is_none());
}

#[test]
fn node_clone_keeps_every_part() {
    let parent = NodeId::new();
    let node = Node::new("clone me")
        .with_parent(parent)
        .with_supertag("task")
        .with_field("tags", FieldValue::MultiSelect(vec!["a".to_string(), "b".to_string()]))
        .with_field("done", FieldValue::Bool(true));
    let copy = node.clone();
    assert_eq!(copy.id, node.id);
    assert_eq!(copy.parent_id, Some(parent));
    assert_eq!(copy.content, "clone me");
    assert_eq!(copy.supertag.as_deref(), Some("task"));
    assert_eq!(copy.created_at, node.created_at);
    assert_eq!(copy.fields.len(), 2);
    match copy.fields.get("tags") {
        Some(FieldValue::MultiSelect(v)) => assert_eq!(v, &vec!["a".to_string(), "b".to_string()]),
        other => panic!("unexpected {:?}", other),
    }
    assert!(matches!(copy.fields.get("done"), Some(FieldValue::Bool(true))));
}

#[test]
fn supertag_def_clone_keeps_fields() {
    let mut def = SupertagDef::new("quest");
    let mut status = FieldDef::new("status", FieldType::Enum);
    status.required = true;
    status.options = vec!["open".to_string(), "done".to_string()];
    def.fields.push(status);
    def.description = Some("A quest".to_string());
    let copy = def.clone();
    assert_eq!(copy.name, "quest");
    assert_eq!(copy.description.as_deref(), Some("A quest"));
    assert_eq!(copy.fields.len(), 1);
    assert!(copy.fields[0].required);
    assert_eq!(copy.fields[0].field_type, FieldType::Enum);
    assert_eq!(copy.fields[0].options, vec!["open".to_string(), "done".to_string()]);
}
