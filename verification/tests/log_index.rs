use kidur::{Edge, FieldValue, LogEntry, Mutation, MutationLog, Node, NodeId, NodeIndex, Timestamp};

#[test]
fn fresh_log_starts_at_one() {
    let log = MutationLog::resume("data/kidur.jsonl", &vec![]);
    assert_eq!(log.next_seq(), 1);
    assert_eq!(log.path(), "data/kidur.jsonl");
}

#[test]
fn appends_take_consecutive_sequence_numbers() {
    let mut log = MutationLog::resume("k.jsonl", &vec![]);
    let mut seqs = Vec::new();
    for name in ["one", "two", "three"] {
        let entry = log.stage_append(Mutation::CreateNode { node: Node::new(name) });
        seqs.push(entry.seq);
        log.confirm_append();
    }
    assert_eq!(seqs, vec![1, 2, 3]);
    assert_eq!(log.next_seq(), 4);
}

#[test]
fn staging_without_confirming_keeps_the_sequence() {
    let log = MutationLog::resume("k.jsonl", &vec![1, 2]);
    let a = log.stage_append(Mutation::DeleteNode { id: NodeId::nil() });
    let b = log.stage_append(Mutation::DeleteNode { id: NodeId::nil() });
    assert_eq!(a.seq, 3);
    assert_eq!(b.seq, 3);
    assert_eq!(log.next_seq(), 3);
}

#[test]
fn reopen_continues_after_highest() {
    let log = MutationLog::resume("k.jsonl", &vec![1, 2]);
    assert_eq!(log.next_seq(), 3);
    let log = MutationLog::resume("k.jsonl", &vec![5, 2, 9, 3]);
    assert_eq!(log.next_seq(), 10);
}

fn entry(seq: u64, mutation: Mutation) -> LogEntry {
    LogEntry { seq, ts: Timestamp { secs: 0, nanos: 0 }, mutation }
}

#[test]
fn replay_builds_current_state() {
    let node = Node::new("test");
    let id = node.id;
    let other = Node::new("other");
    let other_id = other.id;
    let mut updated = node.clone();
    updated.content = "updated".to_string();
    let from = NodeId::new();
    let to = NodeId::new();
    let entries = vec![
        entry(1, Mutation::CreateNode { node }),
        entry(2, Mutation::CreateNode { node: other }),
        entry(3, Mutation::UpdateNode { node: updated }),
        entry(4, Mutation::CreateEdge { edge: Edge::new(from, to, "refs") }),
        entry(5, Mutation::DeleteEdge { from_id: from, to_id: to, kind: "refs".to_string() }),
        entry(6, Mutation::DeleteNode { id: other_id }),
    ];
    let index = NodeIndex::replay(entries);
    assert_eq!(index.nodes().len(), 1);
    assert_eq!(index.get(id.as_uuid()).unwrap().content, "updated");
    assert!(index.get(other_id.as_uuid()).is_none());
}

#[test]
fn delete_then_create_again() {
    let mut index = NodeIndex::new();
    let node = Node::new("again");
    let id = node.id;
    index.apply(Mutation::CreateNode { node: node.clone() });
    index.apply(Mutation::DeleteNode { id });
    assert!(index.get(id.as_uuid()).is_none());
    index.apply(Mutation::DeleteNode { id });
    assert!(index.get(id.as_uuid()).is_none());
    index.apply(Mutation::UpdateNode { node });
    assert_eq!(index.get(id.as_uuid()).unwrap().content, "again");
}

fn node_at(id: u128, secs: i64, tag: Option<&str>) -> Node {
    let mut n = Node::new("n");
    n.id = NodeId::from_uuid(id);
    n.created_at = Timestamp { secs, nanos: 0 };
    n.updated_at = n.created_at;
    if let Some(t) = tag {
        n = n.with_supertag(t);
    }
    n
}

#[test]
fn list_is_newest_first_with_ties_by_id() {
    let mut index = NodeIndex::new();
    for n in [
        node_at(5, 100, Some("task")),
        node_at(2, 300, Some("task")),
        node_at(9, 200, None),
        node_at(1, 100, Some("task")),
        node_at(7, 300, Some("person")),
    ] {
        index.apply(Mutation::CreateNode { node: n });
    }
    let ids = |v: Vec<&Node>| v.iter().map(|n| n.id.as_uuid()).collect::<Vec<u128>>();
    assert_eq!(ids(index.list(None, 20)), vec![2, 7, 9, 1, 5]);
    assert_eq!(ids(index.list(Some("task"), 20)), vec![2, 1, 5]);
    assert_eq!(ids(index.list(Some("task"), 2)), vec![2, 1]);
    assert_eq!(ids(index.list(None, 0)), Vec::<u128>::new());
    assert_eq!(ids(index.list(Some("nothing"), 5)), Vec::<u128>::new());
}

#[test]
fn replayed_nodes_keep_their_fields() {
    let node = Node::new("with fields").with_field("done", FieldValue::Bool(true));
    let id = node.id;
    let index = NodeIndex::replay(vec![entry(1, Mutation::CreateNode { node })]);
    let stored = index.get(id.as_uuid()).unwrap();
    assert!(matches!(stored.fields.get("done"), Some(FieldValue::Bool(true))));
}
