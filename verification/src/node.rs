use vstd::prelude::*;
use crate::field_map::{has_key, keys_increasing, same_entries, FieldMap};
use crate::field_value::FieldValue;
use crate::id::{uuid_version, NodeId};
use crate::time::Timestamp;
use crate::visibility::Visibility;

verus! {

/// A node of the outliner graph: the unit of content.
///
/// Every node has an identity, an optional place in the tree (its parent),
/// typed fields and a visibility.
#[derive(Debug)]
pub struct Node {
    /// Unique identifier.
    pub id: NodeId,
    /// Parent node, or `None` for a root node.
    pub parent_id: Option<NodeId>,
    /// Fractional index ordering siblings, as the bits of an `f64`.
    pub sort_order: u64,
    /// The main text content.
    pub content: String,
    /// Optional supertag name (e.g. "person", "task").
    pub supertag: Option<String>,
    /// Typed fields, keyed by name.
    pub fields: FieldMap,
    /// When the node was first created (UTC).
    pub created_at: Timestamp,
    /// When the node was last modified (UTC).
    pub updated_at: Timestamp,
    /// Who created the node.
    pub created_by: String,
    /// Who can see the node.
    pub visibility: Visibility,
}

/// Whether two nodes hold the same data: equal in every part, the fields
/// entry by entry.
pub open spec fn same_node(a: Node, b: Node) -> bool {
    &&& a.id == b.id
    &&& a.parent_id == b.parent_id
    &&& a.sort_order == b.sort_order
    &&& a.content == b.content
    &&& a.supertag == b.supertag
    &&& same_entries(a.fields@, b.fields@)
    &&& a.created_at == b.created_at
    &&& a.updated_at == b.updated_at
    &&& a.created_by == b.created_by
    &&& a.visibility == b.visibility
}

impl Clone for Node {
    /// A copy holding the same data.
    fn clone(&self) -> (c: Self)
        ensures
            same_node(c, *self),
    {
        Node {
            id: self.id,
            parent_id: self.parent_id,
            sort_order: self.sort_order,
            content: self.content.clone(),
            supertag: self.supertag.clone(),
            fields: self.fields.clone(),
            created_at: self.created_at,
            updated_at: self.updated_at,
            created_by: self.created_by.clone(),
            visibility: self.visibility,
        }
    }
}

impl Node {
    /// A new root node with the given content, a fresh identifier, sort
    /// order 0.0, no supertag, no fields, both timestamps set to now, an
    /// empty creator and private visibility.
    pub fn new(content: &str) -> (n: Self)
        ensures
            uuid_version(n.id.0) == 7,
            n.id.0 != 0,
            n.parent_id is None,
            n.sort_order == 0,
            n.content@ == content@,
            n.supertag is None,
            n.fields@.len() == 0,
            n.created_at == n.updated_at,
            n.created_by@.len() == 0,
            n.visibility == Visibility::Private,
    {
        let now = Timestamp::now();
        Node {
            id: NodeId::new(),
            parent_id: None,
            sort_order: 0,
            content: String::from_str(content),
            supertag: None,
            fields: FieldMap::new(),
            created_at: now,
            updated_at: now,
            created_by: String::new(),
            visibility: Visibility::Private,
        }
    }

    /// The same node under the given parent.
    pub fn with_parent(self, parent_id: NodeId) -> (n: Self)
        ensures
            n == (Node { parent_id: Some(parent_id), ..self }),
    {
        let mut n = self;
        n.parent_id = Some(parent_id);
        n
    }

    /// The same node carrying the given supertag.
    pub fn with_supertag(self, supertag: &str) -> (n: Self)
        ensures
            n.supertag matches Some(t) && t@ == supertag@,
            n == (Node { supertag: n.supertag, ..self }),
    {
        let mut n = self;
        n.supertag = Some(String::from_str(supertag));
        n
    }

    /// The same node with the field set to the value, replacing any value
    /// already stored under that key.
    pub fn with_field(self, key: &str, value: FieldValue) -> (n: Self)
        ensures
            n == (Node { fields: n.fields, ..self }),
            keys_increasing(n.fields@),
            exists|i: int| 0 <= i < n.fields@.len() && n.fields@[i].0@ == key@ && n.fields@[i].1 == value,
            forall|k: Seq<char>| #[trigger] has_key(n.fields@, k) <==> has_key(self.fields@, k) || k == key@,
            has_key(self.fields@, key@) ==> exists|i: int|
                0 <= i < self.fields@.len() && self.fields@[i].0@ == key@ && n.fields@[i].0@ == key@
                    && n.fields@ == self.fields@.update(i, (n.fields@[i].0, value)),
            !has_key(self.fields@, key@) ==> exists|p: int|
                0 <= p <= self.fields@.len() && n.fields@[p].0@ == key@ && n.fields@ == self.fields@.insert(
                    p,
                    (n.fields@[p].0, value),
                ),
    {
        let mut n = self;
        let k = String::from_str(key);
        let ghost gk = k;
        let ghost before = n.fields@;
        n.fields.insert(k, value);
        proof {
            if has_key(before, key@) {
                let i = choose|i: int|
                    0 <= i < before.len() && before[i].0@ == key@ && n.fields@ == before.update(i, (gk, value));
                assert(n.fields@[i] == (gk, value));
            }
            if !has_key(before, key@) {
                let p = choose|p: int| 0 <= p <= before.len() && n.fields@ == before.insert(p, (gk, value));
                assert(n.fields@[p] == (gk, value));
            }
        }
        n
    }
}

} // verus!
