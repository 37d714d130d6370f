use vstd::prelude::*;
use crate::id::NodeId;

verus! {

/// The errors of the library.
#[derive(Debug)]
pub enum KidurError {
    NodeNotFound(NodeId),
    EdgeNotFound { from: NodeId, to: NodeId, kind: String },
    UnknownSupertag(String),
    FieldValidation { field: String, reason: String },
    MissingRequiredField(String),
    Crdt(String),
    Store(String),
    SupertagParse(String),
    Other(String),
}

/// The result type of the library.
pub type KidurResult<T> = Result<T, KidurError>;

} // verus!
