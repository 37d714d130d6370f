use vstd::prelude::*;
use crate::id::NodeId;
use crate::time::Timestamp;

verus! {

/// A typed value stored in a node's field.
///
/// Numbers and coordinates are kept as the bit patterns of IEEE-754
/// double-precision values (`f64::to_bits`): the library stores and moves
/// them but never computes with them.
#[derive(Debug)]
pub enum FieldValue {
    /// Plain text content.
    Text(String),
    /// Rich text (may contain markup or markdown).
    RichText(String),
    /// Numeric value, as the bits of an `f64`.
    Number(u64),
    /// Boolean flag.
    Bool(bool),
    /// Single choice from an enumeration.
    Enum(String),
    /// Multiple choices selected.
    MultiSelect(Vec<String>),
    /// Reference to another node by ID.
    Reference(NodeId),
    /// A point in time (UTC).
    Timestamp(Timestamp),
    /// An email address.
    Email(String),
    /// A URL.
    Url(String),
    /// Geographic location (bits of `f64` latitude and longitude) with an optional label.
    Geo { lat: u64, lng: u64, label: Option<String> },
}

/// Whether two values hold the same data: the same variant with equal
/// contents, a list of choices compared by its elements.
pub open spec fn same_value(a: FieldValue, b: FieldValue) -> bool {
    match (a, b) {
        (FieldValue::MultiSelect(x), FieldValue::MultiSelect(y)) => x@ == y@,
        _ => a == b,
    }
}

/// The snake-case name of a value's variant.
pub open spec fn kind_name(v: FieldValue) -> Seq<char> {
    match v {
        FieldValue::Text(_) => "text"@,
        FieldValue::RichText(_) => "rich_text"@,
        FieldValue::Number(_) => "number"@,
        FieldValue::Bool(_) => "bool"@,
        FieldValue::Enum(_) => "enum"@,
        FieldValue::MultiSelect(_) => "multi_select"@,
        FieldValue::Reference(_) => "reference"@,
        FieldValue::Timestamp(_) => "timestamp"@,
        FieldValue::Email(_) => "email"@,
        FieldValue::Url(_) => "url"@,
        FieldValue::Geo { .. } => "geo"@,
    }
}

impl FieldValue {
    /// The name of the variant as a static string.
    pub fn kind(&self) -> (k: &'static str)
        ensures
            k@ == kind_name(*self),
    {
        match self {
            FieldValue::Text(_) => "text",
            FieldValue::RichText(_) => "rich_text",
            FieldValue::Number(_) => "number",
            FieldValue::Bool(_) => "bool",
            FieldValue::Enum(_) => "enum",
            FieldValue::MultiSelect(_) => "multi_select",
            FieldValue::Reference(_) => "reference",
            FieldValue::Timestamp(_) => "timestamp",
            FieldValue::Email(_) => "email",
            FieldValue::Url(_) => "url",
            FieldValue::Geo { .. } => "geo",
        }
    }
}

impl Clone for FieldValue {
    /// A copy holding the same data.
    fn clone(&self) -> (c: Self)
        ensures
            same_value(c, *self),
    {
        match self {
            FieldValue::Text(t) => FieldValue::Text(t.clone()),
            FieldValue::RichText(t) => FieldValue::RichText(t.clone()),
            FieldValue::Number(n) => FieldValue::Number(*n),
            FieldValue::Bool(b) => FieldValue::Bool(*b),
            FieldValue::Enum(t) => FieldValue::Enum(t.clone()),
            FieldValue::MultiSelect(v) => {
                let c = v.clone();
                assert(c@ =~= v@);
                FieldValue::MultiSelect(c)
            },
            FieldValue::Reference(id) => FieldValue::Reference(*id),
            FieldValue::Timestamp(t) => FieldValue::Timestamp(*t),
            FieldValue::Email(t) => FieldValue::Email(t.clone()),
            FieldValue::Url(t) => FieldValue::Url(t.clone()),
            FieldValue::Geo { lat, lng, label } => FieldValue::Geo {
                lat: *lat,
                lng: *lng,
                label: label.clone(),
            },
        }
    }
}

} // verus!
