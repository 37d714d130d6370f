use vstd::prelude::*;

verus! {

/// The type a field of a supertag expects: the variants of `FieldValue`
/// without their data.
#[derive(Debug, Clone, Copy, PartialEq, Eq, Structural)]
pub enum FieldType {
    Text,
    RichText,
    Number,
    Bool,
    Enum,
    MultiSelect,
    Reference,
    Timestamp,
    Email,
    Url,
    Geo,
}

/// The name under which a field type is shown in messages (its variant name).
pub open spec fn field_type_name(t: FieldType) -> Seq<char> {
    match t {
        FieldType::Text => "Text"@,
        FieldType::RichText => "RichText"@,
        FieldType::Number => "Number"@,
        FieldType::Bool => "Bool"@,
        FieldType::Enum => "Enum"@,
        FieldType::MultiSelect => "MultiSelect"@,
        FieldType::Reference => "Reference"@,
        FieldType::Timestamp => "Timestamp"@,
        FieldType::Email => "Email"@,
        FieldType::Url => "Url"@,
        FieldType::Geo => "Geo"@,
    }
}

impl FieldType {
    /// The variant's name, as the `Debug` form of the type writes it.
    pub fn name(&self) -> (s: &'static str)
        ensures
            s@ == field_type_name(*self),
    {
        match self {
            FieldType::Text => "Text",
            FieldType::RichText => "RichText",
            FieldType::Number => "Number",
            FieldType::Bool => "Bool",
            FieldType::Enum => "Enum",
            FieldType::MultiSelect => "MultiSelect",
            FieldType::Reference => "Reference",
            FieldType::Timestamp => "Timestamp",
            FieldType::Email => "Email",
            FieldType::Url => "Url",
            FieldType::Geo => "Geo",
        }
    }
}

/// Schema of a single field within a supertag.
#[derive(Debug)]
pub struct FieldDef {
    /// The field name (the key in a node's fields).
    pub name: String,
    /// The expected type of values stored in this field.
    pub field_type: FieldType,
    /// Nodes carrying the supertag must set this field.
    pub required: bool,
    /// For `Enum` / `MultiSelect`: the allowed option strings (none: any).
    pub options: Vec<String>,
    /// For `Reference`: the supertag that referenced nodes should carry.
    pub ref_tag: Option<String>,
}

impl FieldDef {
    /// A field definition with just a name and a type: optional, no options,
    /// no reference tag.
    pub fn new(name: &str, field_type: FieldType) -> (d: Self)
        ensures
            d.name@ == name@,
            d.field_type == field_type,
            !d.required,
            d.options@.len() == 0,
            d.ref_tag is None,
    {
        FieldDef {
            name: String::from_str(name),
            field_type,
            required: false,
            options: Vec::new(),
            ref_tag: None,
        }
    }
}

/// A supertag: the schema template applied to nodes that carry its name.
#[derive(Debug)]
pub struct SupertagDef {
    /// The supertag name (used in `Node::supertag` and `FieldDef::ref_tag`).
    pub name: String,
    /// Optional human-readable description.
    pub description: Option<String>,
    /// The ordered field definitions.
    pub fields: Vec<FieldDef>,
}

impl SupertagDef {
    /// A supertag with just a name: no description and no fields.
    pub fn new(name: &str) -> (d: Self)
        ensures
            d.name@ == name@,
            d.description is None,
            d.fields@.len() == 0,
    {
        SupertagDef { name: String::from_str(name), description: None, fields: Vec::new() }
    }
}

/// Whether two field definitions say the same: equal name, type, flag,
/// options (by their elements) and reference tag.
pub open spec fn same_field_def(a: FieldDef, b: FieldDef) -> bool {
    &&& a.name == b.name
    &&& a.field_type == b.field_type
    &&& a.required == b.required
    &&& a.options@ == b.options@
    &&& a.ref_tag == b.ref_tag
}

/// Whether two supertags say the same: equal name and description, and
/// field definitions that say the same, in the same order.
pub open spec fn same_supertag_def(a: SupertagDef, b: SupertagDef) -> bool {
    &&& a.name == b.name
    &&& a.description == b.description
    &&& a.fields@.len() == b.fields@.len()
    &&& forall|i: int|
        0 <= i < a.fields@.len() ==> #[trigger] same_field_def(a.fields@[i], b.fields@[i])
}

impl Clone for FieldDef {
    /// A copy that says the same.
    fn clone(&self) -> (c: Self)
        ensures
            same_field_def(c, *self),
    {
        let options = self.options.clone();
        assert(options@ =~= self.options@);
        FieldDef {
            name: self.name.clone(),
            field_type: self.field_type,
            required: self.required,
            options,
            ref_tag: self.ref_tag.clone(),
        }
    }
}

impl Clone for SupertagDef {
    /// A copy that says the same.
    fn clone(&self) -> (c: Self)
        ensures
            same_supertag_def(c, *self),
    {
        let n = self.fields.len();
        let mut fields: Vec<FieldDef> = Vec::new();
        let mut i: usize = 0;
        while i < n
            invariant
                n == self.fields@.len(),
                i <= n,
                fields@.len() == i,
                forall|j: int| 0 <= j < i ==> #[trigger] same_field_def(fields@[j], self.fields@[j]),
            decreases n - i,
        {
            fields.push(self.fields[i].clone());
            i = i + 1;
        }
        SupertagDef { name: self.name.clone(), description: self.description.clone(), fields }
    }
}

} // verus!
