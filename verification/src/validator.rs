use vstd::prelude::*;
use crate::error::{KidurError, KidurResult};
use crate::field_map::{has_key, FieldMap};
use crate::field_value::{kind_name, FieldValue};
use crate::supertag_def::{field_type_name, FieldDef, FieldType, SupertagDef};
use crate::text::text_eq;

verus! {

/// What checking a node's fields against a supertag concludes.
pub enum Verdict {
    /// The fields conform.
    Valid,
    /// A required field (named here) is absent.
    Missing(Seq<char>),
    /// The named field holds a value the schema refuses, for the given reason.
    Invalid(Seq<char>, Seq<char>),
    /// Any other error.
    Other,
}

/// The verdict that a validation result carries.
pub open spec fn result_verdict(r: KidurResult<()>) -> Verdict {
    match r {
        Ok(()) => Verdict::Valid,
        Err(KidurError::MissingRequiredField(n)) => Verdict::Missing(n@),
        Err(KidurError::FieldValidation { field, reason }) => Verdict::Invalid(field@, reason@),
        Err(_) => Verdict::Other,
    }
}

/// How `Debug` writes a list of strings: `["a", "b"]`, with each string
/// quoted and escaped.
pub uninterp spec fn debug_text_list(items: Seq<Seq<char>>) -> Seq<char>;

/// The texts of a list of strings.
pub open spec fn texts(items: Seq<String>) -> Seq<Seq<char>> {
    items.map_values(|s: String| s@)
}

/// Calls `format!("{:?}", items)` on a list of strings.
#[verifier::external_body]
fn format_debug_list(items: &Vec<String>) -> (s: String)
    ensures
        s@ == debug_text_list(texts(items@)),
{
    format!("{:?}", items)
}

/// Whether one of the strings has the given text.
pub open spec fn contains_text(items: Seq<String>, v: Seq<char>) -> bool {
    exists|i: int| 0 <= i < items.len() && items[i]@ == v
}

/// The field definition that a lookup by name finds: the last one with that
/// name (the schema is a map built from the definitions in order).
pub open spec fn schema_lookup(defs: Seq<FieldDef>, name: Seq<char>) -> Option<FieldDef>
    decreases defs.len(),
{
    if defs.len() == 0 {
        None
    } else if defs.last().name@ == name {
        Some(defs.last())
    } else {
        schema_lookup(defs.drop_last(), name)
    }
}

/// Whether a value is of the variant that a field type names.
pub open spec fn value_has_type(t: FieldType, v: FieldValue) -> bool {
    match (t, v) {
        (FieldType::Text, FieldValue::Text(_)) => true,
        (FieldType::RichText, FieldValue::RichText(_)) => true,
        (FieldType::Number, FieldValue::Number(_)) => true,
        (FieldType::Bool, FieldValue::Bool(_)) => true,
        (FieldType::Enum, FieldValue::Enum(_)) => true,
        (FieldType::MultiSelect, FieldValue::MultiSelect(_)) => true,
        (FieldType::Reference, FieldValue::Reference(_)) => true,
        (FieldType::Timestamp, FieldValue::Timestamp(_)) => true,
        (FieldType::Email, FieldValue::Email(_)) => true,
        (FieldType::Url, FieldValue::Url(_)) => true,
        (FieldType::Geo, FieldValue::Geo { .. }) => true,
        _ => false,
    }
}

/// The first selected value (from position `i` on) that is not among the options.
pub open spec fn first_unlisted_from(vals: Seq<String>, options: Seq<String>, i: int) -> Option<Seq<char>>
    decreases vals.len() - i,
{
    if i < 0 || i >= vals.len() {
        None
    } else if !contains_text(options, vals[i]@) {
        Some(vals[i]@)
    } else {
        first_unlisted_from(vals, options, i + 1)
    }
}

/// The reason given for an enum value outside the options.
pub open spec fn enum_reason(val: Seq<char>, options: Seq<String>) -> Seq<char> {
    "enum value '"@ + val + "' is not in options "@ + debug_text_list(texts(options))
}

/// The reason given for a multi-select value outside the options.
pub open spec fn multi_select_reason(val: Seq<char>, options: Seq<String>) -> Seq<char> {
    "multi_select value '"@ + val + "' is not in options "@ + debug_text_list(texts(options))
}

/// The reason given for a value of the wrong type.
pub open spec fn type_reason(t: FieldType, v: FieldValue) -> Seq<char> {
    "expected type "@ + field_type_name(t) + ", got kind '"@ + kind_name(v) + "'"@
}

/// What is wrong with a value under its field definition, if anything.
pub open spec fn field_problem(fd: FieldDef, v: FieldValue) -> Option<Seq<char>> {
    match v {
        FieldValue::Enum(val) if fd.field_type == FieldType::Enum => {
            if fd.options@.len() > 0 && !contains_text(fd.options@, val@) {
                Some(enum_reason(val@, fd.options@))
            } else {
                None
            }
        },
        FieldValue::MultiSelect(vals) if fd.field_type == FieldType::MultiSelect => {
            if fd.options@.len() > 0 {
                match first_unlisted_from(vals@, fd.options@, 0) {
                    Some(u) => Some(multi_select_reason(u, fd.options@)),
                    None => None,
                }
            } else {
                None
            }
        },
        _ => {
            if value_has_type(fd.field_type, v) {
                None
            } else {
                Some(type_reason(fd.field_type, v))
            }
        },
    }
}

/// Whether a definition names a required field that the entries lack.
pub open spec fn missing(fd: FieldDef, fields: Seq<(String, FieldValue)>) -> bool {
    fd.required && !has_key(fields, fd.name@)
}

/// The name of the first required field (from definition `i` on) that is absent.
pub open spec fn first_missing_from(defs: Seq<FieldDef>, fields: Seq<(String, FieldValue)>, i: int) -> Option<Seq<char>>
    decreases defs.len() - i,
{
    if i < 0 || i >= defs.len() {
        None
    } else if missing(defs[i], fields) {
        Some(defs[i].name@)
    } else {
        first_missing_from(defs, fields, i + 1)
    }
}

/// The first entry (from position `i` on) that its schema field refuses: its
/// key and the reason. Entries that the schema does not name are allowed.
pub open spec fn first_problem_from(defs: Seq<FieldDef>, fields: Seq<(String, FieldValue)>, i: int) -> Option<(Seq<char>, Seq<char>)>
    decreases fields.len() - i,
{
    if i < 0 || i >= fields.len() {
        None
    } else {
        match schema_lookup(defs, fields[i].0@) {
            Some(fd) => match field_problem(fd, fields[i].1) {
                Some(r) => Some((fields[i].0@, r)),
                None => first_problem_from(defs, fields, i + 1),
            },
            None => first_problem_from(defs, fields, i + 1),
        }
    }
}

/// The verdict on fields (in ascending key order) under a supertag: first any
/// absent required field (in definition order), then the first refused entry
/// (in key order).
pub open spec fn validation_verdict(def: SupertagDef, fields: Seq<(String, FieldValue)>) -> Verdict {
    match first_missing_from(def.fields@, fields, 0) {
        Some(n) => Verdict::Missing(n),
        None => match first_problem_from(def.fields@, fields, 0) {
            Some(p) => Verdict::Invalid(p.0, p.1),
            None => Verdict::Valid,
        },
    }
}

/// An enum field without options accepts any enum value.
pub proof fn lemma_enum_without_options_accepts_any(fd: FieldDef, val: String)
    requires
        fd.field_type == FieldType::Enum,
        fd.options@.len() == 0,
    ensures
        field_problem(fd, FieldValue::Enum(val)) is None,
{
}

proof fn lemma_missing_after_insert(defs: Seq<FieldDef>, s: Seq<(String, FieldValue)>, p: int, e: (String, FieldValue), i: int)
    requires
        0 <= p <= s.len(),
        0 <= i,
        first_missing_from(defs, s, i) is None,
    ensures
        first_missing_from(defs, s.insert(p, e), i) is None,
    decreases defs.len() - i,
{
    if i < defs.len() {
        lemma_missing_after_insert(defs, s, p, e, i + 1);
        if defs[i].required {
            let t = s.insert(p, e);
            let k = choose|k: int| 0 <= k < s.len() && s[k].0@ == defs[i].name@;
            if k < p {
                assert(t[k] == s[k]);
            } else {
                assert(t[k + 1] == s[k]);
            }
        }
    }
}

proof fn lemma_problem_after_insert(defs: Seq<FieldDef>, s: Seq<(String, FieldValue)>, p: int, e: (String, FieldValue), i: int)
    requires
        0 <= p <= s.len(),
        0 <= i <= s.len(),
        schema_lookup(defs, e.0@) is None,
    ensures
        i <= p ==> first_problem_from(defs, s.insert(p, e), i) == first_problem_from(defs, s, i),
        i >= p ==> first_problem_from(defs, s.insert(p, e), i + 1) == first_problem_from(defs, s, i),
    decreases s.len() - i,
{
    let t = s.insert(p, e);
    if i < s.len() {
        lemma_problem_after_insert(defs, s, p, e, i + 1);
        if i < p {
            assert(t[i] == s[i]);
        } else {
            assert(t[i + 1] == s[i]);
        }
    }
    if i == p {
        assert(t[p] == e);
    }
}

/// Fields that the schema does not name are allowed: adding one to fields
/// that pass leaves them passing.
pub proof fn lemma_unnamed_field_allowed(
    def: SupertagDef,
    fields: Seq<(String, FieldValue)>,
    p: int,
    key: String,
    value: FieldValue,
)
    requires
        validation_verdict(def, fields) == Verdict::Valid,
        schema_lookup(def.fields@, key@) is None,
        0 <= p <= fields.len(),
    ensures
        validation_verdict(def, fields.insert(p, (key, value))) == Verdict::Valid,
{
    lemma_missing_after_insert(def.fields@, fields, p, (key, value), 0);
    lemma_problem_after_insert(def.fields@, fields, p, (key, value), 0);
}

/// What the search for an absent required field finds from definition `i` on.
proof fn lemma_first_missing(defs: Seq<FieldDef>, fields: Seq<(String, FieldValue)>, i: int)
    requires
        0 <= i <= defs.len(),
    ensures
        first_missing_from(defs, fields, i) is None <==> forall|j: int|
            i <= j < defs.len() ==> !(#[trigger] defs[j].required && !has_key(fields, defs[j].name@)),
        first_missing_from(defs, fields, i) matches Some(n) ==> exists|j: int|
            i <= j < defs.len() && #[trigger] defs[j].required && !has_key(fields, defs[j].name@)
                && defs[j].name@ == n && forall|k: int|
                i <= k < j ==> !(#[trigger] defs[k].required && !has_key(fields, defs[k].name@)),
    decreases defs.len() - i,
{
    if i < defs.len() {
        lemma_first_missing(defs, fields, i + 1);
        if !missing(defs[i], fields) {
            if let Some(n) = first_missing_from(defs, fields, i + 1) {
                let j = choose|j: int|
                    i + 1 <= j < defs.len() && #[trigger] defs[j].required && !has_key(fields, defs[j].name@)
                        && defs[j].name@ == n && forall|k: int|
                        i + 1 <= k < j ==> !(#[trigger] defs[k].required && !has_key(fields, defs[k].name@));
                assert forall|k: int| i <= k < j implies !(#[trigger] defs[k].required && !has_key(fields, defs[k].name@)) by {
                    if k > i {
                    }
                }
            }
        } else {
            assert(defs[i].required && !has_key(fields, defs[i].name@));
        }
    }
}

/// Every required field is checked: the fields are refused as missing a
/// field exactly when some required field has no entry, and the field named
/// is the first such one in the schema's order.
pub proof fn lemma_required_fields_checked(def: SupertagDef, fields: Seq<(String, FieldValue)>)
    ensures
        (exists|i: int| 0 <= i < def.fields@.len() && #[trigger] def.fields@[i].required && !has_key(fields, def.fields@[i].name@))
            <==> validation_verdict(def, fields) is Missing,
        validation_verdict(def, fields) is Valid ==> forall|i: int|
            0 <= i < def.fields@.len() && #[trigger] def.fields@[i].required ==> has_key(fields, def.fields@[i].name@),
        validation_verdict(def, fields) matches Verdict::Missing(n) ==> exists|i: int|
            0 <= i < def.fields@.len() && #[trigger] def.fields@[i].required && !has_key(fields, def.fields@[i].name@)
                && def.fields@[i].name@ == n && forall|k: int|
                0 <= k < i ==> !(#[trigger] def.fields@[k].required && !has_key(fields, def.fields@[k].name@)),
{
    lemma_first_missing(def.fields@, fields, 0);
}

/// What the search for a refused entry finds from entry `i` on.
proof fn lemma_first_problem(defs: Seq<FieldDef>, fields: Seq<(String, FieldValue)>, i: int)
    requires
        0 <= i <= fields.len(),
    ensures
        first_problem_from(defs, fields, i) is None ==> forall|j: int|
            i <= j < fields.len() ==> match schema_lookup(defs, #[trigger] fields[j].0@) {
                Some(fd) => field_problem(fd, fields[j].1) is None,
                None => true,
            },
    decreases fields.len() - i,
{
    if i < fields.len() {
        lemma_first_problem(defs, fields, i + 1);
    }
}

/// A value that passes its field definition has the variant that the field's
/// type names, and an enum value with options to choose from is one of them.
pub proof fn lemma_accepted_value(fd: FieldDef, v: FieldValue)
    requires
        field_problem(fd, v) is None,
    ensures
        value_has_type(fd.field_type, v),
        fd.field_type == FieldType::Enum && fd.options@.len() > 0 ==> (v matches FieldValue::Enum(s) && contains_text(
            fd.options@,
            s@,
        )),
        fd.field_type == FieldType::MultiSelect && fd.options@.len() > 0 ==> (v matches FieldValue::MultiSelect(items)
            && forall|k: int| 0 <= k < items@.len() ==> contains_text(fd.options@, #[trigger] items@[k]@)),
{
    if fd.field_type == FieldType::MultiSelect && fd.options@.len() > 0 {
        if let FieldValue::MultiSelect(items) = v {
            lemma_first_unlisted(items@, fd.options@, 0);
        }
    }
}

/// What the search for a selected value outside the options finds from `i` on.
proof fn lemma_first_unlisted(vals: Seq<String>, options: Seq<String>, i: int)
    requires
        0 <= i <= vals.len(),
    ensures
        first_unlisted_from(vals, options, i) is None ==> forall|k: int|
            i <= k < vals.len() ==> contains_text(options, #[trigger] vals[k]@),
    decreases vals.len() - i,
{
    if i < vals.len() {
        lemma_first_unlisted(vals, options, i + 1);
    }
}

/// Fields that pass hold every required field, and every entry that the
/// schema names has a value of the named type, within the options where the
/// field has them.
pub proof fn lemma_valid_fields(def: SupertagDef, fields: Seq<(String, FieldValue)>, j: int)
    requires
        validation_verdict(def, fields) is Valid,
        0 <= j < fields.len(),
    ensures
        forall|i: int|
            0 <= i < def.fields@.len() && #[trigger] def.fields@[i].required ==> has_key(fields, def.fields@[i].name@),
        schema_lookup(def.fields@, fields[j].0@) matches Some(fd) ==> {
            &&& value_has_type(fd.field_type, fields[j].1)
            &&& fd.field_type == FieldType::Enum && fd.options@.len() > 0 ==> (fields[j].1 matches FieldValue::Enum(s)
                && contains_text(fd.options@, s@))
        },
{
    lemma_required_fields_checked(def, fields);
    lemma_first_problem(def.fields@, fields, 0);
    if let Some(fd) = schema_lookup(def.fields@, fields[j].0@) {
        assert(field_problem(fd, fields[j].1) is None);
        lemma_accepted_value(fd, fields[j].1);
    }
}

/// Whether one of the options has the given text.
fn options_contain(options: &Vec<String>, v: &str) -> (b: bool)
    ensures
        b == contains_text(options@, v@),
{
    let n = options.len();
    let mut i: usize = 0;
    while i < n
        invariant
            n == options@.len(),
            i <= n,
            forall|j: int| 0 <= j < i ==> options@[j]@ != v@,
        decreases n - i,
    {
        if text_eq(options[i].as_str(), v) {
            return true;
        }
        i = i + 1;
    }
    false
}

/// The last definition with the given name.
pub(crate) fn lookup_schema<'a>(defs: &'a Vec<FieldDef>, name: &str) -> (r: Option<&'a FieldDef>)
    ensures
        match r {
            Some(fd) => schema_lookup(defs@, name@) == Some(*fd),
            None => schema_lookup(defs@, name@) is None,
        },
{
    let mut i: usize = defs.len();
    assert(defs@.take(i as int) =~= defs@);
    while i > 0
        invariant
            i <= defs@.len(),
            schema_lookup(defs@, name@) == schema_lookup(defs@.take(i as int), name@),
        decreases i,
    {
        let ghost pre = defs@.take(i as int);
        assert(pre.drop_last() =~= defs@.take(i - 1));
        if text_eq(defs[i - 1].name.as_str(), name) {
            return Some(&defs[i - 1]);
        }
        i = i - 1;
    }
    assert(defs@.take(0).len() == 0);
    None
}

fn first_unlisted(vals: &Vec<String>, options: &Vec<String>) -> (r: Option<usize>)
    ensures
        match r {
            Some(k) => k < vals@.len() && first_unlisted_from(vals@, options@, 0) == Some(vals@[k as int]@),
            None => first_unlisted_from(vals@, options@, 0) is None,
        },
{
    let n = vals.len();
    let mut i: usize = 0;
    while i < n
        invariant
            n == vals@.len(),
            i <= n,
            first_unlisted_from(vals@, options@, 0) == first_unlisted_from(vals@, options@, i as int),
        decreases n - i,
    {
        if !options_contain(options, vals[i].as_str()) {
            return Some(i);
        }
        i = i + 1;
    }
    None
}

/// Text built from a prefix, a value and a suffix list: `p + v + q + list`.
fn reason_text(p: &str, v: &str, q: &str, options: &Vec<String>) -> (s: String)
    ensures
        s@ == p@ + v@ + q@ + debug_text_list(texts(options@)),
{
    let list = format_debug_list(options);
    let mut s = String::from_str(p);
    s.append(v);
    s.append(q);
    s.append(list.as_str());
    s
}

/// What is wrong with a value under its field definition, if anything.
fn check_value(fd: &FieldDef, v: &FieldValue) -> (r: Option<String>)
    ensures
        match r {
            Some(s) => field_problem(*fd, *v) == Some(s@),
            None => field_problem(*fd, *v) is None,
        },
{
    match v {
        FieldValue::Enum(val) => {
            if fd.field_type == FieldType::Enum {
                if fd.options.len() > 0 && !options_contain(&fd.options, val.as_str()) {
                    return Some(reason_text("enum value '", val.as_str(), "' is not in options ", &fd.options));
                }
                return None;
            }
        },
        FieldValue::MultiSelect(vals) => {
            if fd.field_type == FieldType::MultiSelect {
                if fd.options.len() > 0 {
                    match first_unlisted(vals, &fd.options) {
                        Some(k) => {
                            return Some(
                                reason_text(
                                    "multi_select value '",
                                    vals[k].as_str(),
                                    "' is not in options ",
                                    &fd.options,
                                ),
                            );
                        },
                        None => {
                            return None;
                        },
                    }
                }
                return None;
            }
        },
        _ => {},
    }
    let type_ok = match (fd.field_type, v) {
        (FieldType::Text, FieldValue::Text(_)) => true,
        (FieldType::RichText, FieldValue::RichText(_)) => true,
        (FieldType::Number, FieldValue::Number(_)) => true,
        (FieldType::Bool, FieldValue::Bool(_)) => true,
        (FieldType::Enum, FieldValue::Enum(_)) => true,
        (FieldType::MultiSelect, FieldValue::MultiSelect(_)) => true,
        (FieldType::Reference, FieldValue::Reference(_)) => true,
        (FieldType::Timestamp, FieldValue::Timestamp(_)) => true,
        (FieldType::Email, FieldValue::Email(_)) => true,
        (FieldType::Url, FieldValue::Url(_)) => true,
        (FieldType::Geo, FieldValue::Geo { .. }) => true,
        _ => false,
    };
    if type_ok {
        None
    } else {
        let mut s = String::from_str("expected type ");
        s.append(fd.field_type.name());
        s.append(", got kind '");
        s.append(v.kind());
        s.append("'");
        Some(s)
    }
}

/// Checks fields against a supertag's schema.
///
/// Every required field must be present (the first absent one, in definition
/// order, is reported). Then each field the schema names, in ascending key
/// order, must hold a value of the declared type; an enum value must be one
/// of the options, and every selected value of a multi-select too (unless
/// the options are empty). Fields the schema does not name are allowed.
pub fn validate_fields(def: &SupertagDef, fields: &FieldMap) -> (r: KidurResult<()>)
    ensures
        result_verdict(r) == validation_verdict(*def, fields@),
        r is Ok ==> forall|i: int|
            0 <= i < def.fields@.len() && #[trigger] def.fields@[i].required ==> has_key(fields@, def.fields@[i].name@),
        (exists|i: int|
            0 <= i < def.fields@.len() && #[trigger] def.fields@[i].required && !has_key(fields@, def.fields@[i].name@))
            ==> r matches Err(KidurError::MissingRequiredField(_)),
{
    proof {
        lemma_required_fields_checked(*def, fields@);
    }
    let nd = def.fields.len();
    let mut i: usize = 0;
    while i < nd
        invariant
            nd == def.fields@.len(),
            i <= nd,
            first_missing_from(def.fields@, fields@, 0) == first_missing_from(def.fields@, fields@, i as int),
        decreases nd - i,
    {
        let fd = &def.fields[i];
        if fd.required && !fields.contains_key(fd.name.as_str()) {
            return Err(KidurError::MissingRequiredField(fd.name.clone()));
        }
        i = i + 1;
    }
    let entries = fields.entries();
    let ne = entries.len();
    let mut j: usize = 0;
    while j < ne
        invariant
            ne == entries@.len(),
            entries@ == fields@,
            j <= ne,
            first_missing_from(def.fields@, fields@, 0) is None,
            first_problem_from(def.fields@, fields@, 0) == first_problem_from(def.fields@, fields@, j as int),
        decreases ne - j,
    {
        let key = &entries[j].0;
        match lookup_schema(&def.fields, key.as_str()) {
            Some(fd) => {
                match check_value(fd, &entries[j].1) {
                    Some(reason) => {
                        proof {
                            lemma_required_fields_checked(*def, fields@);
                        }
                        return Err(KidurError::FieldValidation { field: key.clone(), reason });
                    },
                    None => {},
                }
            },
            None => {},
        }
        j = j + 1;
    }
    Ok(())
}

} // verus!
