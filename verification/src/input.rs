use vstd::prelude::*;
use vstd::utf8::encode_utf8;
use crate::field_value::FieldValue;
use crate::id::{uuid_parse, NodeId};
use crate::supertag_def::{FieldDef, FieldType, SupertagDef};
use crate::text::text_eq;
use crate::time::{midnight_of_day, naive_date_parse, utc_datetime_parse, Timestamp};
use crate::validator::{field_problem, lookup_schema, schema_lookup, texts, value_has_type};

verus! {

/// Whether a character has the Unicode `White_Space` property (what
/// `char::is_whitespace` tests).
pub open spec fn is_white_space(c: char) -> bool {
    ('\t' <= c && c <= '\r') || c == ' ' || c == '\u{85}' || c == '\u{a0}' || c == '\u{1680}'
        || ('\u{2000}' <= c && c <= '\u{200a}') || c == '\u{2028}' || c == '\u{2029}' || c == '\u{202f}'
        || c == '\u{205f}' || c == '\u{3000}'
}

fn white_space(c: char) -> (b: bool)
    ensures
        b == is_white_space(c),
{
    ('\t' <= c && c <= '\r') || c == ' ' || c == '\u{85}' || c == '\u{a0}' || c == '\u{1680}'
        || ('\u{2000}' <= c && c <= '\u{200a}') || c == '\u{2028}' || c == '\u{2029}' || c == '\u{202f}'
        || c == '\u{205f}' || c == '\u{3000}'
}

/// The first position at or after `i` holding a character that is not white space.
pub open spec fn first_non_space_from(s: Seq<char>, i: int) -> int
    decreases s.len() - i,
{
    if i < 0 || i >= s.len() {
        s.len() as int
    } else if !is_white_space(s[i]) {
        i
    } else {
        first_non_space_from(s, i + 1)
    }
}

/// One past the last position before `j` holding a character that is not
/// white space (and not before `lo`).
pub open spec fn end_non_space_from(s: Seq<char>, lo: int, j: int) -> int
    decreases j - lo,
{
    if j <= lo {
        lo
    } else if !is_white_space(s[j - 1]) {
        j
    } else {
        end_non_space_from(s, lo, j - 1)
    }
}

/// The text with leading and trailing white space removed (what `str::trim` returns).
pub open spec fn trim_text(s: Seq<char>) -> Seq<char> {
    let lo = first_non_space_from(s, 0);
    s.subrange(lo, end_non_space_from(s, lo, s.len() as int))
}

/// The text with leading and trailing white space removed.
pub fn trim(s: &str) -> (r: String)
    ensures
        r@ == trim_text(s@),
{
    let n = s.unicode_len();
    let mut lo: usize = 0;
    while lo < n && white_space(s.get_char(lo))
        invariant
            n == s@.len(),
            lo <= n,
            first_non_space_from(s@, 0) == first_non_space_from(s@, lo as int),
        decreases n - lo,
    {
        lo = lo + 1;
    }
    let mut hi: usize = n;
    while hi > lo && white_space(s.get_char(hi - 1))
        invariant
            n == s@.len(),
            lo <= hi <= n,
            first_non_space_from(s@, 0) == lo,
            end_non_space_from(s@, lo as int, n as int) == end_non_space_from(s@, lo as int, hi as int),
        decreases hi - lo,
    {
        hi = hi - 1;
    }
    String::from_str(s.substring_char(lo, hi))
}

/// The first position at or after `i` holding the character `c`, or -1.
pub open spec fn find_char_from(s: Seq<char>, c: char, i: int) -> int
    decreases s.len() - i,
{
    if i < 0 || i >= s.len() {
        -1
    } else if s[i] == c {
        i
    } else {
        find_char_from(s, c, i + 1)
    }
}

proof fn lemma_find_char_bound(s: Seq<char>, c: char, i: int)
    requires
        0 <= i,
    ensures
        find_char_from(s, c, i) == -1 || (i <= find_char_from(s, c, i) < s.len() && s[find_char_from(s, c, i)] == c),
    decreases s.len() - i,
{
    if i < s.len() && s[i] != c {
        lemma_find_char_bound(s, c, i + 1);
    }
}

/// The pieces of the text from `start` on between occurrences of `c`; with a
/// limit `n`, at most `n` pieces, the last holding the rest (what `str::split`
/// and, with a limit, `str::splitn` yield).
pub open spec fn split_from(s: Seq<char>, c: char, start: int, limit: Option<nat>) -> Seq<Seq<char>>
    decreases s.len() - start,
{
    let j = find_char_from(s, c, start);
    if (limit matches Some(n) && n <= 1) || j < 0 || start < 0 || j < start || j >= s.len() {
        seq![s.subrange(start, s.len() as int)]
    } else {
        seq![s.subrange(start, j)] + split_from(
            s,
            c,
            j + 1,
            match limit {
                Some(n) => Some((n - 1) as nat),
                None => None,
            },
        )
    }
}

/// The pieces of the text between occurrences of `c` (`str::split`).
pub open spec fn split_text(s: Seq<char>, c: char) -> Seq<Seq<char>> {
    split_from(s, c, 0, None)
}

/// The limit left after one piece is taken.
pub open spec fn limit_after(limit: Option<nat>) -> Option<nat> {
    match limit {
        Some(n) => Some((n - 1) as nat),
        None => None,
    }
}

/// Whether a limit allows more than one further piece.
fn room_for_more(left: Option<usize>) -> (b: bool)
    ensures
        b == !(left matches Some(n) && n <= 1),
{
    match left {
        Some(n) => n > 1,
        None => true,
    }
}

/// Splits the text at occurrences of `c`; with a limit `n` (at least 1),
/// into at most `n` pieces, the last holding the rest.
pub fn split_n(s: &str, c: char, limit: Option<usize>) -> (r: Vec<String>)
    requires
        limit matches Some(n) ==> n >= 1,
    ensures
        r@.map_values(|p: String| p@) == split_from(
            s@,
            c,
            0,
            match limit {
                Some(n) => Some(n as nat),
                None => None,
            },
        ),
{
    let ghost lim0: Option<nat> = match limit {
        Some(n) => Some(n as nat),
        None => None,
    };
    let len = s.unicode_len();
    let mut pieces: Vec<String> = Vec::new();
    let mut start: usize = 0;
    let mut i: usize = 0;
    let mut left: Option<usize> = limit;
    while i < len && room_for_more(left)
        invariant
            len == s@.len(),
            start <= i <= len,
            left matches Some(n) ==> n >= 1,
            find_char_from(s@, c, start as int) == find_char_from(s@, c, i as int),
            split_from(s@, c, 0, lim0) == pieces@.map_values(|p: String| p@) + split_from(
                s@,
                c,
                start as int,
                match left {
                    Some(n) => Some(n as nat),
                    None => None,
                },
            ),
        decreases len - i,
    {
        let ch = s.get_char(i);
        if ch == c {
            let ghost lim: Option<nat> = match left {
                Some(n) => Some(n as nat),
                None => None,
            };
            let piece = String::from_str(s.substring_char(start, i));
            let ghost before = pieces@.map_values(|p: String| p@);
            pieces.push(piece);
            left = match left {
                Some(n) => Some(n - 1),
                None => None,
            };
            proof {
                assert(pieces@.map_values(|p: String| p@) =~= before.push(s@.subrange(start as int, i as int)));
                assert(find_char_from(s@, c, i as int) == i);
                assert(split_from(s@, c, start as int, lim) == seq![s@.subrange(start as int, i as int)]
                    + split_from(s@, c, i + 1, limit_after(lim)));
                assert(limit_after(lim) == match left {
                    Some(n) => Some(n as nat),
                    None => None::<nat>,
                });
                assert(before.push(s@.subrange(start as int, i as int)) + split_from(s@, c, i + 1, limit_after(lim))
                    =~= before + (seq![s@.subrange(start as int, i as int)] + split_from(s@, c, i + 1, limit_after(lim))));
            }
            start = i + 1;
        }
        i = i + 1;
    }
    let ghost lim: Option<nat> = match left {
        Some(n) => Some(n as nat),
        None => None,
    };
    proof {
        if !(lim matches Some(n) && n <= 1) {
            assert(i == len);
            assert(find_char_from(s@, c, i as int) == -1);
        }
        lemma_find_char_bound(s@, c, start as int);
    }
    let last = String::from_str(s.substring_char(start, len));
    let ghost before = pieces@.map_values(|p: String| p@);
    pieces.push(last);
    proof {
        assert(pieces@.map_values(|p: String| p@) =~= before.push(s@.subrange(start as int, len as int)));
        assert(split_from(s@, c, start as int, lim) == seq![s@.subrange(start as int, len as int)]);
        assert(before.push(s@.subrange(start as int, len as int)) =~= before + seq![s@.subrange(start as int, len as int)]);
    }
    pieces
}

/// The key and the value of a `key=value` text: split at the first `=`.
pub fn split_key_value(pair: &str) -> (r: Option<(String, String)>)
    ensures
        find_char_from(pair@, '=', 0) == -1 ==> r is None,
        find_char_from(pair@, '=', 0) != -1 ==> (r matches Some(kv) && kv.0@ == pair@.take(
            find_char_from(pair@, '=', 0),
        ) && kv.1@ == pair@.skip(find_char_from(pair@, '=', 0) + 1)),
{
    let n = pair.unicode_len();
    let mut i: usize = 0;
    while i < n
        invariant
            n == pair@.len(),
            i <= n,
            find_char_from(pair@, '=', 0) == find_char_from(pair@, '=', i as int),
        decreases n - i,
    {
        if pair.get_char(i) == '=' {
            let key = String::from_str(pair.substring_char(0, i));
            let value = String::from_str(pair.substring_char(i + 1, n));
            proof {
                assert(pair@.subrange(0, i as int) =~= pair@.take(i as int));
                assert(pair@.subrange(i + 1, n as int) =~= pair@.skip(i + 1));
            }
            return Some((key, value));
        }
        i = i + 1;
    }
    None
}

/// The truth value of the words `true`, `1`, `yes` and `false`, `0`, `no`.
pub open spec fn bool_word(s: Seq<char>) -> Option<bool> {
    if s == "true"@ || s == "1"@ || s == "yes"@ {
        Some(true)
    } else if s == "false"@ || s == "0"@ || s == "no"@ {
        Some(false)
    } else {
        None
    }
}

/// What a raw field value is read as, before any number in it is read.
#[derive(Debug)]
pub enum FieldInput {
    /// A value read in full.
    Value(FieldValue),
    /// A number still to be read from this text.
    Number(String),
    /// A location whose coordinates are still to be read from these texts.
    Geo { lat: String, lng: String, label: Option<String> },
}

/// Why a raw field value cannot be read as its type.
#[derive(Debug)]
pub enum ValueProblem {
    /// Not one of `true`/`false`/`yes`/`no`/`1`/`0`.
    NotBool,
    /// Not a UUID.
    BadUuid(uuid::Error),
    /// Neither a full RFC 3339 date-time nor a `YYYY-MM-DD` date.
    BadDate,
    /// Fewer than two comma-separated parts for a location.
    TooFewCoordinates,
}

/// The format of a date-only timestamp.
pub open spec fn date_format() -> Seq<char> {
    "%Y-%m-%d"@
}

fn date_format_text() -> (s: &'static str)
    ensures
        s@ == date_format(),
{
    "%Y-%m-%d"
}

/// The timestamp a text denotes: a full RFC 3339 date-time, else the UTC
/// midnight of a `YYYY-MM-DD` date.
pub open spec fn timestamp_input(raw: Seq<char>) -> Option<Timestamp> {
    match utc_datetime_parse(raw) {
        Some(p) => Some(Timestamp { secs: p.0, nanos: p.1 }),
        None => match naive_date_parse(raw, date_format()) {
            Some(day) => Some(midnight_of_day(day)),
            None => None,
        },
    }
}

/// Whether the result of reading a raw value as the given type is what the type calls for.
pub open spec fn field_input_ok(raw: Seq<char>, ft: FieldType, r: Result<FieldInput, ValueProblem>) -> bool {
    match ft {
        FieldType::Text => r matches Ok(FieldInput::Value(FieldValue::Text(s))) && s@ == raw,
        FieldType::RichText => r matches Ok(FieldInput::Value(FieldValue::RichText(s))) && s@ == raw,
        FieldType::Enum => r matches Ok(FieldInput::Value(FieldValue::Enum(s))) && s@ == raw,
        FieldType::Email => r matches Ok(FieldInput::Value(FieldValue::Email(s))) && s@ == raw,
        FieldType::Url => r matches Ok(FieldInput::Value(FieldValue::Url(s))) && s@ == raw,
        FieldType::Number => r matches Ok(FieldInput::Number(s)) && s@ == raw,
        FieldType::Bool => match bool_word(raw) {
            Some(b) => r matches Ok(FieldInput::Value(FieldValue::Bool(v))) && v == b,
            None => r matches Err(ValueProblem::NotBool),
        },
        FieldType::MultiSelect => r matches Ok(FieldInput::Value(FieldValue::MultiSelect(items)))
            && texts(items@) == split_text(raw, ',').map_values(|p: Seq<char>| trim_text(p)),
        FieldType::Reference => match uuid_parse(raw) {
            Some(x) => r matches Ok(FieldInput::Value(FieldValue::Reference(id))) && id.0 == x,
            None => r matches Err(ValueProblem::BadUuid(_)),
        },
        FieldType::Timestamp => match timestamp_input(raw) {
            Some(t) => r matches Ok(FieldInput::Value(FieldValue::Timestamp(v))) && v == t,
            None => r matches Err(ValueProblem::BadDate),
        },
        FieldType::Geo => {
            let parts = split_from(raw, ',', 0, Some(3));
            if parts.len() < 2 {
                r matches Err(ValueProblem::TooFewCoordinates)
            } else {
                r matches Ok(FieldInput::Geo { lat, lng, label }) && lat@ == trim_text(parts[0]) && lng@ == trim_text(
                    parts[1],
                ) && (if parts.len() > 2 {
                    label matches Some(l) && l@ == trim_text(parts[2])
                } else {
                    label is None
                })
            }
        },
    }
}

/// The text that a plain text-like value holds.
pub open spec fn plain_text(v: FieldValue) -> Option<Seq<char>> {
    match v {
        FieldValue::Text(s) => Some(s@),
        FieldValue::RichText(s) => Some(s@),
        FieldValue::Enum(s) => Some(s@),
        FieldValue::Email(s) => Some(s@),
        FieldValue::Url(s) => Some(s@),
        _ => None,
    }
}

/// A value read for a field type is of the variant that type names, so the
/// type check of validation accepts it: for a field without options nothing
/// is found wrong with it. The text-like types (text, rich text, enum,
/// email, URL) always read successfully and keep the raw text as it is; a
/// number is handed on as its raw text.
pub proof fn lemma_read_value_fits_type(raw: Seq<char>, ft: FieldType, r: Result<FieldInput, ValueProblem>, fd: FieldDef)
    requires
        field_input_ok(raw, ft, r),
    ensures
        r matches Ok(FieldInput::Value(v)) ==> value_has_type(ft, v),
        fd.field_type == ft && fd.options@.len() == 0 ==> (r matches Ok(FieldInput::Value(v)) ==> field_problem(fd, v) is None),
        ft == FieldType::Text || ft == FieldType::RichText || ft == FieldType::Enum || ft == FieldType::Email || ft
            == FieldType::Url ==> (r matches Ok(FieldInput::Value(v)) && plain_text(v) == Some(raw)),
        ft == FieldType::Number ==> (r matches Ok(FieldInput::Number(t)) && t@ == raw),
        r matches Ok(FieldInput::Number(_)) ==> ft == FieldType::Number,
        r matches Ok(FieldInput::Geo { .. }) ==> ft == FieldType::Geo,
{
}

/// Reads a raw field value as the given type.
pub fn parse_field_value(raw: &str, ft: FieldType) -> (r: Result<FieldInput, ValueProblem>)
    ensures
        field_input_ok(raw@, ft, r),
        r matches Ok(FieldInput::Value(v)) ==> value_has_type(ft, v),
{
    match ft {
        FieldType::Text => Ok(FieldInput::Value(FieldValue::Text(String::from_str(raw)))),
        FieldType::RichText => Ok(FieldInput::Value(FieldValue::RichText(String::from_str(raw)))),
        FieldType::Enum => Ok(FieldInput::Value(FieldValue::Enum(String::from_str(raw)))),
        FieldType::Email => Ok(FieldInput::Value(FieldValue::Email(String::from_str(raw)))),
        FieldType::Url => Ok(FieldInput::Value(FieldValue::Url(String::from_str(raw)))),
        FieldType::Number => Ok(FieldInput::Number(String::from_str(raw))),
        FieldType::Bool => {
            if text_eq(raw, "true") || text_eq(raw, "1") || text_eq(raw, "yes") {
                Ok(FieldInput::Value(FieldValue::Bool(true)))
            } else if text_eq(raw, "false") || text_eq(raw, "0") || text_eq(raw, "no") {
                Ok(FieldInput::Value(FieldValue::Bool(false)))
            } else {
                Err(ValueProblem::NotBool)
            }
        },
        FieldType::MultiSelect => {
            let pieces = split_n(raw, ',', None);
            let m = pieces.len();
            let mut items: Vec<String> = Vec::new();
            let mut i: usize = 0;
            while i < m
                invariant
                    m == pieces@.len(),
                    i <= m,
                    items@.len() == i,
                    forall|j: int| 0 <= j < i ==> #[trigger] items@[j]@ == trim_text(pieces@[j]@),
                decreases m - i,
            {
                items.push(trim(pieces[i].as_str()));
                i = i + 1;
            }
            proof {
                let ps = pieces@.map_values(|p: String| p@);
                assert(texts(items@) =~= ps.map_values(|p: Seq<char>| trim_text(p)));
            }
            Ok(FieldInput::Value(FieldValue::MultiSelect(items)))
        },
        FieldType::Reference => match NodeId::parse(raw) {
            Ok(id) => Ok(FieldInput::Value(FieldValue::Reference(id))),
            Err(e) => Err(ValueProblem::BadUuid(e)),
        },
        FieldType::Timestamp => match Timestamp::parse_rfc3339(raw) {
            Some(t) => Ok(FieldInput::Value(FieldValue::Timestamp(t))),
            None => match Timestamp::parse_date_midnight(raw, date_format_text()) {
                Some(t) => Ok(FieldInput::Value(FieldValue::Timestamp(t))),
                None => Err(ValueProblem::BadDate),
            },
        },
        FieldType::Geo => {
            let parts = split_n(raw, ',', Some(3));
            proof {
                assert(parts@.len() == split_from(raw@, ',', 0, Some(3)).len());
            }
            if parts.len() < 2 {
                Err(ValueProblem::TooFewCoordinates)
            } else {
                proof {
                    assert(parts@[0]@ == split_from(raw@, ',', 0, Some(3))[0]);
                    assert(parts@[1]@ == split_from(raw@, ',', 0, Some(3))[1]);
                }
                let lat = trim(parts[0].as_str());
                let lng = trim(parts[1].as_str());
                let label = if parts.len() > 2 {
                    proof {
                        assert(parts@[2]@ == split_from(raw@, ',', 0, Some(3))[2]);
                    }
                    Some(trim(parts[2].as_str()))
                } else {
                    None
                };
                Ok(FieldInput::Geo { lat, lng, label })
            }
        },
    }
}

/// Why a `key=value` field argument cannot be read.
#[derive(Debug)]
pub enum FieldInputError {
    /// The argument holds no `=`.
    NotKeyValue,
    /// The value cannot be read as the field's type.
    BadValue { key: String, value: String, problem: ValueProblem },
}

/// The type a field is read as: the schema's type for it, else text.
pub open spec fn input_type(def: Option<SupertagDef>, key: Seq<char>) -> FieldType {
    match def {
        Some(d) => match schema_lookup(d.fields@, key) {
            Some(fd) => fd.field_type,
            None => FieldType::Text,
        },
        None => FieldType::Text,
    }
}

/// Reads a `key=value` field argument (giving back the key, the value text
/// and what it was read as), typed by the supertag's schema (a
/// field the schema does not name is text).
pub fn parse_field_pair(pair: &str, def: Option<&SupertagDef>) -> (r: Result<(String, String, FieldInput), FieldInputError>)
    ensures
        find_char_from(pair@, '=', 0) == -1 ==> r matches Err(FieldInputError::NotKeyValue),
        find_char_from(pair@, '=', 0) != -1 ==> {
            let i = find_char_from(pair@, '=', 0);
            let key = pair@.take(i);
            let value = pair@.skip(i + 1);
            let ft = input_type(
                match def {
                    Some(d) => Some(*d),
                    None => None,
                },
                key,
            );
            match r {
                Ok(kv) => kv.0@ == key && kv.1@ == value && field_input_ok(value, ft, Ok(kv.2)),
                Err(FieldInputError::BadValue { key: k, value: v, problem }) => k@ == key && v@ == value
                    && field_input_ok(value, ft, Err(problem)),
                Err(FieldInputError::NotKeyValue) => false,
            }
        },
{
    match split_key_value(pair) {
        None => Err(FieldInputError::NotKeyValue),
        Some((key, value)) => {
            let ft = match def {
                Some(d) => match lookup_schema(&d.fields, key.as_str()) {
                    Some(fd) => fd.field_type,
                    None => FieldType::Text,
                },
                None => FieldType::Text,
            };
            match parse_field_value(value.as_str(), ft) {
                Ok(input) => Ok((key, value, input)),
                Err(problem) => Err(FieldInputError::BadValue { key, value, problem }),
            }
        },
    }
}

/// The text shortened to at most `max` bytes, with `...` appended when
/// anything was cut off.
pub fn truncate(s: &str, max: usize) -> (r: String)
    requires
        encode_utf8(s@).len() > max ==> vstd::utf8::is_char_boundary(encode_utf8(s@), max as int),
    ensures
        encode_utf8(s@).len() <= max ==> r@ == s@,
        encode_utf8(s@).len() > max ==> exists|h: Seq<char>|
            #[trigger] encode_utf8(h) == encode_utf8(s@).subrange(0, max as int) && r@ == h + "..."@,
{
    let bytes = s.as_bytes();
    if bytes.len() <= max {
        String::from_str(s)
    } else {
        let (head, _tail) = s.split_at(max);
        let mut r = String::from_str(head);
        r.append("...");
        assert(encode_utf8(head@) == encode_utf8(s@).subrange(0, max as int) && r@ == head@ + "..."@);
        r
    }
}

} // verus!
