use vstd::prelude::*;

verus! {

/// Declares `uuid::Error`, the error that UUID parsing reports.
#[verifier::external_type_specification]
#[verifier::external_body]
pub struct ExUuidError(uuid::Error);

/// A node identifier: the 128 bits of a UUID, read big-endian.
///
/// Fresh identifiers are version-7 UUIDs, which sort by creation time.
#[derive(Debug, Clone, Copy, PartialEq, Eq, Hash, PartialOrd, Ord, Structural)]
pub struct NodeId(pub u128);

/// The version nibble of a UUID's 128 bits.
pub open spec fn uuid_version(bits: u128) -> u128 {
    (bits >> 76u128) & 0xfu128
}

/// The two variant bits of a UUID's 128 bits.
pub open spec fn uuid_variant(bits: u128) -> u128 {
    (bits >> 62u128) & 0x3u128
}

/// Lower-case hexadecimal digit of a value below 16.
pub open spec fn hex_digit(n: u128) -> char {
    if n < 10 {
        (48 + n) as char
    } else {
        (87 + n) as char
    }
}

/// The `j`-th hexadecimal digit of the bits, most significant first.
pub open spec fn nibble(bits: u128, j: int) -> u128 {
    (bits >> ((124 - 4 * j) as u128)) & 0xfu128
}

/// Whether position `p` of the hyphenated form holds a hyphen.
pub open spec fn is_hyphen_position(p: int) -> bool {
    p == 8 || p == 13 || p == 18 || p == 23
}

/// Which hexadecimal digit is written at position `p` of the hyphenated form.
pub open spec fn digit_index(p: int) -> int {
    if p < 8 {
        p
    } else if p < 13 {
        p - 1
    } else if p < 18 {
        p - 2
    } else if p < 23 {
        p - 3
    } else {
        p - 4
    }
}

/// The hyphenated lower-case text of a UUID, e.g. `67e55044-10b1-426f-9247-bb680e5fe0c8`.
pub open spec fn uuid_text(bits: u128) -> Seq<char> {
    Seq::new(
        36,
        |p: int|
            if is_hyphen_position(p) {
                '-'
            } else {
                hex_digit(nibble(bits, digit_index(p)))
            },
    )
}

/// What `uuid::Uuid::parse_str` makes of a text: the UUID's bits, or nothing
/// where it reports an error. It accepts several layouts (simple, hyphenated,
/// braced, URN).
pub uninterp spec fn uuid_parse(s: Seq<char>) -> Option<u128>;

/// Calls `uuid::Uuid::now_v7`. Claims only what holds of every outcome: the
/// result carries version 7 and the RFC 4122 variant. The time and random
/// bits are left unsaid, and so is the ordering between successive calls.
#[verifier::external_body]
fn uuid_now_v7() -> (bits: u128)
    ensures
        uuid_version(bits) == 7,
        uuid_variant(bits) == 2,
{
    uuid::Uuid::now_v7().as_u128()
}

/// Calls `Display` of `uuid::Uuid` (its hyphenated lower-case form) on the
/// UUID with the given bits.
#[verifier::external_body]
fn uuid_to_text(bits: u128) -> (s: String)
    ensures
        s@ == uuid_text(bits),
{
    uuid::Uuid::from_u128(bits).to_string()
}

/// Calls `uuid::Uuid::parse_str`. The result is the named parse of the text;
/// the hyphenated form that `Display` writes is always read back to the same
/// bits.
#[verifier::external_body]
fn uuid_parse_str(s: &str) -> (r: Result<u128, uuid::Error>)
    ensures
        r is Ok <==> uuid_parse(s@) is Some,
        r matches Ok(v) ==> uuid_parse(s@) == Some(v),
        r is Ok || !(exists|x: u128| s@ == uuid_text(x)),
        r matches Ok(v) ==> (forall|x: u128| s@ == uuid_text(x) ==> v == x),
{
    uuid::Uuid::parse_str(s).map(|u| u.as_u128())
}

proof fn lemma_version_7_not_nil(bits: u128)
    requires
        uuid_version(bits) == 7,
    ensures
        bits != 0,
{
    assert(((bits >> 76u128) & 0xfu128) == 7 ==> bits != 0) by (bit_vector);
}

impl NodeId {
    /// Creates a fresh identifier from a version-7 UUID (time-ordered).
    pub fn new() -> (id: Self)
        ensures
            uuid_version(id.0) == 7,
            uuid_variant(id.0) == 2,
            id.0 != 0,
    {
        let bits = uuid_now_v7();
        proof {
            lemma_version_7_not_nil(bits);
        }
        NodeId(bits)
    }

    /// The nil (all-zeros) identifier, used as a sentinel.
    pub fn nil() -> (id: Self)
        ensures
            id.0 == 0,
    {
        NodeId(0)
    }

    /// Wraps the 128 bits of an existing UUID.
    pub fn from_uuid(uuid: u128) -> (id: Self)
        ensures
            id.0 == uuid,
    {
        NodeId(uuid)
    }

    /// Whether this is the nil identifier.
    pub fn is_nil(&self) -> (b: bool)
        ensures
            b == (self.0 == 0),
    {
        self.0 == 0
    }

    /// The 128 bits of the UUID.
    pub fn as_uuid(&self) -> (bits: u128)
        ensures
            bits == self.0,
    {
        self.0
    }

    /// The hyphenated lower-case text of the identifier.
    pub fn to_string(&self) -> (s: String)
        ensures
            s@ == uuid_text(self.0),
    {
        uuid_to_text(self.0)
    }

    /// Reads an identifier from any UUID text layout; the text written by
    /// `to_string` is always read back to the same identifier.
    pub fn parse(s: &str) -> (r: Result<NodeId, uuid::Error>)
        ensures
            r is Ok <==> uuid_parse(s@) is Some,
            r matches Ok(id) ==> uuid_parse(s@) == Some(id.0),
            forall|x: u128| s@ == uuid_text(x) ==> r == Ok::<NodeId, uuid::Error>(NodeId(x)),
    {
        match uuid_parse_str(s) {
            Ok(bits) => Ok(NodeId(bits)),
            Err(e) => Err(e),
        }
    }
}

impl Default for NodeId {
    fn default() -> (id: Self)
        ensures
            uuid_version(id.0) == 7,
            id.0 != 0,
    {
        NodeId::new()
    }
}

impl std::str::FromStr for NodeId {
    type Err = uuid::Error;

    /// Reads an identifier as `parse` does.
    fn from_str(s: &str) -> (r: Result<Self, Self::Err>)
        ensures
            r is Ok <==> uuid_parse(s@) is Some,
            r matches Ok(id) ==> uuid_parse(s@) == Some(id.0),
            forall|x: u128| s@ == uuid_text(x) ==> r == Ok::<NodeId, uuid::Error>(NodeId(x)),
    {
        NodeId::parse(s)
    }
}

} // verus!
