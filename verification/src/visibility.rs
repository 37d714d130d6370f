use vstd::prelude::*;

verus! {

/// Controls who can see a node.
///
/// The default is `Private`: only the node's creator sees it.
#[derive(Debug, Clone, Copy, PartialEq, Eq, Hash, Structural)]
pub enum Visibility {
    /// Only the owner can see the node.
    Private,
    /// Shared with specific collaborators.
    Shared,
    /// Visible to everyone.
    Public,
}

/// The lower-case name under which a visibility is written.
pub open spec fn visibility_name(v: Visibility) -> Seq<char> {
    match v {
        Visibility::Private => "private"@,
        Visibility::Shared => "shared"@,
        Visibility::Public => "public"@,
    }
}

impl Default for Visibility {
    fn default() -> (v: Self)
        ensures
            v == Visibility::Private,
    {
        Visibility::Private
    }
}

impl Visibility {
    /// The static lower-case name of the variant.
    pub fn as_str(&self) -> (s: &'static str)
        ensures
            s@ == visibility_name(*self),
    {
        match self {
            Visibility::Private => "private",
            Visibility::Shared => "shared",
            Visibility::Public => "public",
        }
    }

    /// The text form of the visibility, the same as `as_str`.
    pub fn to_string(&self) -> (s: String)
        ensures
            s@ == visibility_name(*self),
    {
        String::from_str(self.as_str())
    }
}

} // verus!
