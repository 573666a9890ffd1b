//! Permission tiers and the current permission state.
use vstd::prelude::*;
use vstd::string::*;

verus! {

/// Permission tier required to act on a console entry.
///
/// Tiers are totally ordered: `User < Admin < Server`. A caller may act on an
/// entry only if its own tier is at least the entry's.
#[derive(Debug, Clone, Copy, PartialEq, Eq, Structural, PartialOrd, Ord, Hash)]
pub enum PermissionLevel {
    /// Basic user: general commands and variables.
    User,
    /// Administrator: may enable unsafe mode and configure.
    Admin,
    /// Local or trusted context with unrestricted access.
    Server,
}

impl PermissionLevel {
    /// Position of the tier in the total order.
    pub open spec fn rank(self) -> nat {
        match self {
            PermissionLevel::User => 0,
            PermissionLevel::Admin => 1,
            PermissionLevel::Server => 2,
        }
    }

    /// The display name of the tier.
    pub open spec fn name_spec(self) -> Seq<char> {
        match self {
            PermissionLevel::User => seq!['U', 's', 'e', 'r'],
            PermissionLevel::Admin => seq!['A', 'd', 'm', 'i', 'n'],
            PermissionLevel::Server => seq!['S', 'e', 'r', 'v', 'e', 'r'],
        }
    }

    /// Numeric rank of the tier, `User` lowest.
    pub fn level(&self) -> (r: u8)
        ensures
            r as nat == self.rank(),
    {
        match self {
            PermissionLevel::User => 0,
            PermissionLevel::Admin => 1,
            PermissionLevel::Server => 2,
        }
    }

    /// Whether this tier is at least `other`.
    pub fn at_least(&self, other: PermissionLevel) -> (r: bool)
        ensures
            r == (self.rank() >= other.rank()),
    {
        self.level() >= other.level()
    }

    /// The display name of the tier.
    pub fn name(&self) -> (r: &'static str)
        ensures
            r@ == self.name_spec(),
    {
        proof {
            reveal_strlit("User");
            reveal_strlit("Admin");
            reveal_strlit("Server");
        }
        match self {
            PermissionLevel::User => "User",
            PermissionLevel::Admin => "Admin",
            PermissionLevel::Server => "Server",
        }
    }
}

impl Default for PermissionLevel {
    fn default() -> (r: Self)
        ensures
            r == PermissionLevel::User,
    {
        PermissionLevel::User
    }
}

/// The permission tier the console currently acts with.
#[derive(Debug, Clone, Copy, PartialEq, Eq, Structural)]
pub struct ConsolePermissions {
    /// The current tier.
    pub current_level: PermissionLevel,
}

impl Default for ConsolePermissions {
    /// Unrestricted (`Server`), for local and single-player use.
    fn default() -> (r: Self)
        ensures
            r.current_level == PermissionLevel::Server,
    {
        ConsolePermissions { current_level: PermissionLevel::Server }
    }
}

impl ConsolePermissions {
    /// Permissions acting at tier `level`.
    pub fn new(level: PermissionLevel) -> (r: Self)
        ensures
            r.current_level == level,
    {
        ConsolePermissions { current_level: level }
    }

    /// Whether the current tier is at least `required`.
    pub fn has_permission(&self, required: PermissionLevel) -> (r: bool)
        ensures
            r == (self.current_level.rank() >= required.rank()),
    {
        self.current_level.at_least(required)
    }
}

} // verus!
