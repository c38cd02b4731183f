//! Invites as the cache holds them, and the wire-level values they are built
//! from.
//!
//! Identifiers of guilds and users are the platform's 64-bit numbers. Points
//! in time are whole seconds since the Unix epoch.

use vstd::prelude::*;

verus! {

/// What the cache knows about one invite of one guild. The invite's code is
/// the key under which the value is stored.
#[derive(Clone, Copy, Debug, Hash, PartialEq, Eq, Structural)]
pub struct Invite {
    /// When the invite was created.
    pub created_at: i64,
    /// The point in time until which the invite is valid; `None` if it never
    /// expires.
    pub max_age: Option<i64>,
    /// How often the invite can be used; `None` if there is no limit.
    pub max_uses: Option<u64>,
    pub temporary: bool,
    /// How often the invite has been used so far.
    pub uses: u64,
    pub guild: u64,
    pub inviter: u64,
}

/// The expiry of an invite created at `created_at` that lives for `max_age`
/// seconds. An age of zero is the platform's way of saying "never expires".
pub open spec fn expiry(created_at: int, max_age: int) -> Option<int> {
    if max_age == 0 {
        None
    } else {
        Some(created_at + max_age)
    }
}

/// The use limit behind the platform's `max_uses`. A limit of zero is the
/// platform's way of saying "unlimited".
pub open spec fn use_limit(max_uses: u64) -> Option<u64> {
    if max_uses == 0 {
        None
    } else {
        Some(max_uses)
    }
}

/// Whether an invite created at `created_at` with a lifetime of `max_age`
/// seconds has an expiry that a timestamp can hold.
pub open spec fn expiry_representable(created_at: int, max_age: int) -> bool {
    created_at + max_age <= i64::MAX
}

/// The cached form of an invite with the given wire-level properties.
pub open spec fn cached_invite(
    created_at: i64,
    max_age: u64,
    max_uses: u64,
    temporary: bool,
    uses: u64,
    guild: u64,
    inviter: u64,
) -> Invite {
    Invite {
        created_at,
        max_age: match expiry(created_at as int, max_age as int) {
            Some(t) => Some(t as i64),
            None => None,
        },
        max_uses: use_limit(max_uses),
        temporary,
        uses,
        guild,
        inviter,
    }
}

/// An invite as the platform's invite listing reports it.
#[derive(Clone, Debug)]
pub struct FetchedInvite {
    pub code: String,
    pub created_at: i64,
    /// Lifetime in seconds; zero if the invite never expires.
    pub max_age: u64,
    /// Use limit; zero if the invite can be used without limit.
    pub max_uses: u64,
    pub temporary: bool,
    pub uses: u64,
    pub guild: u64,
    pub inviter: u64,
}

/// The notification that an invite was created.
#[derive(Clone, Debug)]
pub struct InviteCreated {
    pub code: String,
    pub guild: u64,
    pub inviter: u64,
    /// Lifetime in seconds; zero if the invite never expires.
    pub max_age: u64,
    /// Use limit; zero if the invite can be used without limit.
    pub max_uses: u64,
    pub temporary: bool,
}

/// The notification that an invite was deleted.
#[derive(Clone, Debug)]
pub struct InviteDeleted {
    pub code: String,
    pub guild: u64,
}

impl FetchedInvite {
    /// The cached form of this invite. Meaningful where the expiry is
    /// representable.
    pub open spec fn invite(&self) -> Invite {
        cached_invite(
            self.created_at,
            self.max_age,
            self.max_uses,
            self.temporary,
            self.uses,
            self.guild,
            self.inviter,
        )
    }

    /// Whether a timestamp can hold the invite's expiry.
    pub open spec fn representable(&self) -> bool {
        expiry_representable(self.created_at as int, self.max_age as int)
    }
}

impl InviteCreated {
    /// The cached form of an invite whose creation was announced at
    /// `received_at`. The notification's own use count is not trusted: a new
    /// invite starts at zero uses.
    pub open spec fn invite(&self, received_at: i64) -> Invite {
        cached_invite(
            received_at,
            self.max_age,
            self.max_uses,
            self.temporary,
            0,
            self.guild,
            self.inviter,
        )
    }

    /// Whether a timestamp can hold the expiry of an invite whose creation
    /// was announced at `received_at`.
    pub open spec fn representable(&self, received_at: i64) -> bool {
        expiry_representable(received_at as int, self.max_age as int)
    }
}

/// The absolute expiry for a lifetime in seconds, `None` for the sentinel
/// zero. The outer `None` says that the expiry is not representable.
fn expiry_of(created_at: i64, max_age: u64) -> (r: Option<Option<i64>>)
    ensures
        r is Some <==> expiry_representable(created_at as int, max_age as int),
        r matches Some(e) ==> match expiry(created_at as int, max_age as int) {
            Some(t) => e == Some(t as i64),
            None => e is None,
        },
{
    if max_age == 0 {
        Some(None)
    } else {
        let sum: i128 = created_at as i128 + max_age as i128;
        if sum <= i64::MAX as i128 {
            Some(Some(sum as i64))
        } else {
            None
        }
    }
}

fn use_limit_of(max_uses: u64) -> (r: Option<u64>)
    ensures
        r == use_limit(max_uses),
{
    if max_uses == 0 {
        None
    } else {
        Some(max_uses)
    }
}

impl Invite {
    /// Builds the cached form of a listed invite, with the sentinel zeros of
    /// `max_age` and `max_uses` turned into `None`. Returns `None` exactly
    /// when the expiry lies beyond what a timestamp can hold.
    pub fn from_fetched(v: &FetchedInvite) -> (r: Option<Invite>)
        ensures
            r is Some <==> v.representable(),
            r matches Some(invite) ==> invite == v.invite(),
    {
        match expiry_of(v.created_at, v.max_age) {
            Some(max_age) => Some(
                Invite {
                    created_at: v.created_at,
                    max_age,
                    max_uses: use_limit_of(v.max_uses),
                    temporary: v.temporary,
                    uses: v.uses,
                    guild: v.guild,
                    inviter: v.inviter,
                },
            ),
            None => None,
        }
    }

    /// Builds the cached form of a newly announced invite, created at
    /// `received_at` and not yet used. Returns `None` exactly when the expiry
    /// lies beyond what a timestamp can hold.
    pub fn from_created(v: &InviteCreated, received_at: i64) -> (r: Option<Invite>)
        ensures
            r is Some <==> v.representable(received_at),
            r matches Some(invite) ==> invite == v.invite(received_at),
    {
        match expiry_of(received_at, v.max_age) {
            Some(max_age) => Some(
                Invite {
                    created_at: received_at,
                    max_age,
                    max_uses: use_limit_of(v.max_uses),
                    temporary: v.temporary,
                    uses: 0,
                    guild: v.guild,
                    inviter: v.inviter,
                },
            ),
            None => None,
        }
    }
}

} // verus!
