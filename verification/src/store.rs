//! The invite cache: for every guild that is visible, the invites it is
//! known to have.
//!
//! The cache is a plain value. Whoever shares it between tasks guards it
//! with a lock and holds that lock for the length of one call; every call
//! leaves the cache in a complete state.

use std::collections::HashMap;
use vstd::prelude::*;
use crate::invite::{Invite, InviteCreated, InviteDeleted};
use crate::snapshot::{collected, with_uses, GuildInvites, InviteEntry};

verus! {

broadcast use vstd::std_specs::hash::group_hash_axioms;

/// Why a notification left the cache unchanged.
#[derive(Clone, Copy, Debug, PartialEq, Eq, Structural)]
pub enum IngestError {
    /// The notification names a guild that the cache does not hold.
    UnknownGuild,
    /// The notification names an invite that the guild's cache does not hold.
    UnknownInvite,
    /// The expiry of the announced invite lies beyond what a timestamp can
    /// hold.
    ExpiryOutOfRange,
    /// The guild's invites could not be fetched from the platform.
    FetchFailed,
}

/// The cached invites of all guilds: a mapping from guild to that guild's
/// mapping from invite code to invite.
#[derive(Debug)]
pub struct InviteStore {
    guilds: HashMap<u64, GuildInvites>,
}

impl View for InviteStore {
    type V = Map<u64, Map<Seq<char>, Invite>>;

    open spec fn view(&self) -> Map<u64, Map<Seq<char>, Invite>> {
        Map::new(|guild: u64| self.guilds().dom().contains(guild), |guild: u64| self.guilds()[guild]@)
    }
}

/// The cache after `invite` was stored under `code` in a guild it holds.
pub open spec fn with_invite(
    cache: Map<u64, Map<Seq<char>, Invite>>,
    guild: u64,
    code: Seq<char>,
    invite: Invite,
) -> Map<u64, Map<Seq<char>, Invite>> {
    if cache.dom().contains(guild) {
        cache.insert(guild, cache[guild].insert(code, invite))
    } else {
        cache
    }
}

/// The cache after the invite `code` was dropped from `guild`. A guild or a
/// code that the cache does not hold leaves it as it is.
pub open spec fn without_invite(cache: Map<u64, Map<Seq<char>, Invite>>, guild: u64, code: Seq<char>) -> Map<
    u64,
    Map<Seq<char>, Invite>,
> {
    if cache.dom().contains(guild) {
        cache.insert(guild, cache[guild].remove(code))
    } else {
        cache
    }
}

/// The cache after the use count of `code` in `guild` was set to `uses`. A
/// guild or a code that the cache does not hold leaves it as it is.
pub open spec fn with_use_count(
    cache: Map<u64, Map<Seq<char>, Invite>>,
    guild: u64,
    code: Seq<char>,
    uses: u64,
) -> Map<u64, Map<Seq<char>, Invite>> {
    if cache.dom().contains(guild) {
        cache.insert(guild, with_uses(cache[guild], code, uses))
    } else {
        cache
    }
}

impl InviteStore {
    /// The guilds with their invites as they are stored.
    pub closed spec fn guilds(&self) -> Map<u64, GuildInvites> {
        self.guilds@
    }

    /// Every guild's invites are well formed.
    pub open spec fn wf(&self) -> bool {
        forall|guild: u64| #[trigger] self.guilds().dom().contains(guild) ==> self.guilds()[guild].wf()
    }

    /// A cache that holds no guild.
    pub fn new() -> (r: InviteStore)
        ensures
            r.wf(),
            r@ == Map::<u64, Map<Seq<char>, Invite>>::empty(),
    {
        let r = InviteStore { guilds: HashMap::new() };
        assert(r@ =~= Map::<u64, Map<Seq<char>, Invite>>::empty());
        r
    }

    /// Whether the cache holds the guild.
    pub fn has_guild(&self, guild: u64) -> (r: bool)
        ensures
            r == self@.dom().contains(guild),
    {
        self.guilds.contains_key(&guild)
    }

    /// A consistent copy of the guild's invites, or `None` if the cache does
    /// not hold the guild.
    pub fn get_snapshot(&self, guild: u64) -> (r: Option<GuildInvites>)
        requires
            self.wf(),
        ensures
            r is Some <==> self@.dom().contains(guild),
            r matches Some(invites) ==> invites.wf() && invites@ == self@[guild],
    {
        match self.guilds.get(&guild) {
            Some(invites) => {
                assert(self.guilds().dom().contains(guild));
                Some(invites.snapshot())
            },
            None => None,
        }
    }

    /// Replaces everything the cache holds for the guild by `invites`.
    pub fn replace_guild(&mut self, guild: u64, invites: GuildInvites)
        requires
            old(self).wf(),
            invites.wf(),
        ensures
            final(self).wf(),
            final(self)@ == old(self)@.insert(guild, invites@),
    {
        self.guilds.insert(guild, invites);
        assert forall|g: u64| #[trigger] self.guilds().dom().contains(g) implies self.guilds()[g].wf() by {
            if g != guild {
                assert(old(self).guilds().dom().contains(g));
            }
        }
        assert(self@ =~= old(self)@.insert(guild, invites@));
    }

    /// Drops everything the cache holds for the guild.
    pub fn remove_guild(&mut self, guild: u64)
        requires
            old(self).wf(),
        ensures
            final(self).wf(),
            final(self)@ == old(self)@.remove(guild),
    {
        self.guilds.remove(&guild);
        assert forall|g: u64| #[trigger] self.guilds().dom().contains(g) implies self.guilds()[g].wf() by {
            assert(old(self).guilds().dom().contains(g));
        }
        assert(self@ =~= old(self)@.remove(guild));
    }

    /// Stores `invite` under `code` in the guild, replacing what was stored
    /// there. Returns whether the cache holds the guild; if not, nothing
    /// changes.
    pub fn insert(&mut self, guild: u64, code: String, invite: Invite) -> (known: bool)
        requires
            old(self).wf(),
        ensures
            final(self).wf(),
            known == old(self)@.dom().contains(guild),
            final(self)@ == with_invite(old(self)@, guild, code@, invite),
    {
        match self.guilds.remove(&guild) {
            Some(mut invites) => {
                assert(old(self).guilds().dom().contains(guild));
                invites.insert(code, invite);
                self.guilds.insert(guild, invites);
                assert forall|g: u64| #[trigger] self.guilds().dom().contains(g) implies self.guilds()[g].wf() by {
                    if g != guild {
                        assert(old(self).guilds().dom().contains(g));
                    }
                }
                assert(self@ =~= with_invite(old(self)@, guild, code@, invite));
                true
            },
            None => {
                assert(self.guilds() =~= old(self).guilds());
                assert(self@ =~= old(self)@);
                false
            },
        }
    }

    /// Drops the invite `code` from the guild. Returns whether there was such
    /// an invite; an unknown guild or code changes nothing.
    pub fn remove(&mut self, guild: u64, code: &String) -> (removed: bool)
        requires
            old(self).wf(),
        ensures
            final(self).wf(),
            removed == (old(self)@.dom().contains(guild) && old(self)@[guild].dom().contains(code@)),
            final(self)@ == without_invite(old(self)@, guild, code@),
    {
        match self.guilds.remove(&guild) {
            Some(mut invites) => {
                assert(old(self).guilds().dom().contains(guild));
                let removed = invites.remove(code);
                self.guilds.insert(guild, invites);
                assert forall|g: u64| #[trigger] self.guilds().dom().contains(g) implies self.guilds()[g].wf() by {
                    if g != guild {
                        assert(old(self).guilds().dom().contains(g));
                    }
                }
                assert(self@ =~= without_invite(old(self)@, guild, code@));
                removed
            },
            None => {
                assert(self.guilds() =~= old(self).guilds());
                assert(self@ =~= old(self)@);
                false
            },
        }
    }

    /// Sets the use count of the invite `code` of the guild. Returns whether
    /// there was such an invite; an unknown guild or code changes nothing.
    pub fn update_uses(&mut self, guild: u64, code: &String, uses: u64) -> (updated: bool)
        requires
            old(self).wf(),
        ensures
            final(self).wf(),
            updated == (old(self)@.dom().contains(guild) && old(self)@[guild].dom().contains(code@)),
            final(self)@ == with_use_count(old(self)@, guild, code@, uses),
    {
        match self.guilds.remove(&guild) {
            Some(mut invites) => {
                assert(old(self).guilds().dom().contains(guild));
                let updated = invites.update_uses(code, uses);
                self.guilds.insert(guild, invites);
                assert forall|g: u64| #[trigger] self.guilds().dom().contains(g) implies self.guilds()[g].wf() by {
                    if g != guild {
                        assert(old(self).guilds().dom().contains(g));
                    }
                }
                assert(self@ =~= with_use_count(old(self)@, guild, code@, uses));
                updated
            },
            None => {
                assert(self.guilds() =~= old(self).guilds());
                assert(self@ =~= old(self)@);
                false
            },
        }
    }
}

/// What the cache holds after the notification that an invite was created.
pub open spec fn after_invite_created(
    cache: Map<u64, Map<Seq<char>, Invite>>,
    event: InviteCreated,
    received_at: i64,
) -> Map<u64, Map<Seq<char>, Invite>> {
    if event.representable(received_at) {
        with_invite(cache, event.guild, event.code@, event.invite(received_at))
    } else {
        cache
    }
}

/// Applying the platform's lifecycle notifications to the cache.
impl InviteStore {
    /// The guild became visible: its invites, as fetched from the platform,
    /// replace whatever the cache held for it. Where the fetch failed, the
    /// cache stays as it is and the error says so. On success the number of
    /// listed invites is returned.
    pub fn invite_guild_created(&mut self, guild: u64, fetched: &Result<Vec<InviteEntry>, String>) -> (r:
        Result<usize, IngestError>)
        requires
            old(self).wf(),
        ensures
            final(self).wf(),
            match *fetched {
                Ok(listing) => r == Ok::<usize, IngestError>(listing@.len() as usize) && final(self)@ == old(
                    self,
                )@.insert(guild, collected(listing@)),
                Err(_) => r == Err::<usize, IngestError>(IngestError::FetchFailed) && final(self)@ == old(
                    self,
                )@,
            },
    {
        match fetched {
            Ok(listing) => {
                let invites = GuildInvites::from_entries(listing);
                self.replace_guild(guild, invites);
                Ok(listing.len())
            },
            Err(_) => Err(IngestError::FetchFailed),
        }
    }

    /// The guild is gone: everything cached for it is dropped.
    pub fn invite_guild_deleted(&mut self, guild: u64)
        requires
            old(self).wf(),
        ensures
            final(self).wf(),
            final(self)@ == old(self)@.remove(guild),
    {
        self.remove_guild(guild);
    }

    /// An invite was created at `received_at`: it is cached with zero uses,
    /// under its code, in its guild. A guild that the cache does not hold, or
    /// an expiry that no timestamp can hold, leaves the cache as it is.
    pub fn invite_created(&mut self, event: &InviteCreated, received_at: i64) -> (r: Result<(), IngestError>)
        requires
            old(self).wf(),
        ensures
            final(self).wf(),
            final(self)@ == after_invite_created(old(self)@, *event, received_at),
            r is Ok <==> old(self)@.dom().contains(event.guild) && event.representable(received_at),
            r == Err::<(), IngestError>(IngestError::UnknownGuild) <==> !old(self)@.dom().contains(event.guild),
            r == Err::<(), IngestError>(IngestError::ExpiryOutOfRange) <==> old(self)@.dom().contains(
                event.guild,
            ) && !event.representable(received_at),
    {
        if !self.has_guild(event.guild) {
            return Err(IngestError::UnknownGuild);
        }
        match Invite::from_created(event, received_at) {
            Some(invite) => {
                self.insert(event.guild, event.code.clone(), invite);
                Ok(())
            },
            None => Err(IngestError::ExpiryOutOfRange),
        }
    }

    /// An invite was deleted: it is dropped from its guild. A guild or a
    /// code that the cache does not hold leaves the cache as it is, and the
    /// error says which of the two was unknown.
    pub fn invite_deleted(&mut self, event: &InviteDeleted) -> (r: Result<(), IngestError>)
        requires
            old(self).wf(),
        ensures
            final(self).wf(),
            final(self)@ == without_invite(old(self)@, event.guild, event.code@),
            r is Ok <==> old(self)@.dom().contains(event.guild) && old(self)@[event.guild].dom().contains(
                event.code@,
            ),
            r == Err::<(), IngestError>(IngestError::UnknownGuild) <==> !old(self)@.dom().contains(event.guild),
            r == Err::<(), IngestError>(IngestError::UnknownInvite) <==> old(self)@.dom().contains(event.guild)
                && !old(self)@[event.guild].dom().contains(event.code@),
    {
        if !self.has_guild(event.guild) {
            assert(without_invite(self@, event.guild, event.code@) == self@);
            return Err(IngestError::UnknownGuild);
        }
        if self.remove(event.guild, &event.code) {
            Ok(())
        } else {
            Err(IngestError::UnknownInvite)
        }
    }
}

/// An invite that is created and then deleted leaves no entry: whatever the
/// cache held before, it holds nothing for the code afterwards, and where
/// the guild had no invite with that code before (an empty guild, say), the
/// cache is what it was.
pub proof fn lemma_create_then_delete(
    cache: Map<u64, Map<Seq<char>, Invite>>,
    created: InviteCreated,
    received_at: i64,
    deleted: InviteDeleted,
)
    requires
        deleted.guild == created.guild,
        deleted.code@ == created.code@,
    ensures
        ({
            let after = without_invite(
                after_invite_created(cache, created, received_at),
                deleted.guild,
                deleted.code@,
            );
            &&& after.dom() == cache.dom()
            &&& after.dom().contains(deleted.guild) ==> !after[deleted.guild].dom().contains(deleted.code@)
            &&& after == without_invite(cache, deleted.guild, deleted.code@)
            &&& cache.dom().contains(deleted.guild) && !cache[deleted.guild].dom().contains(deleted.code@)
                ==> after == cache
        }),
{
    let guild = deleted.guild;
    let code = deleted.code@;
    let mid = after_invite_created(cache, created, received_at);
    let after = without_invite(mid, guild, code);
    if cache.dom().contains(guild) {
        assert(after[guild] =~= cache[guild].remove(code));
        assert(after =~= without_invite(cache, guild, code));
        if !cache[guild].dom().contains(code) {
            assert(cache[guild].remove(code) =~= cache[guild]);
            assert(after =~= cache);
        }
    }
    assert(after.dom() =~= cache.dom());
}

/// Deleting an invite twice is the same as deleting it once: the second
/// notification finds nothing to do.
pub proof fn lemma_delete_is_idempotent(cache: Map<u64, Map<Seq<char>, Invite>>, guild: u64, code: Seq<char>)
    ensures
        without_invite(without_invite(cache, guild, code), guild, code) == without_invite(cache, guild, code),
{
    let once = without_invite(cache, guild, code);
    if cache.dom().contains(guild) {
        assert(once[guild].remove(code) =~= once[guild]);
        assert(without_invite(once, guild, code) =~= once);
    }
}

} // verus!
