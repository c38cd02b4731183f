//! Handling one join, from the notification to the ledger.
//!
//! The tracker never waits. Each of its two functions looks at what it is
//! given, changes the cache where the algorithm says so, and answers with
//! the next thing for the caller to do. The caller does it, outside any
//! lock on the cache, and comes back with what happened.

use vstd::prelude::*;
use vstd::string::StringExecFns;
use crate::attribution::{
    attribute,
    credited,
    credited_invite,
    exhausted_by,
    incremented_by,
    is_incremented,
    is_missing,
    lemma_decides_credited,
    Attribution,
};
use crate::invite::Invite;
use crate::ledger::{AttributionRecord, Credit};
use crate::protocol::{start, step, Action, Failure, Outcome, Phase, Signal};
use crate::snapshot::{collected, GuildInvites, InviteEntry};
use crate::store::{with_use_count, InviteStore};

verus! {

/// The member who joined.
#[derive(Clone, Copy, Debug, PartialEq, Eq, Structural)]
pub struct Member {
    pub user: u64,
    pub guild: u64,
    /// Whether the account is flagged as a bot.
    pub bot: bool,
}

/// What came back from the outside world.
#[derive(Debug)]
pub enum JoinEvent {
    /// The guild's invite listing, or the text of the error that kept it
    /// from arriving.
    Fetched(Result<Vec<InviteEntry>, String>),
    /// The ledger took the record, or did not.
    Persisted { ok: bool },
    /// The member was removed, or could not be.
    Removed { ok: bool },
}

/// What a join event means for the course of handling, given the invites
/// cached before the join.
pub open spec fn signal_of(before: Map<Seq<char>, Invite>, event: JoinEvent) -> Signal {
    match event {
        JoinEvent::Fetched(Ok(listing)) => Signal::Fetched {
            credited: credited(before, collected(listing@)) is Some,
        },
        JoinEvent::Fetched(Err(_)) => Signal::FetchFailed,
        JoinEvent::Persisted { ok } => if ok {
            Signal::Persisted
        } else {
            Signal::PersistFailed
        },
        JoinEvent::Removed { ok } => if ok {
            Signal::Removed
        } else {
            Signal::RemovalFailed
        },
    }
}

/// The cache after a listing was compared with the invites cached before
/// the join: where the join is credited to an invite whose use count went
/// up, the cached count follows the listing. An invite that was used up
/// stays cached until its deletion is announced.
pub open spec fn reconciled(
    cache: Map<u64, Map<Seq<char>, Invite>>,
    guild: u64,
    before: Map<Seq<char>, Invite>,
    after: Map<Seq<char>, Invite>,
) -> Map<u64, Map<Seq<char>, Invite>> {
    match credited(before, after) {
        Some(code) => if incremented_by(before, after, code) {
            with_use_count(cache, guild, code, after[code].uses)
        } else {
            cache
        },
        None => cache,
    }
}

/// The cache after an event arrived in a phase. Only a listing that is
/// being waited for can change it.
pub open spec fn cache_after(
    phase: Phase,
    guild: u64,
    before: Map<Seq<char>, Invite>,
    cache: Map<u64, Map<Seq<char>, Invite>>,
    event: JoinEvent,
) -> Map<u64, Map<Seq<char>, Invite>> {
    match (phase, event) {
        (Phase::AwaitingFetch, JoinEvent::Fetched(Ok(listing))) => reconciled(
            cache,
            guild,
            before,
            collected(listing@),
        ),
        _ => cache,
    }
}

/// The credit for a join that comparing `before` with `after` credits to
/// the invite `code`.
pub open spec fn credit_for(
    before: Map<Seq<char>, Invite>,
    after: Map<Seq<char>, Invite>,
    code: Seq<char>,
    joined_at: i64,
) -> Credit {
    Credit { inviter: credited_invite(before, after, code).inviter, invite: code, used_at: joined_at }
}

/// The reason given when a member is removed. `detail` is the text of the
/// error that kept the listing from arriving, and is used for that failure
/// only.
pub open spec fn reason_text(failure: Failure, detail: Seq<char>) -> Seq<char> {
    match failure {
        Failure::UnknownGuild => "no invites are known for this guild"@,
        Failure::FetchFailed => "Cannot fetch invites for comparison: "@ + detail,
        Failure::AttributionAmbiguous => "failed to associate an invite with this member"@,
        Failure::PersistFailed => "error inserting user in database"@,
    }
}

/// The reason to give when removing a member after `failure`.
pub fn reason(failure: Failure, detail: &str) -> (text: String)
    ensures
        text@ == reason_text(failure, detail@),
{
    match failure {
        Failure::UnknownGuild => "no invites are known for this guild".to_owned(),
        Failure::FetchFailed => {
            let mut text = "Cannot fetch invites for comparison: ".to_owned();
            text.append(detail);
            text
        },
        Failure::AttributionAmbiguous => "failed to associate an invite with this member".to_owned(),
        Failure::PersistFailed => "error inserting user in database".to_owned(),
    }
}

/// The handling of one join.
#[derive(Debug)]
pub struct InviteTracker {
    member: Member,
    joined_at: i64,
    phase: Phase,
    before: GuildInvites,
    record: Option<AttributionRecord>,
    detail: String,
}

impl InviteTracker {
    /// The member whose join is handled.
    pub closed spec fn spec_member(&self) -> Member {
        self.member
    }

    /// When the join was announced.
    pub closed spec fn spec_joined_at(&self) -> i64 {
        self.joined_at
    }

    /// Where handling stands.
    pub closed spec fn spec_phase(&self) -> Phase {
        self.phase
    }

    /// The guild's invites as the cache held them when the join was
    /// announced.
    pub closed spec fn before(&self) -> Map<Seq<char>, Invite> {
        self.before@
    }

    /// The record for the ledger, once the join is credited.
    pub closed spec fn spec_record(&self) -> Option<AttributionRecord> {
        self.record
    }

    /// The text of the error that kept the listing from arriving; empty if
    /// there was no such error.
    pub closed spec fn detail(&self) -> Seq<char> {
        self.detail@
    }

    /// The copy of the guild's cached invites is well formed.
    pub closed spec fn wf(&self) -> bool {
        self.before.wf()
    }

    /// The member whose join is handled.
    #[verifier::when_used_as_spec(spec_member)]
    pub fn member(&self) -> (r: Member)
        ensures
            r == self.spec_member(),
    {
        self.member
    }

    /// When the join was announced.
    #[verifier::when_used_as_spec(spec_joined_at)]
    pub fn joined_at(&self) -> (r: i64)
        ensures
            r == self.spec_joined_at(),
    {
        self.joined_at
    }

    /// Where handling stands.
    #[verifier::when_used_as_spec(spec_phase)]
    pub fn phase(&self) -> (r: Phase)
        ensures
            r == self.spec_phase(),
    {
        self.phase
    }

    /// How handling ended, once it has.
    pub fn outcome(&self) -> (r: Option<Outcome>)
        ensures
            r == (match self.phase() {
                Phase::Done(outcome) => Some(outcome),
                _ => None,
            }),
    {
        match self.phase {
            Phase::Done(outcome) => Some(outcome),
            _ => None,
        }
    }

    /// The record for the ledger, once the join is credited.
    pub fn record(&self) -> (r: &Option<AttributionRecord>)
        ensures
            *r == self.spec_record(),
    {
        &self.record
    }

    /// The reason to give for the removal that is being waited for, or
    /// `None` in any other phase.
    pub fn removal_reason(&self) -> (r: Option<String>)
        ensures
            match self.phase() {
                Phase::AwaitingRemoval(failure) => r matches Some(text) && text@ == reason_text(
                    failure,
                    self.detail(),
                ),
                _ => r is None,
            },
    {
        match self.phase {
            Phase::AwaitingRemoval(failure) => Some(reason(failure, self.detail.as_str())),
            _ => None,
        }
    }

    /// A member joined at `joined_at`. A bot is ignored before the cache is
    /// looked at. For anyone else the guild's cached invites are copied, to
    /// be compared with the listing that the caller is asked to fetch; if
    /// the cache holds nothing for the guild, the caller is asked to remove
    /// the member instead.
    pub fn on_join(store: &InviteStore, member: Member, joined_at: i64) -> (r: (InviteTracker, Action))
        requires
            store.wf(),
        ensures
            r.0.wf(),
            r.0.member() == member,
            r.0.joined_at() == joined_at,
            (r.0.phase(), r.1) == start(member.bot, store@.dom().contains(member.guild)),
            r.0.phase() == Phase::AwaitingFetch ==> r.0.before() == store@[member.guild],
            r.0.spec_record() is None,
            r.0.detail() == Seq::<char>::empty(),
    {
        if member.bot {
            let tracker = InviteTracker {
                member,
                joined_at,
                phase: Phase::Done(Outcome::Ignored),
                before: GuildInvites::new(),
                record: None,
                detail: String::new(),
            };
            return (tracker, Action::Nothing);
        }
        match store.get_snapshot(member.guild) {
            Some(before) => {
                let tracker = InviteTracker {
                    member,
                    joined_at,
                    phase: Phase::AwaitingFetch,
                    before,
                    record: None,
                    detail: String::new(),
                };
                (tracker, Action::FetchInvites)
            },
            None => {
                let tracker = InviteTracker {
                    member,
                    joined_at,
                    phase: Phase::AwaitingRemoval(Failure::UnknownGuild),
                    before: GuildInvites::new(),
                    record: None,
                    detail: String::new(),
                };
                (tracker, Action::RemoveMember(Failure::UnknownGuild))
            },
        }
    }

    /// Something came back. The phase moves as the course of handling says,
    /// and the answer is the next thing to do.
    ///
    /// When the awaited listing arrives, it is compared with the invites
    /// cached before the join. If that credits the join to one invite, the
    /// record for the ledger is made up, and where the invite's use count
    /// went up, the cached count is set to the listed one.
    pub fn on_event(&mut self, store: &mut InviteStore, event: JoinEvent) -> (action: Action)
        requires
            old(self).wf(),
            old(store).wf(),
        ensures
            final(self).wf(),
            final(store).wf(),
            final(self).member() == old(self).member(),
            final(self).joined_at() == old(self).joined_at(),
            final(self).before() == old(self).before(),
            (final(self).phase(), action) == step(old(self).phase(), signal_of(old(self).before(), event)),
            final(store)@ == cache_after(
                old(self).phase(),
                old(self).member().guild,
                old(self).before(),
                old(store)@,
                event,
            ),
            match (old(self).phase(), event) {
                (Phase::AwaitingFetch, JoinEvent::Fetched(Ok(listing))) => match credited(
                    old(self).before(),
                    collected(listing@),
                ) {
                    Some(code) => final(self).spec_record() matches Some(record) && record.key() == (
                        old(self).member().user,
                        old(self).member().guild,
                    ) && record.credit() == credit_for(
                        old(self).before(),
                        collected(listing@),
                        code,
                        old(self).joined_at(),
                    ),
                    None => final(self).spec_record() == old(self).spec_record(),
                },
                _ => final(self).spec_record() == old(self).spec_record(),
            },
            match (old(self).phase(), event) {
                (Phase::AwaitingFetch, JoinEvent::Fetched(Err(text))) => final(self).detail() == text@,
                _ => final(self).detail() == old(self).detail(),
            },
    {
        match self.phase {
            Phase::AwaitingFetch => match event {
                JoinEvent::Fetched(Ok(listing)) => {
                    let after = GuildInvites::from_entries(&listing);
                    let found = attribute(&self.before, &after);
                    proof {
                        lemma_decides_credited(found, self.before@, after@);
                    }
                    match found {
                        Attribution::Exhausted { code, invite } => {
                            self.record = Some(
                                AttributionRecord {
                                    user: self.member.user,
                                    guild: self.member.guild,
                                    inviter: invite.inviter,
                                    invite: code,
                                    used_at: self.joined_at,
                                },
                            );
                            self.phase = Phase::AwaitingPersist;
                            Action::Persist
                        },
                        Attribution::Incremented { code, invite } => {
                            store.update_uses(self.member.guild, &code, invite.uses);
                            self.record = Some(
                                AttributionRecord {
                                    user: self.member.user,
                                    guild: self.member.guild,
                                    inviter: invite.inviter,
                                    invite: code,
                                    used_at: self.joined_at,
                                },
                            );
                            self.phase = Phase::AwaitingPersist;
                            Action::Persist
                        },
                        Attribution::Ambiguous => {
                            self.phase = Phase::AwaitingRemoval(Failure::AttributionAmbiguous);
                            Action::RemoveMember(Failure::AttributionAmbiguous)
                        },
                    }
                },
                JoinEvent::Fetched(Err(text)) => {
                    self.detail = text;
                    self.phase = Phase::AwaitingRemoval(Failure::FetchFailed);
                    Action::RemoveMember(Failure::FetchFailed)
                },
                _ => Action::Nothing,
            },
            Phase::AwaitingPersist => match event {
                JoinEvent::Persisted { ok } => {
                    if ok {
                        self.phase = Phase::Done(Outcome::Attributed);
                        Action::Nothing
                    } else {
                        self.phase = Phase::AwaitingRemoval(Failure::PersistFailed);
                        Action::RemoveMember(Failure::PersistFailed)
                    }
                },
                _ => Action::Nothing,
            },
            Phase::AwaitingRemoval(failure) => match event {
                JoinEvent::Removed { ok } => {
                    if ok {
                        self.phase = Phase::Done(Outcome::Removed(failure));
                    } else {
                        self.phase = Phase::Done(Outcome::RemovalFailed(failure));
                    }
                    Action::Nothing
                },
                _ => Action::Nothing,
            },
            Phase::Done(_) => Action::Nothing,
        }
    }
}

/// Only a listing that is being waited for can change the cache: in every
/// other phase, and for every other event, the cache stays as it is. So a
/// join by a bot, which is done at once, never changes it.
pub proof fn lemma_cache_changes_only_on_awaited_listing(
    phase: Phase,
    guild: u64,
    before: Map<Seq<char>, Invite>,
    cache: Map<u64, Map<Seq<char>, Invite>>,
    event: JoinEvent,
)
    ensures
        phase != Phase::AwaitingFetch ==> cache_after(phase, guild, before, cache, event) == cache,
        !(event matches JoinEvent::Fetched(Ok(_))) ==> cache_after(phase, guild, before, cache, event) == cache,
        cache_after(start(true, cache.dom().contains(guild)).0, guild, before, cache, event) == cache,
{
}

/// A listing that singles out no invite leaves the cache as it is.
pub proof fn lemma_ambiguity_keeps_cache(
    cache: Map<u64, Map<Seq<char>, Invite>>,
    guild: u64,
    before: Map<Seq<char>, Invite>,
    after: Map<Seq<char>, Invite>,
)
    requires
        credited(before, after) is None,
    ensures
        reconciled(cache, guild, before, after) == cache,
{
}

/// Where the join is credited to an invite whose use count went up, the
/// cache afterwards holds the listed count for it, and everything else that
/// the cache held is as it was.
pub proof fn lemma_increment_reaches_cache(
    cache: Map<u64, Map<Seq<char>, Invite>>,
    guild: u64,
    before: Map<Seq<char>, Invite>,
    after: Map<Seq<char>, Invite>,
    code: Seq<char>,
)
    requires
        incremented_by(before, after, code),
        cache.dom().contains(guild),
        cache[guild].dom().contains(code),
    ensures
        credited(before, after) == Some(code),
        reconciled(cache, guild, before, after)[guild][code] == (Invite {
            uses: after[code].uses,
            ..cache[guild][code]
        }),
        reconciled(cache, guild, before, after)[guild].remove(code) == cache[guild].remove(code),
        reconciled(cache, guild, before, after).remove(guild) == cache.remove(guild),
{
    assert forall|other: Seq<char>| !exhausted_by(before, after, other) by {}
    let chosen = choose|c: Seq<char>| incremented_by(before, after, c);
    assert(is_incremented(before, after, chosen));
    assert(chosen == code);
    let result = reconciled(cache, guild, before, after);
    assert(result[guild].remove(code) =~= cache[guild].remove(code));
    assert(result.remove(guild) =~= cache.remove(guild));
}

/// Where the join is credited to an invite that was used up, the cache
/// stays as it is: the invite leaves it when its deletion is announced.
pub proof fn lemma_exhaustion_keeps_cache(
    cache: Map<u64, Map<Seq<char>, Invite>>,
    guild: u64,
    before: Map<Seq<char>, Invite>,
    after: Map<Seq<char>, Invite>,
    code: Seq<char>,
)
    requires
        exhausted_by(before, after, code),
    ensures
        credited(before, after) == Some(code),
        reconciled(cache, guild, before, after) == cache,
{
    let chosen = choose|c: Seq<char>| exhausted_by(before, after, c);
    assert(is_missing(before, after, chosen));
    assert(chosen == code);
}

} // verus!
