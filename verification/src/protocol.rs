//! The course that the handling of one join takes.
//!
//! Handling a join means waiting for the outside world three times at most:
//! for the invite listing, for the ledger, and for the removal of a member
//! whose join could not be credited. Between the waits stand decisions.
//! This module holds the decisions as a transition function over plain
//! values, and what holds of every course they allow.

use vstd::prelude::*;

verus! {

/// Why a join could not be credited to an invite.
#[derive(Clone, Copy, Debug, PartialEq, Eq, Structural)]
pub enum Failure {
    /// The cache holds nothing for the guild.
    UnknownGuild,
    /// The invite listing could not be fetched.
    FetchFailed,
    /// No invite, or more than one, fits the join.
    AttributionAmbiguous,
    /// The ledger did not take the record.
    PersistFailed,
}

/// How the handling of a join ended.
#[derive(Clone, Copy, Debug, PartialEq, Eq, Structural)]
pub enum Outcome {
    /// The member is a bot; bots do not use invites.
    Ignored,
    /// The join is credited and the ledger holds the record.
    Attributed,
    /// The join could not be credited and the member was removed.
    Removed(Failure),
    /// The join could not be credited, and removing the member failed too.
    RemovalFailed(Failure),
}

/// Where the handling of a join stands.
#[derive(Clone, Copy, Debug, PartialEq, Eq, Structural)]
pub enum Phase {
    AwaitingFetch,
    AwaitingPersist,
    AwaitingRemoval(Failure),
    Done(Outcome),
}

/// What the caller is to do next.
#[derive(Clone, Copy, Debug, PartialEq, Eq, Structural)]
pub enum Action {
    /// Nothing.
    Nothing,
    /// Fetch the guild's invite listing from the platform.
    FetchInvites,
    /// Write the attribution record to the ledger.
    Persist,
    /// Remove the member from the guild.
    RemoveMember(Failure),
}

/// What came back from the outside world, as far as the course depends on
/// it.
#[derive(Clone, Copy, Debug, PartialEq, Eq, Structural)]
pub enum Signal {
    /// The listing arrived; `credited` says whether it singles out an invite.
    Fetched { credited: bool },
    FetchFailed,
    Persisted,
    PersistFailed,
    Removed,
    RemovalFailed,
}

/// Where handling starts, and with which action: a bot is ignored, a member
/// of a guild unknown to the cache is removed, and for everyone else the
/// listing is fetched.
pub open spec fn start(bot: bool, guild_known: bool) -> (Phase, Action) {
    if bot {
        (Phase::Done(Outcome::Ignored), Action::Nothing)
    } else if !guild_known {
        (Phase::AwaitingRemoval(Failure::UnknownGuild), Action::RemoveMember(Failure::UnknownGuild))
    } else {
        (Phase::AwaitingFetch, Action::FetchInvites)
    }
}

/// The decision: from where handling stands and what came back, to where it
/// stands next and what is to be done. A signal that the phase does not
/// wait for changes nothing and asks for nothing.
pub open spec fn step(phase: Phase, signal: Signal) -> (Phase, Action) {
    match (phase, signal) {
        (Phase::AwaitingFetch, Signal::Fetched { credited: true }) => (Phase::AwaitingPersist, Action::Persist),
        (Phase::AwaitingFetch, Signal::Fetched { credited: false }) => (
            Phase::AwaitingRemoval(Failure::AttributionAmbiguous),
            Action::RemoveMember(Failure::AttributionAmbiguous),
        ),
        (Phase::AwaitingFetch, Signal::FetchFailed) => (
            Phase::AwaitingRemoval(Failure::FetchFailed),
            Action::RemoveMember(Failure::FetchFailed),
        ),
        (Phase::AwaitingPersist, Signal::Persisted) => (Phase::Done(Outcome::Attributed), Action::Nothing),
        (Phase::AwaitingPersist, Signal::PersistFailed) => (
            Phase::AwaitingRemoval(Failure::PersistFailed),
            Action::RemoveMember(Failure::PersistFailed),
        ),
        (Phase::AwaitingRemoval(failure), Signal::Removed) => (
            Phase::Done(Outcome::Removed(failure)),
            Action::Nothing,
        ),
        (Phase::AwaitingRemoval(failure), Signal::RemovalFailed) => (
            Phase::Done(Outcome::RemovalFailed(failure)),
            Action::Nothing,
        ),
        _ => (phase, Action::Nothing),
    }
}

/// The actions asked for, in order, when the signals arrive one after the
/// other from `phase` on.
pub open spec fn run(phase: Phase, signals: Seq<Signal>) -> Seq<Action>
    decreases signals.len(),
{
    if signals.len() == 0 {
        Seq::empty()
    } else {
        seq![step(phase, signals[0]).1] + run(step(phase, signals[0]).0, signals.drop_first())
    }
}

/// How many of the actions are fetches of the listing.
pub open spec fn fetches(actions: Seq<Action>) -> nat
    decreases actions.len(),
{
    if actions.len() == 0 {
        0
    } else {
        fetches(actions.drop_first()) + if actions[0] is FetchInvites {
            1nat
        } else {
            0nat
        }
    }
}

/// How many of the actions are writes to the ledger.
pub open spec fn persists(actions: Seq<Action>) -> nat
    decreases actions.len(),
{
    if actions.len() == 0 {
        0
    } else {
        persists(actions.drop_first()) + if actions[0] is Persist {
            1nat
        } else {
            0nat
        }
    }
}

/// How many of the actions are removals of the member.
pub open spec fn removals(actions: Seq<Action>) -> nat
    decreases actions.len(),
{
    if actions.len() == 0 {
        0
    } else {
        removals(actions.drop_first()) + if actions[0] is RemoveMember {
            1nat
        } else {
            0nat
        }
    }
}

proof fn lemma_counts_cons(first: Action, rest: Seq<Action>)
    ensures
        fetches(seq![first] + rest) == fetches(rest) + if first is FetchInvites {
            1nat
        } else {
            0nat
        },
        persists(seq![first] + rest) == persists(rest) + if first is Persist {
            1nat
        } else {
            0nat
        },
        removals(seq![first] + rest) == removals(rest) + if first is RemoveMember {
            1nat
        } else {
            0nat
        },
{
    let all = seq![first] + rest;
    assert(all.drop_first() =~= rest);
    assert(all[0] == first);
}

/// Once handling is done, nothing more is asked for, whatever arrives.
pub proof fn lemma_done_is_final(outcome: Outcome, signals: Seq<Signal>)
    ensures
        fetches(run(Phase::Done(outcome), signals)) == 0,
        persists(run(Phase::Done(outcome), signals)) == 0,
        removals(run(Phase::Done(outcome), signals)) == 0,
    decreases signals.len(),
{
    if signals.len() > 0 {
        lemma_done_is_final(outcome, signals.drop_first());
        lemma_counts_cons(Action::Nothing, run(Phase::Done(outcome), signals.drop_first()));
    }
}

/// While the removal of the member is awaited, nothing more is asked for,
/// whatever arrives: no second removal, no write, no fetch.
pub proof fn lemma_removal_is_last(failure: Failure, signals: Seq<Signal>)
    ensures
        fetches(run(Phase::AwaitingRemoval(failure), signals)) == 0,
        persists(run(Phase::AwaitingRemoval(failure), signals)) == 0,
        removals(run(Phase::AwaitingRemoval(failure), signals)) == 0,
    decreases signals.len(),
{
    if signals.len() > 0 {
        let phase = Phase::AwaitingRemoval(failure);
        let next = step(phase, signals[0]).0;
        match next {
            Phase::Done(outcome) => lemma_done_is_final(outcome, signals.drop_first()),
            _ => lemma_removal_is_last(failure, signals.drop_first()),
        }
        lemma_counts_cons(Action::Nothing, run(next, signals.drop_first()));
    }
}

/// A join by a bot asks for nothing, ever: no fetch, no write to the ledger,
/// no removal, whatever arrives afterwards.
pub proof fn lemma_bot_join_is_ignored(guild_known: bool, signals: Seq<Signal>)
    ensures
        start(true, guild_known) == (Phase::Done(Outcome::Ignored), Action::Nothing),
        fetches(run(start(true, guild_known).0, signals)) == 0,
        persists(run(start(true, guild_known).0, signals)) == 0,
        removals(run(start(true, guild_known).0, signals)) == 0,
{
    lemma_done_is_final(Outcome::Ignored, signals);
}

/// When the listing cannot be fetched, the member is removed exactly once
/// and nothing is written to the ledger, whatever arrives afterwards.
pub proof fn lemma_fetch_failure_escalates(rest: Seq<Signal>)
    ensures
        step(Phase::AwaitingFetch, Signal::FetchFailed).1 == Action::RemoveMember(Failure::FetchFailed),
        removals(run(Phase::AwaitingFetch, seq![Signal::FetchFailed] + rest)) == 1,
        persists(run(Phase::AwaitingFetch, seq![Signal::FetchFailed] + rest)) == 0,
        fetches(run(Phase::AwaitingFetch, seq![Signal::FetchFailed] + rest)) == 0,
{
    let signals = seq![Signal::FetchFailed] + rest;
    assert(signals.drop_first() =~= rest);
    assert(signals[0] == Signal::FetchFailed);
    lemma_removal_is_last(Failure::FetchFailed, rest);
    lemma_counts_cons(
        Action::RemoveMember(Failure::FetchFailed),
        run(Phase::AwaitingRemoval(Failure::FetchFailed), rest),
    );
}

/// When the listing singles out no invite, the member is removed exactly
/// once and nothing is written to the ledger, whatever arrives afterwards.
pub proof fn lemma_ambiguity_escalates(rest: Seq<Signal>)
    ensures
        step(Phase::AwaitingFetch, Signal::Fetched { credited: false }).1 == Action::RemoveMember(
            Failure::AttributionAmbiguous,
        ),
        removals(run(Phase::AwaitingFetch, seq![Signal::Fetched { credited: false }] + rest)) == 1,
        persists(run(Phase::AwaitingFetch, seq![Signal::Fetched { credited: false }] + rest)) == 0,
        fetches(run(Phase::AwaitingFetch, seq![Signal::Fetched { credited: false }] + rest)) == 0,
{
    let signals = seq![Signal::Fetched { credited: false }] + rest;
    assert(signals.drop_first() =~= rest);
    assert(signals[0] == Signal::Fetched { credited: false });
    lemma_removal_is_last(Failure::AttributionAmbiguous, rest);
    lemma_counts_cons(
        Action::RemoveMember(Failure::AttributionAmbiguous),
        run(Phase::AwaitingRemoval(Failure::AttributionAmbiguous), rest),
    );
}

/// A member of a guild that the cache does not hold is removed exactly
/// once; nothing is fetched and nothing is written to the ledger.
pub proof fn lemma_unknown_guild_escalates(signals: Seq<Signal>)
    ensures
        start(false, false).1 == Action::RemoveMember(Failure::UnknownGuild),
        removals(run(start(false, false).0, signals)) == 0,
        persists(run(start(false, false).0, signals)) == 0,
        fetches(run(start(false, false).0, signals)) == 0,
{
    lemma_removal_is_last(Failure::UnknownGuild, signals);
}

} // verus!
