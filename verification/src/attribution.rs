//! Which invite did a join consume?
//!
//! The platform does not say. What can be observed is the guild's invites
//! before the join (the cached state) and after it (a fresh listing). An
//! invite whose last use was consumed has disappeared; any other invite has
//! its use count raised by one. Where exactly one invite shows one of these
//! two changes, the join is credited to it; everything else is ambiguous.

use vstd::prelude::*;
use crate::invite::Invite;
use crate::snapshot::{index_of, lemma_entry_in_map, GuildInvites};

verus! {

/// `code` was cached before the join and is no longer listed after it.
pub open spec fn is_missing(
    before: Map<Seq<char>, Invite>,
    after: Map<Seq<char>, Invite>,
    code: Seq<char>,
) -> bool {
    before.dom().contains(code) && !after.dom().contains(code)
}

/// `code` is known before and after the join, and its use count went up by
/// exactly one.
pub open spec fn is_incremented(
    before: Map<Seq<char>, Invite>,
    after: Map<Seq<char>, Invite>,
    code: Seq<char>,
) -> bool {
    before.dom().contains(code) && after.dom().contains(code) && after[code].uses == before[code].uses + 1
}

/// The listing holds one invite less than the cache, and `code` is the one
/// cached invite that is no longer listed.
pub open spec fn exhausted_by(
    before: Map<Seq<char>, Invite>,
    after: Map<Seq<char>, Invite>,
    code: Seq<char>,
) -> bool {
    &&& after.dom().len() + 1 == before.dom().len()
    &&& is_missing(before, after, code)
    &&& forall|other: Seq<char>| #[trigger] is_missing(before, after, other) ==> other == code
}

/// The listing holds as many invites as the cache, and `code` is the one
/// invite whose use count went up by one.
pub open spec fn incremented_by(
    before: Map<Seq<char>, Invite>,
    after: Map<Seq<char>, Invite>,
    code: Seq<char>,
) -> bool {
    &&& after.dom().len() == before.dom().len()
    &&& is_incremented(before, after, code)
    &&& forall|other: Seq<char>| #[trigger] is_incremented(before, after, other) ==> other == code
}

/// No invite can be credited with the join.
pub open spec fn ambiguous(before: Map<Seq<char>, Invite>, after: Map<Seq<char>, Invite>) -> bool {
    &&& forall|code: Seq<char>| !(#[trigger] exhausted_by(before, after, code))
    &&& forall|code: Seq<char>| !(#[trigger] incremented_by(before, after, code))
}

/// The outcome of comparing the cached invites with a fresh listing.
#[derive(Debug)]
pub enum Attribution {
    /// The invite was used up by the join and is no longer listed. `invite`
    /// is what the cache held for it.
    Exhausted { code: String, invite: Invite },
    /// The invite's use count went up by one. `invite` is what the listing
    /// reports for it.
    Incremented { code: String, invite: Invite },
    /// No invite, or more than one, fits the join.
    Ambiguous,
}

impl Attribution {
    /// Whether this is the outcome that comparing `before` with `after` must
    /// give.
    pub open spec fn decides(&self, before: Map<Seq<char>, Invite>, after: Map<Seq<char>, Invite>) -> bool {
        match *self {
            Attribution::Exhausted { code, invite } => exhausted_by(before, after, code@) && invite
                == before[code@],
            Attribution::Incremented { code, invite } => incremented_by(before, after, code@) && invite
                == after[code@],
            Attribution::Ambiguous => ambiguous(before, after),
        }
    }
}

/// The code of the invite that the join is credited to, if comparing
/// `before` with `after` singles one out.
pub open spec fn credited(before: Map<Seq<char>, Invite>, after: Map<Seq<char>, Invite>) -> Option<Seq<char>> {
    if exists|code: Seq<char>| exhausted_by(before, after, code) {
        Some(choose|code: Seq<char>| exhausted_by(before, after, code))
    } else if exists|code: Seq<char>| incremented_by(before, after, code) {
        Some(choose|code: Seq<char>| incremented_by(before, after, code))
    } else {
        None
    }
}

/// What is known of the credited invite: for an invite that was used up,
/// what the cache held; otherwise what the listing reports.
pub open spec fn credited_invite(
    before: Map<Seq<char>, Invite>,
    after: Map<Seq<char>, Invite>,
    code: Seq<char>,
) -> Invite {
    if after.dom().contains(code) {
        after[code]
    } else {
        before[code]
    }
}

/// There is one outcome per comparison: an outcome that decides it names
/// the credited invite, and is ambiguous exactly when there is none.
pub proof fn lemma_decides_credited(r: Attribution, before: Map<Seq<char>, Invite>, after: Map<Seq<char>, Invite>)
    requires
        r.decides(before, after),
    ensures
        match r {
            Attribution::Exhausted { code, invite } => credited(before, after) == Some(code@) && invite
                == credited_invite(before, after, code@) && !incremented_by(before, after, code@),
            Attribution::Incremented { code, invite } => credited(before, after) == Some(code@) && invite
                == credited_invite(before, after, code@) && incremented_by(before, after, code@),
            Attribution::Ambiguous => credited(before, after) is None,
        },
{
    match r {
        Attribution::Exhausted { code, invite } => {
            assert(exhausted_by(before, after, code@));
            let chosen = choose|c: Seq<char>| exhausted_by(before, after, c);
            assert(exhausted_by(before, after, chosen));
            assert(is_missing(before, after, chosen));
            assert(chosen == code@);
        },
        Attribution::Incremented { code, invite } => {
            assert forall|c: Seq<char>| !exhausted_by(before, after, c) by {}
            assert(incremented_by(before, after, code@));
            let chosen = choose|c: Seq<char>| incremented_by(before, after, c);
            assert(incremented_by(before, after, chosen));
            assert(is_incremented(before, after, chosen));
            assert(chosen == code@);
        },
        Attribution::Ambiguous => {},
    }
}

/// How many entries of a scan matched: none, exactly the one at an index,
/// or at least the two at two indices.
enum Matches {
    Zero,
    One(usize),
    Many(Ghost<int>, Ghost<int>),
}

/// Looks for the one cached invite that `after` no longer lists.
fn find_sole_missing(before: &GuildInvites, after: &GuildInvites) -> (r: Option<usize>)
    requires
        before.wf(),
        after.wf(),
    ensures
        match r {
            Some(i) => i < before.entries().len() && is_missing(before@, after@, before.entries()[i as int].code@)
                && forall|other: Seq<char>| #[trigger]
                is_missing(before@, after@, other) ==> other == before.entries()[i as int].code@,
            None => forall|code: Seq<char>|
                !(is_missing(before@, after@, code) && forall|other: Seq<char>| #[trigger]
                    is_missing(before@, after@, other) ==> other == code),
        },
{
    let entries = before.as_entries();
    let n = entries.len();
    let mut seen = Matches::Zero;
    let mut i: usize = 0;
    while i < n
        invariant
            before.wf(),
            after.wf(),
            entries@ == before.entries(),
            n == entries@.len(),
            i <= n,
            match seen {
                Matches::Zero => forall|k: int| 0 <= k < i ==> !is_missing(before@, after@, (#[trigger] entries@[k]).code@),
                Matches::One(j) => j < i && is_missing(before@, after@, entries@[j as int].code@) && forall|k: int|
                    0 <= k < i && k != j ==> !is_missing(before@, after@, (#[trigger] entries@[k]).code@),
                Matches::Many(a, b) => 0 <= a@ < b@ < i && is_missing(before@, after@, entries@[a@].code@)
                    && is_missing(before@, after@, entries@[b@].code@),
            },
        decreases n - i,
    {
        proof {
            lemma_entry_in_map(entries@, i as int);
        }
        if !after.contains(&entries[i].code) {
            seen = match seen {
                Matches::Zero => Matches::One(i),
                Matches::One(j) => Matches::Many(Ghost(j as int), Ghost(i as int)),
                Matches::Many(a, b) => Matches::Many(a, b),
            };
        }
        i += 1;
    }
    match seen {
        Matches::One(j) => {
            assert forall|other: Seq<char>| #[trigger] is_missing(before@, after@, other) implies other
                == entries@[j as int].code@ by {
                let k = index_of(entries@, other);
                assert(entries@[k].code@ == other);
            }
            Some(j)
        },
        Matches::Zero => {
            assert forall|code: Seq<char>| !is_missing(before@, after@, code) by {
                if is_missing(before@, after@, code) {
                    let k = index_of(entries@, code);
                    assert(entries@[k].code@ == code);
                }
            }
            None
        },
        Matches::Many(a, b) => {
            assert(entries@[a@].code@ != entries@[b@].code@);
            None
        },
    }
}

/// Looks for the one cached invite whose use count `after` reports as
/// raised by one.
fn find_sole_incremented(before: &GuildInvites, after: &GuildInvites) -> (r: Option<usize>)
    requires
        before.wf(),
        after.wf(),
    ensures
        match r {
            Some(i) => i < before.entries().len() && is_incremented(
                before@,
                after@,
                before.entries()[i as int].code@,
            ) && forall|other: Seq<char>| #[trigger]
                is_incremented(before@, after@, other) ==> other == before.entries()[i as int].code@,
            None => forall|code: Seq<char>|
                !(is_incremented(before@, after@, code) && forall|other: Seq<char>| #[trigger]
                    is_incremented(before@, after@, other) ==> other == code),
        },
{
    let entries = before.as_entries();
    let n = entries.len();
    let mut seen = Matches::Zero;
    let mut i: usize = 0;
    while i < n
        invariant
            before.wf(),
            after.wf(),
            entries@ == before.entries(),
            n == entries@.len(),
            i <= n,
            match seen {
                Matches::Zero => forall|k: int|
                    0 <= k < i ==> !is_incremented(before@, after@, (#[trigger] entries@[k]).code@),
                Matches::One(j) => j < i && is_incremented(before@, after@, entries@[j as int].code@)
                    && forall|k: int|
                    0 <= k < i && k != j ==> !is_incremented(before@, after@, (#[trigger] entries@[k]).code@),
                Matches::Many(a, b) => 0 <= a@ < b@ < i && is_incremented(before@, after@, entries@[a@].code@)
                    && is_incremented(before@, after@, entries@[b@].code@),
            },
        decreases n - i,
    {
        proof {
            lemma_entry_in_map(entries@, i as int);
        }
        let raised = match after.get(&entries[i].code) {
            Some(listed) => entries[i].invite.uses < u64::MAX && listed.uses == entries[i].invite.uses + 1,
            None => false,
        };
        if raised {
            seen = match seen {
                Matches::Zero => Matches::One(i),
                Matches::One(j) => Matches::Many(Ghost(j as int), Ghost(i as int)),
                Matches::Many(a, b) => Matches::Many(a, b),
            };
        }
        i += 1;
    }
    match seen {
        Matches::One(j) => {
            assert forall|other: Seq<char>| #[trigger] is_incremented(before@, after@, other) implies other
                == entries@[j as int].code@ by {
                let k = index_of(entries@, other);
                assert(entries@[k].code@ == other);
            }
            Some(j)
        },
        Matches::Zero => {
            assert forall|code: Seq<char>| !is_incremented(before@, after@, code) by {
                if is_incremented(before@, after@, code) {
                    let k = index_of(entries@, code);
                    assert(entries@[k].code@ == code);
                }
            }
            None
        },
        Matches::Many(a, b) => {
            assert(entries@[a@].code@ != entries@[b@].code@);
            None
        },
    }
}

/// Compares the invites cached before a join with the invites listed after
/// it and names the invite that the join consumed, if exactly one fits.
pub fn attribute(before: &GuildInvites, after: &GuildInvites) -> (r: Attribution)
    requires
        before.wf(),
        after.wf(),
    ensures
        r.decides(before@, after@),
{
    let cached = before.len();
    let listed = after.len();
    if cached > 0 && listed == cached - 1 {
        match find_sole_missing(before, after) {
            Some(i) => {
                let entry = &before.as_entries()[i];
                proof {
                    lemma_entry_in_map(before.entries(), i as int);
                }
                Attribution::Exhausted { code: entry.code.clone(), invite: entry.invite }
            },
            None => Attribution::Ambiguous,
        }
    } else if listed == cached {
        match find_sole_incremented(before, after) {
            Some(i) => {
                let entry = &before.as_entries()[i];
                let invite = after.get(&entry.code).unwrap();
                Attribution::Incremented { code: entry.code.clone(), invite }
            },
            None => Attribution::Ambiguous,
        }
    } else {
        Attribution::Ambiguous
    }
}

} // verus!
