//! What the command layer asks of the cache: which invites to show, which
//! to revoke, and what to answer.

use vstd::prelude::*;
use vstd::string::{StrSliceExecFns, StringExecFns};
use crate::invite::Invite;
use crate::ledger::{code_listed, lists_code, no_code_twice};
use crate::snapshot::{distinct_codes, entries_map, has_code, index_of, lemma_entry_in_map, InviteEntry};
use crate::store::InviteStore;
use crate::table::{codes_fit_table, generate_invite_table, table_text, MAX_CELL_CHARS};
use crate::text::{decimal, push_decimal, texts, to_decimal};

verus! {

/// Why a command was refused.
#[derive(Clone, Copy, Debug, PartialEq, Eq, Structural)]
pub enum CommandError {
    /// Listing the invites of another member takes the permission to manage
    /// the guild.
    ListDenied,
    /// Revoking the invites of another member takes the permission to
    /// manage the guild.
    RevokeDenied,
    /// The cache holds nothing for the guild whose invites were to be
    /// listed.
    NothingToList,
    /// The cache holds nothing for the guild whose invites were to be
    /// revoked.
    NothingToRevoke,
    /// One of the invites to be listed has a code too long for a table.
    CodeTooLong,
}

/// What the user is told when a command is refused.
pub open spec fn error_text(error: CommandError) -> Seq<char> {
    match error {
        CommandError::ListDenied => "You don't have the permission to list invites of other members."@,
        CommandError::RevokeDenied => "You don't have the permission to revoke the invites of other members"@,
        CommandError::NothingToList => "No invites stored for this guild."@,
        CommandError::NothingToRevoke => "No invites stored for this guild"@,
        CommandError::CodeTooLong => "An invite code is too long to be listed."@,
    }
}

impl CommandError {
    /// What the user is told.
    pub fn message(&self) -> (text: String)
        ensures
            text@ == error_text(*self),
    {
        match self {
            CommandError::ListDenied => "You don't have the permission to list invites of other members.".to_owned(),
            CommandError::RevokeDenied => "You don't have the permission to revoke the invites of other members".to_owned(),
            CommandError::NothingToList => "No invites stored for this guild.".to_owned(),
            CommandError::NothingToRevoke => "No invites stored for this guild".to_owned(),
            CommandError::CodeTooLong => "An invite code is too long to be listed.".to_owned(),
        }
    }
}

/// Whose invites a listing shows, and whether it names the inviter.
#[derive(Clone, Copy, Debug, PartialEq, Eq, Structural)]
pub struct Listing {
    pub user: u64,
    pub display_inviter: bool,
}

/// Decides what the list command shows. Without a member it shows the
/// author's own invites. With one it shows that member's invites and names
/// the inviter, which is allowed if the member is the author or the author
/// may manage the guild.
pub fn list(author: u64, member: Option<u64>, manage_guild: bool) -> (r: Result<Listing, CommandError>)
    ensures
        r is Ok <==> (member is None || member == Some(author) || manage_guild),
        r is Err ==> r == Err::<Listing, CommandError>(CommandError::ListDenied),
        r matches Ok(listing) ==> listing.display_inviter == member.is_some() && listing.user == (match member {
            Some(user) => user,
            None => author,
        }),
{
    match member {
        Some(user) => {
            if user == author || manage_guild {
                Ok(Listing { user, display_inviter: true })
            } else {
                Err(CommandError::ListDenied)
            }
        },
        None => Ok(Listing { user: author, display_inviter: false }),
    }
}

/// Whether an invite passes the filter: any invite does if there is no
/// filter, and with one, the invites created by that member do.
pub open spec fn wanted(invite: Invite, inviter: Option<u64>) -> bool {
    match inviter {
        Some(user) => invite.inviter == user,
        None => true,
    }
}

/// The invites of a guild that pass the filter.
pub open spec fn selected(invites: Map<Seq<char>, Invite>, inviter: Option<u64>) -> Map<Seq<char>, Invite> {
    Map::new(
        |code: Seq<char>| invites.dom().contains(code) && wanted(invites[code], inviter),
        |code: Seq<char>| invites[code],
    )
}

spec fn same_entry(a: InviteEntry, b: InviteEntry) -> bool {
    a.code@ == b.code@ && a.invite == b.invite
}

/// Whether `entry` is one of `entries` that pass the filter.
spec fn sourced(entries: Seq<InviteEntry>, inviter: Option<u64>, entry: InviteEntry) -> bool {
    exists|k: int|
        0 <= k < entries.len() && same_entry(#[trigger] entries[k], entry) && wanted(entries[k].invite, inviter)
}

/// Whether `entry` is one of `picked`.
spec fn taken(picked: Seq<InviteEntry>, entry: InviteEntry) -> bool {
    exists|a: int| 0 <= a < picked.len() && same_entry(entry, #[trigger] picked[a])
}

/// Whether `picked` holds exactly the entries of `entries` that pass the
/// filter.
spec fn picked_from(entries: Seq<InviteEntry>, inviter: Option<u64>, picked: Seq<InviteEntry>) -> bool {
    &&& forall|a: int| 0 <= a < picked.len() ==> sourced(entries, inviter, #[trigger] picked[a])
    &&& forall|k: int|
        0 <= k < entries.len() && wanted((#[trigger] entries[k]).invite, inviter) ==> taken(picked, entries[k])
}

proof fn lemma_picked_is_selected(entries: Seq<InviteEntry>, inviter: Option<u64>, picked: Seq<InviteEntry>)
    requires
        distinct_codes(entries),
        distinct_codes(picked),
        picked_from(entries, inviter, picked),
    ensures
        entries_map(picked) == selected(entries_map(entries), inviter),
{
    let lhs = entries_map(picked);
    let rhs = selected(entries_map(entries), inviter);
    assert forall|code: Seq<char>| lhs.dom().contains(code) implies rhs.dom().contains(code) && lhs[code]
        == rhs[code] by {
        let a = index_of(picked, code);
        lemma_entry_in_map(picked, a);
        assert(sourced(entries, inviter, picked[a]));
        let k = choose|k: int|
            0 <= k < entries.len() && same_entry(#[trigger] entries[k], picked[a]) && wanted(
                entries[k].invite,
                inviter,
            );
        lemma_entry_in_map(entries, k);
    }
    assert forall|code: Seq<char>| rhs.dom().contains(code) implies lhs.dom().contains(code) by {
        let k = index_of(entries, code);
        lemma_entry_in_map(entries, k);
        assert(taken(picked, entries[k]));
        let a = choose|a: int| 0 <= a < picked.len() && same_entry(entries[k], #[trigger] picked[a]);
        lemma_entry_in_map(picked, a);
    }
    assert(lhs =~= rhs);
}

/// The invites that the cache holds for a guild, all of them or those that
/// one member created, in no particular order and each code once. `None`
/// if the cache does not hold the guild.
pub fn query_invites(store: &InviteStore, guild: u64, inviter: Option<u64>) -> (r: Option<Vec<InviteEntry>>)
    requires
        store.wf(),
    ensures
        r is Some <==> store@.dom().contains(guild),
        r matches Some(listing) ==> distinct_codes(listing@) && entries_map(listing@) == selected(
            store@[guild],
            inviter,
        ),
{
    let invites = match store.get_snapshot(guild) {
        Some(invites) => invites,
        None => {
            return None;
        },
    };
    let entries = invites.as_entries();
    let n = entries.len();
    let mut picked: Vec<InviteEntry> = Vec::new();
    let mut i: usize = 0;
    while i < n
        invariant
            n == entries@.len(),
            i <= n,
            distinct_codes(entries@),
            distinct_codes(picked@),
            picked_from(entries@.subrange(0, i as int), inviter, picked@),
        decreases n - i,
    {
        let ghost seen = entries@.subrange(0, i as int);
        let ghost next = entries@.subrange(0, i + 1);
        let ghost prior = picked@;
        let take = match inviter {
            Some(user) => entries[i].invite.inviter == user,
            None => true,
        };
        if take {
            picked.push(InviteEntry { code: entries[i].code.clone(), invite: entries[i].invite });
            assert forall|a: int, b: int| 0 <= a < b < picked@.len() implies (#[trigger] picked@[a]).code@ != (
            #[trigger] picked@[b]).code@ by {
                if b == prior.len() {
                    assert(sourced(seen, inviter, prior[a]));
                    let k = choose|k: int|
                        0 <= k < seen.len() && same_entry(#[trigger] seen[k], prior[a]) && wanted(
                            seen[k].invite,
                            inviter,
                        );
                    assert(entries@[k].code@ != entries@[i as int].code@);
                } else {
                    assert(prior[a].code@ != prior[b].code@);
                }
            }
        }
        assert forall|a: int| 0 <= a < picked@.len() implies sourced(next, inviter, #[trigger] picked@[a]) by {
            if a < prior.len() {
                assert(sourced(seen, inviter, prior[a]));
                let k = choose|k: int|
                    0 <= k < seen.len() && same_entry(#[trigger] seen[k], prior[a]) && wanted(
                        seen[k].invite,
                        inviter,
                    );
                assert(same_entry(next[k], picked@[a]));
            } else {
                assert(same_entry(next[i as int], picked@[a]));
            }
        }
        assert forall|k: int| 0 <= k < next.len() && wanted((#[trigger] next[k]).invite, inviter) implies taken(
            picked@,
            next[k],
        ) by {
            if k < i {
                assert(wanted(seen[k].invite, inviter));
                assert(taken(prior, seen[k]));
                let a = choose|a: int| 0 <= a < prior.len() && same_entry(seen[k], #[trigger] prior[a]);
                assert(same_entry(next[k], picked@[a]));
            } else {
                assert(same_entry(next[k], picked@[prior.len() as int]));
            }
        }
        i += 1;
    }
    proof {
        assert(entries@.subrange(0, n as int) =~= entries@);
        lemma_picked_is_selected(entries@, inviter, picked@);
    }
    Some(picked)
}

/// Whether `codes` names, each once, exactly the invites of a guild that
/// `inviter` created.
pub open spec fn codes_of(codes: Seq<String>, invites: Map<Seq<char>, Invite>, inviter: u64) -> bool {
    &&& no_code_twice(codes)
    &&& forall|code: Seq<char>|
        lists_code(codes, code) <==> #[trigger] invites.dom().contains(code) && invites[code].inviter == inviter
}

/// The codes of the invites that the cache holds for a guild and that
/// `inviter` created, in no particular order. `None` if the cache does not
/// hold the guild.
pub fn codes_created_by(store: &InviteStore, guild: u64, inviter: u64) -> (r: Option<Vec<String>>)
    requires
        store.wf(),
    ensures
        r is Some <==> store@.dom().contains(guild),
        r matches Some(codes) ==> codes_of(codes@, store@[guild], inviter),
{
    let listing = match query_invites(store, guild, Some(inviter)) {
        Some(listing) => listing,
        None => {
            return None;
        },
    };
    let n = listing.len();
    let mut codes: Vec<String> = Vec::new();
    let mut i: usize = 0;
    while i < n
        invariant
            n == listing@.len(),
            i <= n,
            codes@.len() == i,
            forall|a: int| 0 <= a < i ==> (#[trigger] codes@[a])@ == listing@[a].code@,
        decreases n - i,
    {
        codes.push(listing[i].code.clone());
        i += 1;
    }
    proof {
        let invites = store@[guild];
        let chosen = selected(invites, Some(inviter));
        assert forall|a: int, b: int| 0 <= a < b < codes@.len() implies (#[trigger] codes@[a])@ != (
        #[trigger] codes@[b])@ by {
            assert(listing@[a].code@ != listing@[b].code@);
        }
        assert forall|code: Seq<char>|
            lists_code(codes@, code) <==> #[trigger] invites.dom().contains(code) && invites[code].inviter
                == inviter by {
            if lists_code(codes@, code) {
                let a = choose|a: int| 0 <= a < codes@.len() && (#[trigger] codes@[a])@ == code;
                assert(listing@[a].code@ == code);
                assert(has_code(listing@, code));
                assert(chosen.dom().contains(code));
            }
            if invites.dom().contains(code) && invites[code].inviter == inviter {
                assert(chosen.dom().contains(code));
                let a = index_of(listing@, code);
                assert(codes@[a]@ == code);
            }
        }
        assert(no_code_twice(codes@));
        assert(codes_of(codes@, invites, inviter));
    }
    Some(codes)
}

/// Decides which invites the revoke command deletes. Naming a member takes
/// the permission to manage the guild and selects all invites that the
/// member created. Without a member, a given code selects that invite, and
/// no code selects all invites that the author created.
pub fn revoke(
    store: &InviteStore,
    guild: u64,
    author: u64,
    privileged: bool,
    invite: Option<String>,
    member: Option<u64>,
) -> (r: Result<Vec<String>, CommandError>)
    requires
        store.wf(),
    ensures
        match (member, invite) {
            (Some(user), _) => if !privileged {
                r == Err::<Vec<String>, CommandError>(CommandError::RevokeDenied)
            } else if !store@.dom().contains(guild) {
                r == Err::<Vec<String>, CommandError>(CommandError::NothingToRevoke)
            } else {
                r matches Ok(codes) && codes_of(codes@, store@[guild], user)
            },
            (None, Some(code)) => r matches Ok(codes) && codes@.len() == 1 && codes@[0]@ == code@,
            (None, None) => if !store@.dom().contains(guild) {
                r == Err::<Vec<String>, CommandError>(CommandError::NothingToRevoke)
            } else {
                r matches Ok(codes) && codes_of(codes@, store@[guild], author)
            },
        },
{
    match member {
        Some(user) => {
            if !privileged {
                return Err(CommandError::RevokeDenied);
            }
            match codes_created_by(store, guild, user) {
                Some(codes) => Ok(codes),
                None => Err(CommandError::NothingToRevoke),
            }
        },
        None => match invite {
            Some(code) => {
                let mut codes: Vec<String> = Vec::new();
                codes.push(code);
                Ok(codes)
            },
            None => match codes_created_by(store, guild, author) {
                Some(codes) => Ok(codes),
                None => Err(CommandError::NothingToRevoke),
            },
        },
    }
}

/// Whether the revoke command is about the one invite that it names: it
/// is when a code is given and no member is. The answer then names that
/// invite; otherwise it counts the invites that were revoked.
pub fn revokes_named_invite(invite: &Option<String>, member: Option<u64>) -> (single: bool)
    ensures
        single == (member is None && *invite is Some),
{
    member.is_none() && invite.is_some()
}

/// What the user is told after all invites of a member were to be revoked
/// and `count` of them were.
pub open spec fn revoked_all_text(count: nat) -> Seq<char> {
    if count == 0 {
        "No invites revoked."@
    } else {
        "Revoked "@ + decimal(count) + " invites."@
    }
}

/// What the user is told after all invites of a member were to be revoked
/// and `count` of them were.
pub fn revoked_all_reply(count: usize) -> (text: String)
    ensures
        text@ == revoked_all_text(count as nat),
{
    if count == 0 {
        "No invites revoked.".to_owned()
    } else {
        let mut text = "Revoked ".to_owned();
        push_decimal(&mut text, count as u64);
        text.append(" invites.");
        text
    }
}

/// What the user is told after the invite `code` was revoked.
pub fn revoked_one_reply(code: &str) -> (text: String)
    ensures
        text@ == "Successfully revoked invite `"@ + code@ + "`."@,
{
    let mut text = "Successfully revoked invite `".to_owned();
    text.append(code);
    text.append("`.");
    text
}

/// What the user is told when the platform would not delete the invite
/// `code`.
pub fn delete_failed_reply(code: &str) -> (text: String)
    ensures
        text@ == "Failed to delete invite "@ + code@,
{
    let mut text = "Failed to delete invite ".to_owned();
    text.append(code);
    text
}

/// The reason given when a member is removed because the invite they joined
/// through was revoked by the user with this name, discriminator and
/// identifier.
pub fn revocation_kick_reason(name: &str, discriminator: u16, id: u64) -> (text: String)
    ensures
        text@ == "Invite revoked by "@ + name@ + "#"@ + decimal(discriminator as nat) + " ("@ + decimal(
            id as nat,
        ) + ")"@,
{
    let mut text = "Invite revoked by ".to_owned();
    text.append(name);
    text.append("#");
    push_decimal(&mut text, discriminator as u64);
    text.append(" (");
    push_decimal(&mut text, id);
    text.append(")");
    text
}

/// Whether `text` begins with `prefix`, character by character.
fn starts_with(text: &str, prefix: &str) -> (r: bool)
    ensures
        r == prefix@.is_prefix_of(text@),
{
    let n = prefix.unicode_len();
    if n > text.unicode_len() {
        return false;
    }
    let mut i: usize = 0;
    while i < n
        invariant
            n == prefix@.len(),
            n <= text@.len(),
            i <= n,
            forall|k: int| 0 <= k < i ==> prefix@[k] == text@[k],
        decreases n - i,
    {
        if prefix.get_char(i) != text.get_char(i) {
            assert(text@.subrange(0, n as int)[i as int] != prefix@[i as int]);
            return false;
        }
        i += 1;
    }
    assert(prefix@ =~= text@.subrange(0, n as int));
    true
}

/// The member whose invites are offered for completion, as text: the one
/// that a privileged author chose, and the author otherwise.
pub fn autocomplete_member(privileged: bool, chosen: Option<String>, author: u64) -> (member: String)
    ensures
        member@ == (match chosen {
            Some(text) => if privileged {
                text@
            } else {
                decimal(author as nat)
            },
            None => decimal(author as nat),
        }),
{
    if privileged {
        match chosen {
            Some(text) => text,
            None => to_decimal(author),
        }
    } else {
        to_decimal(author)
    }
}

/// Whether `code` is the code of one of `entries` whose inviter is written
/// `member`.
spec fn created_by_named(entries: Seq<InviteEntry>, member: Seq<char>, code: Seq<char>) -> bool {
    exists|k: int|
        0 <= k < entries.len() && (#[trigger] entries[k]).code@ == code && decimal(entries[k].invite.inviter as nat)
            == member
}

/// The codes of the invites that the cache holds for a guild and whose
/// inviter, written as a decimal number, is `member`; in no particular
/// order, each once. `None` if the cache does not hold the guild.
pub fn local_codes(store: &InviteStore, guild: u64, member: &String) -> (r: Option<Vec<String>>)
    requires
        store.wf(),
    ensures
        r is Some <==> store@.dom().contains(guild),
        r matches Some(codes) ==> no_code_twice(codes@) && forall|code: Seq<char>|
            lists_code(codes@, code) <==> #[trigger] store@[guild].dom().contains(code) && decimal(
                store@[guild][code].inviter as nat,
            ) == member@,
{
    let invites = match store.get_snapshot(guild) {
        Some(invites) => invites,
        None => {
            return None;
        },
    };
    let entries = invites.as_entries();
    let n = entries.len();
    let mut codes: Vec<String> = Vec::new();
    let mut i: usize = 0;
    while i < n
        invariant
            n == entries@.len(),
            i <= n,
            distinct_codes(entries@),
            no_code_twice(codes@),
            forall|code: Seq<char>|
                lists_code(codes@, code) <==> created_by_named(entries@.subrange(0, i as int), member@, code),
        decreases n - i,
    {
        let ghost seen = entries@.subrange(0, i as int);
        let ghost next = entries@.subrange(0, i + 1);
        let ghost prior = codes@;
        let written = to_decimal(entries[i].invite.inviter);
        let take = written == *member;
        if take {
            codes.push(entries[i].code.clone());
            assert forall|a: int, b: int| 0 <= a < b < codes@.len() implies (#[trigger] codes@[a])@ != (
            #[trigger] codes@[b])@ by {
                if b == prior.len() {
                    assert(lists_code(prior, prior[a]@));
                    let k = choose|k: int|
                        0 <= k < seen.len() && (#[trigger] seen[k]).code@ == prior[a]@ && decimal(
                            seen[k].invite.inviter as nat,
                        ) == member@;
                    assert(entries@[k].code@ != entries@[i as int].code@);
                } else {
                    assert(prior[a]@ != prior[b]@);
                }
            }
        }
        assert forall|code: Seq<char>| lists_code(codes@, code) <==> created_by_named(next, member@, code) by {
            if lists_code(codes@, code) {
                let a = choose|a: int| 0 <= a < codes@.len() && (#[trigger] codes@[a])@ == code;
                if a < prior.len() {
                    assert(prior[a]@ == code);
                    assert(lists_code(prior, code));
                    let k = choose|k: int|
                        0 <= k < seen.len() && (#[trigger] seen[k]).code@ == code && decimal(
                            seen[k].invite.inviter as nat,
                        ) == member@;
                    assert(next[k].code@ == code);
                } else {
                    assert(next[i as int].code@ == code);
                }
            }
            if created_by_named(next, member@, code) {
                let k = choose|k: int|
                    0 <= k < next.len() && (#[trigger] next[k]).code@ == code && decimal(
                        next[k].invite.inviter as nat,
                    ) == member@;
                if k < i {
                    assert(seen[k].code@ == code);
                    assert(created_by_named(seen, member@, code));
                    assert(lists_code(prior, code));
                    let a = choose|a: int| 0 <= a < prior.len() && (#[trigger] prior[a])@ == code;
                    assert(codes@[a]@ == code);
                } else {
                    assert(codes@[prior.len() as int]@ == code);
                }
            }
        }
        i += 1;
    }
    proof {
        assert(entries@.subrange(0, n as int) =~= entries@);
        let cached = store@[guild];
        assert forall|code: Seq<char>|
            lists_code(codes@, code) <==> #[trigger] cached.dom().contains(code) && decimal(
                cached[code].inviter as nat,
            ) == member@ by {
            if lists_code(codes@, code) {
                assert(created_by_named(entries@, member@, code));
                let k = choose|k: int|
                    0 <= k < entries@.len() && (#[trigger] entries@[k]).code@ == code && decimal(
                        entries@[k].invite.inviter as nat,
                    ) == member@;
                lemma_entry_in_map(entries@, k);
            }
            if cached.dom().contains(code) && decimal(cached[code].inviter as nat) == member@ {
                let k = index_of(entries@, code);
                lemma_entry_in_map(entries@, k);
                assert(created_by_named(entries@, member@, code));
            }
        }
    }
    Some(codes)
}

/// The codes among `codes` that begin with `partial` and are not among
/// `known`, in the order of `codes`.
pub open spec fn matching(codes: Seq<String>, known: Seq<String>, partial: Seq<char>) -> Seq<Seq<char>>
    decreases codes.len(),
{
    if codes.len() == 0 {
        Seq::empty()
    } else if partial.is_prefix_of(codes.last()@) && !lists_code(known, codes.last()@) {
        matching(codes.drop_last(), known, partial).push(codes.last()@)
    } else {
        matching(codes.drop_last(), known, partial)
    }
}

/// The completions offered for a partly typed invite code: first the
/// member's invites that the cache holds, then the codes that the ledger
/// remembers and the cache does not; of both, those that begin with what
/// was typed.
pub open spec fn suggestions(local: Seq<String>, stored: Seq<String>, partial: Seq<char>) -> Seq<Seq<char>> {
    matching(local, Seq::<String>::empty(), partial) + matching(stored, local, partial)
}

/// The completions offered for a partly typed invite code.
pub fn autocomplete_invite(local: &Vec<String>, stored: &Vec<String>, partial: &str) -> (r: Vec<String>)
    ensures
        texts(r@) == suggestions(local@, stored@, partial@),
{
    let mut offered: Vec<String> = Vec::new();
    let n = local.len();
    let mut i: usize = 0;
    while i < n
        invariant
            n == local@.len(),
            i <= n,
            texts(offered@) == matching(local@.subrange(0, i as int), Seq::<String>::empty(), partial@),
        decreases n - i,
    {
        assert(local@.subrange(0, i + 1).drop_last() =~= local@.subrange(0, i as int));
        assert(!lists_code(Seq::<String>::empty(), local@[i as int]@));
        if starts_with(local[i].as_str(), partial) {
            offered.push(local[i].clone());
            assert(texts(offered@) =~= matching(
                local@.subrange(0, i as int),
                Seq::<String>::empty(),
                partial@,
            ).push(local@[i as int]@));
        }
        i += 1;
    }
    assert(local@.subrange(0, n as int) =~= local@);
    let ghost first = texts(offered@);
    let m = stored.len();
    let mut j: usize = 0;
    while j < m
        invariant
            m == stored@.len(),
            j <= m,
            texts(offered@) == first + matching(stored@.subrange(0, j as int), local@, partial@),
        decreases m - j,
    {
        assert(stored@.subrange(0, j + 1).drop_last() =~= stored@.subrange(0, j as int));
        let ghost prior = offered@;
        if starts_with(stored[j].as_str(), partial) && !code_listed(local, &stored[j]) {
            offered.push(stored[j].clone());
            assert(texts(offered@) =~= texts(prior).push(stored@[j as int]@));
            assert(texts(offered@) =~= first + matching(stored@.subrange(0, j as int), local@, partial@).push(
                stored@[j as int]@,
            ));
        }
        j += 1;
    }
    assert(stored@.subrange(0, m as int) =~= stored@);
    offered
}

/// Whether every code of the invites is short enough for a table.
pub open spec fn all_fit(invites: Map<Seq<char>, Invite>) -> bool {
    forall|code: Seq<char>| #[trigger] invites.dom().contains(code) ==> code.len() <= MAX_CELL_CHARS
}

/// Answers the list command: the invites that `user` created in the guild,
/// as a table, at the time `now`. The rows come in no particular order.
pub fn list_invites(store: &InviteStore, guild: u64, user: u64, display_inviter: bool, now: i64) -> (r: Result<
    String,
    CommandError,
>)
    requires
        store.wf(),
    ensures
        r is Ok <==> store@.dom().contains(guild) && all_fit(selected(store@[guild], Some(user))),
        r == Err::<String, CommandError>(CommandError::NothingToList) <==> !store@.dom().contains(guild),
        r == Err::<String, CommandError>(CommandError::CodeTooLong) <==> store@.dom().contains(guild) && !all_fit(
            selected(store@[guild], Some(user)),
        ),
        r matches Ok(text) ==> exists|listing: Seq<InviteEntry>|
            distinct_codes(listing) && entries_map(listing) == selected(store@[guild], Some(user)) && text@
                == #[trigger] table_text(listing, display_inviter, user, now),
{
    let listing = match query_invites(store, guild, Some(user)) {
        Some(listing) => listing,
        None => {
            return Err(CommandError::NothingToList);
        },
    };
    let ghost chosen = selected(store@[guild], Some(user));
    if codes_fit_table(&listing) {
        proof {
            assert forall|code: Seq<char>| #[trigger] chosen.dom().contains(code) implies code.len()
                <= MAX_CELL_CHARS by {
                let k = index_of(listing@, code);
                assert(listing@[k].code@ == code);
            }
        }
        Ok(generate_invite_table(&listing, display_inviter, user, now))
    } else {
        proof {
            let k = choose|k: int| 0 <= k < listing@.len() && !((#[trigger] listing@[k]).code@.len() <= MAX_CELL_CHARS);
            lemma_entry_in_map(listing@, k);
            assert(chosen.dom().contains(listing@[k].code@));
        }
        Err(CommandError::CodeTooLong)
    }
}

} // verus!
