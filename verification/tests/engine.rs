use invite_tracker::attribution::{attribute, Attribution};
use invite_tracker::invite::Invite;
use invite_tracker::protocol::{Action, Failure, Outcome, Phase};
use invite_tracker::snapshot::{GuildInvites, InviteEntry};
use invite_tracker::store::InviteStore;
use invite_tracker::tracker::{reason, InviteTracker, JoinEvent, Member};

const GUILD: u64 = 77;
const ALICE: u64 = 1001;
const BOB: u64 = 1002;
const NEWCOMER: u64 = 5000;

fn invite(inviter: u64, uses: u64, max_uses: Option<u64>) -> Invite {
    Invite {
        created_at: 1_600_000_000,
        max_age: None,
        max_uses,
        temporary: false,
        uses,
        guild: GUILD,
        inviter,
    }
}

fn entry(code: &str, inviter: u64, uses: u64, max_uses: Option<u64>) -> InviteEntry {
    InviteEntry { code: code.to_string(), invite: invite(inviter, uses, max_uses) }
}

fn store_with(entries: Vec<InviteEntry>) -> InviteStore {
    let mut store = InviteStore::new();
    store.replace_guild(GUILD, GuildInvites::from_entries(&entries));
    store
}

fn human() -> Member {
    Member { user: NEWCOMER, guild: GUILD, bot: false }
}

#[test]
fn exhausted_single_use_invite_is_credited() {
    let before = GuildInvites::from_entries(&vec![
        entry("A", ALICE, 1, None),
        entry("B", BOB, 0, Some(1)),
    ]);
    let after = GuildInvites::from_entries(&vec![entry("A", ALICE, 2, None)]);
    match attribute(&before, &after) {
        Attribution::Exhausted { code, invite } => {
            assert_eq!(code, "B");
            assert_eq!(invite.inviter, BOB);
            assert_eq!(invite.uses, 0);
        }
        other => panic!("expected B to be exhausted, got {:?}", other),
    }
}

#[test]
fn incremented_invite_is_credited() {
    let before = GuildInvites::from_entries(&vec![
        entry("A", ALICE, 1, None),
        entry("B", BOB, 0, Some(5)),
    ]);
    let after = GuildInvites::from_entries(&vec![
        entry("A", ALICE, 1, None),
        entry("B", BOB, 1, Some(5)),
    ]);
    match attribute(&before, &after) {
        Attribution::Incremented { code, invite } => {
            assert_eq!(code, "B");
            assert_eq!(invite.uses, 1);
            assert_eq!(invite.inviter, BOB);
        }
        other => panic!("expected B to be incremented, got {:?}", other),
    }
}

#[test]
fn identical_states_are_ambiguous() {
    let before = GuildInvites::from_entries(&vec![entry("A", ALICE, 1, None)]);
    let after = GuildInvites::from_entries(&vec![entry("A", ALICE, 1, None)]);
    assert!(matches!(attribute(&before, &after), Attribution::Ambiguous));
}

#[test]
fn two_incremented_invites_are_ambiguous() {
    let before = GuildInvites::from_entries(&vec![
        entry("A", ALICE, 1, None),
        entry("B", BOB, 3, None),
    ]);
    let after = GuildInvites::from_entries(&vec![
        entry("A", ALICE, 2, None),
        entry("B", BOB, 4, None),
    ]);
    assert!(matches!(attribute(&before, &after), Attribution::Ambiguous));
}

#[test]
fn one_less_listed_but_two_missing_is_ambiguous() {
    let before = GuildInvites::from_entries(&vec![
        entry("A", ALICE, 1, None),
        entry("B", BOB, 0, Some(1)),
    ]);
    let after = GuildInvites::from_entries(&vec![entry("C", ALICE, 0, None)]);
    assert!(matches!(attribute(&before, &after), Attribution::Ambiguous));
}

#[test]
fn a_jump_by_two_uses_is_ambiguous() {
    let before = GuildInvites::from_entries(&vec![entry("A", ALICE, 1, None)]);
    let after = GuildInvites::from_entries(&vec![entry("A", ALICE, 3, None)]);
    assert!(matches!(attribute(&before, &after), Attribution::Ambiguous));
}

#[test]
fn a_use_count_at_the_maximum_cannot_go_up() {
    let before = GuildInvites::from_entries(&vec![entry("A", ALICE, u64::MAX, None)]);
    let after = GuildInvites::from_entries(&vec![entry("A", ALICE, 0, None)]);
    assert!(matches!(attribute(&before, &after), Attribution::Ambiguous));
}

#[test]
fn more_listed_than_cached_is_ambiguous() {
    let before = GuildInvites::from_entries(&vec![entry("A", ALICE, 1, None)]);
    let after = GuildInvites::from_entries(&vec![
        entry("A", ALICE, 2, None),
        entry("B", BOB, 0, None),
    ]);
    assert!(matches!(attribute(&before, &after), Attribution::Ambiguous));
}

#[test]
fn empty_states_are_ambiguous() {
    let before = GuildInvites::new();
    let after = GuildInvites::new();
    assert!(matches!(attribute(&before, &after), Attribution::Ambiguous));
}

#[test]
fn join_through_exhausted_invite_is_recorded_and_cache_kept() {
    let mut store = store_with(vec![entry("A", ALICE, 1, None), entry("B", BOB, 0, Some(1))]);
    let (mut tracker, action) = InviteTracker::on_join(&store, human(), 1_700_000_000);
    assert_eq!(action, Action::FetchInvites);
    assert_eq!(tracker.phase(), Phase::AwaitingFetch);
    let action =
        tracker.on_event(&mut store, JoinEvent::Fetched(Ok(vec![entry("A", ALICE, 2, None)])));
    assert_eq!(action, Action::Persist);
    let record = tracker.record().clone().expect("a record to persist");
    assert_eq!(record.user, NEWCOMER);
    assert_eq!(record.guild, GUILD);
    assert_eq!(record.inviter, BOB);
    assert_eq!(record.invite, "B");
    assert_eq!(record.used_at, 1_700_000_000);
    // The exhausted invite stays cached until its deletion is announced.
    let cached = store.get_snapshot(GUILD).unwrap();
    assert_eq!(cached.len(), 2);
    assert!(cached.contains(&"B".to_string()));
    assert_eq!(cached.get(&"A".to_string()).unwrap().uses, 1);
    assert_eq!(tracker.on_event(&mut store, JoinEvent::Persisted { ok: true }), Action::Nothing);
    assert_eq!(tracker.outcome(), Some(Outcome::Attributed));
}

#[test]
fn join_through_incremented_invite_updates_cached_uses() {
    let mut store = store_with(vec![entry("A", ALICE, 1, None), entry("B", BOB, 0, Some(5))]);
    let (mut tracker, action) = InviteTracker::on_join(&store, human(), 1_700_000_000);
    assert_eq!(action, Action::FetchInvites);
    let listing = vec![entry("A", ALICE, 1, None), entry("B", BOB, 1, Some(5))];
    let action = tracker.on_event(&mut store, JoinEvent::Fetched(Ok(listing)));
    assert_eq!(action, Action::Persist);
    let record = tracker.record().clone().unwrap();
    assert_eq!(record.invite, "B");
    assert_eq!(record.inviter, BOB);
    let cached = store.get_snapshot(GUILD).unwrap();
    assert_eq!(cached.get(&"B".to_string()).unwrap().uses, 1);
    assert_eq!(cached.get(&"B".to_string()).unwrap().max_uses, Some(5));
    assert_eq!(cached.get(&"A".to_string()).unwrap().uses, 1);
    assert_eq!(cached.len(), 2);
}

#[test]
fn ambiguous_join_removes_member_once_and_writes_nothing() {
    let mut store = store_with(vec![entry("A", ALICE, 1, None)]);
    let mut actions = Vec::new();
    let (mut tracker, action) = InviteTracker::on_join(&store, human(), 1_700_000_000);
    actions.push(action);
    actions.push(tracker.on_event(&mut store, JoinEvent::Fetched(Ok(vec![entry("A", ALICE, 1, None)]))));
    assert_eq!(
        tracker.removal_reason().as_deref(),
        Some("failed to associate an invite with this member")
    );
    actions.push(tracker.on_event(&mut store, JoinEvent::Removed { ok: true }));
    actions.push(tracker.on_event(&mut store, JoinEvent::Persisted { ok: true }));
    actions.push(tracker.on_event(&mut store, JoinEvent::Removed { ok: true }));
    assert_eq!(
        actions,
        vec![
            Action::FetchInvites,
            Action::RemoveMember(Failure::AttributionAmbiguous),
            Action::Nothing,
            Action::Nothing,
            Action::Nothing,
        ]
    );
    assert_eq!(actions.iter().filter(|a| matches!(a, Action::RemoveMember(_))).count(), 1);
    assert_eq!(actions.iter().filter(|a| matches!(a, Action::Persist)).count(), 0);
    assert!(tracker.record().is_none());
    assert_eq!(tracker.outcome(), Some(Outcome::Removed(Failure::AttributionAmbiguous)));
    assert_eq!(store.get_snapshot(GUILD).unwrap().get(&"A".to_string()).unwrap().uses, 1);
}

#[test]
fn fetch_failure_removes_member_once_and_writes_nothing() {
    let mut store = store_with(vec![entry("A", ALICE, 1, None)]);
    let mut actions = Vec::new();
    let (mut tracker, action) = InviteTracker::on_join(&store, human(), 1_700_000_000);
    actions.push(action);
    actions.push(tracker.on_event(&mut store, JoinEvent::Fetched(Err("Missing Permissions".to_string()))));
    assert_eq!(
        tracker.removal_reason().as_deref(),
        Some("Cannot fetch invites for comparison: Missing Permissions")
    );
    actions.push(tracker.on_event(&mut store, JoinEvent::Fetched(Ok(vec![entry("A", ALICE, 2, None)]))));
    actions.push(tracker.on_event(&mut store, JoinEvent::Removed { ok: false }));
    actions.push(tracker.on_event(&mut store, JoinEvent::Removed { ok: true }));
    assert_eq!(actions.iter().filter(|a| matches!(a, Action::RemoveMember(_))).count(), 1);
    assert_eq!(actions.iter().filter(|a| matches!(a, Action::Persist)).count(), 0);
    assert_eq!(actions[1], Action::RemoveMember(Failure::FetchFailed));
    assert!(tracker.record().is_none());
    assert_eq!(tracker.outcome(), Some(Outcome::RemovalFailed(Failure::FetchFailed)));
    assert_eq!(store.get_snapshot(GUILD).unwrap().get(&"A".to_string()).unwrap().uses, 1);
}

#[test]
fn bot_join_asks_for_nothing() {
    let mut store = store_with(vec![entry("A", ALICE, 1, None)]);
    let bot = Member { user: NEWCOMER, guild: GUILD, bot: true };
    let (mut tracker, action) = InviteTracker::on_join(&store, bot, 1_700_000_000);
    assert_eq!(action, Action::Nothing);
    assert_eq!(tracker.outcome(), Some(Outcome::Ignored));
    assert_eq!(tracker.removal_reason(), None);
    let listing = vec![entry("A", ALICE, 2, None)];
    assert_eq!(tracker.on_event(&mut store, JoinEvent::Fetched(Ok(listing))), Action::Nothing);
    assert_eq!(tracker.on_event(&mut store, JoinEvent::Persisted { ok: false }), Action::Nothing);
    assert_eq!(tracker.on_event(&mut store, JoinEvent::Removed { ok: true }), Action::Nothing);
    assert!(tracker.record().is_none());
    assert_eq!(tracker.outcome(), Some(Outcome::Ignored));
    assert_eq!(store.get_snapshot(GUILD).unwrap().get(&"A".to_string()).unwrap().uses, 1);
}

#[test]
fn bot_join_in_unknown_guild_is_still_ignored() {
    let store = InviteStore::new();
    let bot = Member { user: NEWCOMER, guild: GUILD, bot: true };
    let (tracker, action) = InviteTracker::on_join(&store, bot, 0);
    assert_eq!(action, Action::Nothing);
    assert_eq!(tracker.outcome(), Some(Outcome::Ignored));
}

#[test]
fn join_to_unknown_guild_removes_member_without_fetching() {
    let mut store = InviteStore::new();
    let (mut tracker, action) = InviteTracker::on_join(&store, human(), 1_700_000_000);
    assert_eq!(action, Action::RemoveMember(Failure::UnknownGuild));
    assert_eq!(tracker.removal_reason().as_deref(), Some("no invites are known for this guild"));
    assert_eq!(tracker.on_event(&mut store, JoinEvent::Removed { ok: true }), Action::Nothing);
    assert_eq!(tracker.outcome(), Some(Outcome::Removed(Failure::UnknownGuild)));
    assert!(!store.has_guild(GUILD));
}

#[test]
fn ledger_failure_removes_member() {
    let mut store = store_with(vec![entry("A", ALICE, 1, None)]);
    let (mut tracker, _) = InviteTracker::on_join(&store, human(), 1_700_000_000);
    let action = tracker.on_event(&mut store, JoinEvent::Fetched(Ok(vec![entry("A", ALICE, 2, None)])));
    assert_eq!(action, Action::Persist);
    let action = tracker.on_event(&mut store, JoinEvent::Persisted { ok: false });
    assert_eq!(action, Action::RemoveMember(Failure::PersistFailed));
    assert_eq!(tracker.removal_reason().as_deref(), Some("error inserting user in database"));
    assert_eq!(tracker.on_event(&mut store, JoinEvent::Removed { ok: true }), Action::Nothing);
    assert_eq!(tracker.outcome(), Some(Outcome::Removed(Failure::PersistFailed)));
}

#[test]
fn old_state_is_the_cache_at_join_time() {
    let mut store = store_with(vec![entry("A", ALICE, 1, None)]);
    let (mut tracker, _) = InviteTracker::on_join(&store, human(), 1_700_000_000);
    // The cache moves on while the listing is being fetched.
    store.insert(GUILD, "Z".to_string(), invite(BOB, 0, None));
    let action = tracker.on_event(&mut store, JoinEvent::Fetched(Ok(vec![entry("A", ALICE, 2, None)])));
    assert_eq!(action, Action::Persist);
    assert_eq!(tracker.record().clone().unwrap().invite, "A");
    let cached = store.get_snapshot(GUILD).unwrap();
    assert_eq!(cached.get(&"A".to_string()).unwrap().uses, 2);
    assert!(cached.contains(&"Z".to_string()));
}

#[test]
fn update_after_guild_removal_is_a_no_op() {
    let mut store = store_with(vec![entry("A", ALICE, 1, None)]);
    let (mut tracker, _) = InviteTracker::on_join(&store, human(), 1_700_000_000);
    store.invite_guild_deleted(GUILD);
    let action = tracker.on_event(&mut store, JoinEvent::Fetched(Ok(vec![entry("A", ALICE, 2, None)])));
    assert_eq!(action, Action::Persist);
    assert!(!store.has_guild(GUILD));
}

#[test]
fn removal_reasons_have_their_texts() {
    assert_eq!(reason(Failure::FetchFailed, "timeout"), "Cannot fetch invites for comparison: timeout");
    assert_eq!(reason(Failure::FetchFailed, ""), "Cannot fetch invites for comparison: ");
    assert_eq!(reason(Failure::AttributionAmbiguous, "x"), "failed to associate an invite with this member");
    assert_eq!(reason(Failure::PersistFailed, "x"), "error inserting user in database");
    assert_eq!(reason(Failure::UnknownGuild, "x"), "no invites are known for this guild");
}
