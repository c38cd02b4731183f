use invite_tracker::invite::{FetchedInvite, Invite, InviteCreated, InviteDeleted};
use invite_tracker::snapshot::{entries_from_fetched, GuildInvites, InviteEntry};
use invite_tracker::store::{IngestError, InviteStore};

const GUILD: u64 = 42;

fn created(code: &str, max_age: u64, max_uses: u64) -> InviteCreated {
    InviteCreated { code: code.to_string(), guild: GUILD, inviter: 7, max_age, max_uses, temporary: false }
}

fn fetched(code: &str, created_at: i64, max_age: u64, max_uses: u64, uses: u64) -> FetchedInvite {
    FetchedInvite {
        code: code.to_string(),
        created_at,
        max_age,
        max_uses,
        temporary: true,
        uses,
        guild: GUILD,
        inviter: 9,
    }
}

fn plain(uses: u64) -> Invite {
    Invite { created_at: 10, max_age: None, max_uses: None, temporary: false, uses, guild: GUILD, inviter: 7 }
}

#[test]
fn create_then_delete_on_empty_guild_leaves_no_entry() {
    let mut store = InviteStore::new();
    store.replace_guild(GUILD, GuildInvites::new());
    assert_eq!(store.invite_created(&created("C", 0, 0), 100), Ok(()));
    assert!(store.get_snapshot(GUILD).unwrap().contains(&"C".to_string()));
    let deleted = InviteDeleted { code: "C".to_string(), guild: GUILD };
    assert_eq!(store.invite_deleted(&deleted), Ok(()));
    let cached = store.get_snapshot(GUILD).unwrap();
    assert!(!cached.contains(&"C".to_string()));
    assert_eq!(cached.len(), 0);
    assert_eq!(store.invite_deleted(&deleted), Err(IngestError::UnknownInvite));
    assert_eq!(store.get_snapshot(GUILD).unwrap().len(), 0);
}

#[test]
fn created_invite_starts_with_zero_uses_and_sentinels_mapped() {
    let mut store = InviteStore::new();
    store.replace_guild(GUILD, GuildInvites::new());
    assert_eq!(store.invite_created(&created("never", 0, 0), 1_000), Ok(()));
    assert_eq!(store.invite_created(&created("limited", 3_600, 5), 1_000), Ok(()));
    let cached = store.get_snapshot(GUILD).unwrap();
    let never = cached.get(&"never".to_string()).unwrap();
    assert_eq!(never.max_age, None);
    assert_eq!(never.max_uses, None);
    assert_eq!(never.uses, 0);
    assert_eq!(never.created_at, 1_000);
    assert_eq!(never.guild, GUILD);
    assert_eq!(never.inviter, 7);
    let limited = cached.get(&"limited".to_string()).unwrap();
    assert_eq!(limited.max_age, Some(4_600));
    assert_eq!(limited.max_uses, Some(5));
    assert_eq!(limited.uses, 0);
}

#[test]
fn create_in_unknown_guild_is_reported_and_ignored() {
    let mut store = InviteStore::new();
    assert_eq!(store.invite_created(&created("C", 0, 0), 100), Err(IngestError::UnknownGuild));
    assert!(!store.has_guild(GUILD));
    assert!(store.get_snapshot(GUILD).is_none());
}

#[test]
fn create_with_unrepresentable_expiry_is_reported_and_ignored() {
    let mut store = InviteStore::new();
    store.replace_guild(GUILD, GuildInvites::new());
    assert_eq!(store.invite_created(&created("C", u64::MAX, 0), 100), Err(IngestError::ExpiryOutOfRange));
    assert_eq!(store.invite_created(&created("D", 1, 0), i64::MAX), Err(IngestError::ExpiryOutOfRange));
    assert_eq!(store.get_snapshot(GUILD).unwrap().len(), 0);
    assert_eq!(store.invite_created(&created("E", 1, 0), i64::MAX - 1), Ok(()));
    assert_eq!(
        store.get_snapshot(GUILD).unwrap().get(&"E".to_string()).unwrap().max_age,
        Some(i64::MAX)
    );
}

#[test]
fn delete_in_unknown_guild_is_reported_and_ignored() {
    let mut store = InviteStore::new();
    let deleted = InviteDeleted { code: "C".to_string(), guild: GUILD };
    assert_eq!(store.invite_deleted(&deleted), Err(IngestError::UnknownGuild));
    assert!(!store.has_guild(GUILD));
}

#[test]
fn guild_visible_replaces_partial_state() {
    let mut store = InviteStore::new();
    store.replace_guild(GUILD, GuildInvites::new());
    store.insert(GUILD, "stale".to_string(), plain(3));
    let listing = vec![
        InviteEntry { code: "A".to_string(), invite: plain(1) },
        InviteEntry { code: "B".to_string(), invite: plain(2) },
    ];
    assert_eq!(store.invite_guild_created(GUILD, &Ok(listing)), Ok(2));
    let cached = store.get_snapshot(GUILD).unwrap();
    assert_eq!(cached.len(), 2);
    assert!(!cached.contains(&"stale".to_string()));
    assert_eq!(cached.get(&"A".to_string()).unwrap().uses, 1);
    assert_eq!(cached.get(&"B".to_string()).unwrap().uses, 2);
}

#[test]
fn guild_visible_with_failed_fetch_leaves_cache_alone() {
    let mut store = InviteStore::new();
    assert_eq!(
        store.invite_guild_created(GUILD, &Err("rate limited".to_string())),
        Err(IngestError::FetchFailed)
    );
    assert!(!store.has_guild(GUILD));
    store.replace_guild(GUILD, GuildInvites::new());
    store.insert(GUILD, "A".to_string(), plain(3));
    assert_eq!(
        store.invite_guild_created(GUILD, &Err("rate limited".to_string())),
        Err(IngestError::FetchFailed)
    );
    assert_eq!(store.get_snapshot(GUILD).unwrap().get(&"A".to_string()).unwrap().uses, 3);
}

#[test]
fn guild_removed_drops_everything_for_that_guild_only() {
    let mut store = InviteStore::new();
    store.replace_guild(GUILD, GuildInvites::new());
    store.replace_guild(GUILD + 1, GuildInvites::new());
    store.insert(GUILD, "A".to_string(), plain(0));
    store.insert(GUILD + 1, "A".to_string(), plain(4));
    store.invite_guild_deleted(GUILD);
    assert!(!store.has_guild(GUILD));
    assert!(store.has_guild(GUILD + 1));
    assert_eq!(store.get_snapshot(GUILD + 1).unwrap().get(&"A".to_string()).unwrap().uses, 4);
    store.invite_guild_deleted(GUILD);
    assert!(!store.has_guild(GUILD));
}

#[test]
fn later_listing_of_a_code_wins() {
    let listing = vec![
        InviteEntry { code: "A".to_string(), invite: plain(1) },
        InviteEntry { code: "B".to_string(), invite: plain(2) },
        InviteEntry { code: "A".to_string(), invite: plain(9) },
    ];
    let invites = GuildInvites::from_entries(&listing);
    assert_eq!(invites.len(), 2);
    assert_eq!(invites.get(&"A".to_string()).unwrap().uses, 9);
    assert_eq!(invites.get(&"B".to_string()).unwrap().uses, 2);
}

#[test]
fn insert_remove_and_update_on_unknown_guild_do_nothing() {
    let mut store = InviteStore::new();
    assert!(!store.insert(GUILD, "A".to_string(), plain(0)));
    assert!(!store.remove(GUILD, &"A".to_string()));
    assert!(!store.update_uses(GUILD, &"A".to_string(), 5));
    assert!(!store.has_guild(GUILD));
}

#[test]
fn update_uses_changes_only_the_count() {
    let mut store = InviteStore::new();
    store.replace_guild(GUILD, GuildInvites::new());
    let invite = Invite {
        created_at: 10,
        max_age: Some(20),
        max_uses: Some(8),
        temporary: true,
        uses: 1,
        guild: GUILD,
        inviter: 7,
    };
    store.insert(GUILD, "A".to_string(), invite);
    assert!(store.update_uses(GUILD, &"A".to_string(), 2));
    assert!(!store.update_uses(GUILD, &"B".to_string(), 2));
    let cached = store.get_snapshot(GUILD).unwrap();
    assert_eq!(cached.get(&"A".to_string()), Some(Invite { uses: 2, ..invite }));
    assert_eq!(cached.len(), 1);
}

#[test]
fn snapshot_is_independent_of_later_changes() {
    let mut store = InviteStore::new();
    store.replace_guild(GUILD, GuildInvites::new());
    store.insert(GUILD, "A".to_string(), plain(1));
    let snapshot = store.get_snapshot(GUILD).unwrap();
    store.update_uses(GUILD, &"A".to_string(), 2);
    store.remove(GUILD, &"A".to_string());
    assert_eq!(snapshot.get(&"A".to_string()).unwrap().uses, 1);
    assert_eq!(snapshot.snapshot().len(), 1);
}

#[test]
fn fetched_invite_sentinels_are_mapped() {
    let never = Invite::from_fetched(&fetched("A", 500, 0, 0, 3)).unwrap();
    assert_eq!(never.max_age, None);
    assert_eq!(never.max_uses, None);
    assert_eq!(never.uses, 3);
    assert_eq!(never.created_at, 500);
    assert!(never.temporary);
    assert_eq!(never.guild, GUILD);
    assert_eq!(never.inviter, 9);
    let limited = Invite::from_fetched(&fetched("B", 500, 86_400, 10, 3)).unwrap();
    assert_eq!(limited.max_age, Some(86_900));
    assert_eq!(limited.max_uses, Some(10));
    let early = Invite::from_fetched(&fetched("C", -100, 60, 1, 0)).unwrap();
    assert_eq!(early.max_age, Some(-40));
}

#[test]
fn fetched_invite_with_unrepresentable_expiry_is_refused() {
    assert_eq!(Invite::from_fetched(&fetched("A", i64::MAX, 1, 0, 0)), None);
    assert_eq!(Invite::from_fetched(&fetched("A", 0, u64::MAX, 0, 0)), None);
    assert!(Invite::from_fetched(&fetched("A", i64::MIN, u64::MAX, 0, 0)).is_some());
    assert_eq!(
        Invite::from_fetched(&fetched("A", i64::MIN, u64::MAX, 0, 0)).unwrap().max_age,
        Some(i64::MAX)
    );
    assert!(Invite::from_fetched(&fetched("A", i64::MAX, 0, 0, 0)).is_some());
}

#[test]
fn created_invite_ignores_nothing_but_starts_unused() {
    let invite = Invite::from_created(&created("A", 60, 2), 1_000).unwrap();
    assert_eq!(
        invite,
        Invite {
            created_at: 1_000,
            max_age: Some(1_060),
            max_uses: Some(2),
            temporary: false,
            uses: 0,
            guild: GUILD,
            inviter: 7,
        }
    );
    assert_eq!(Invite::from_created(&created("A", 1, 2), i64::MAX), None);
}

#[test]
fn listing_is_converted_item_by_item() {
    let listing = vec![fetched("A", 0, 0, 0, 1), fetched("B", 5, 10, 1, 0)];
    let entries = entries_from_fetched(&listing).unwrap();
    assert_eq!(entries.len(), 2);
    assert_eq!(entries[0].code, "A");
    assert_eq!(entries[0].invite.uses, 1);
    assert_eq!(entries[1].code, "B");
    assert_eq!(entries[1].invite.max_age, Some(15));
    assert_eq!(entries[1].invite.max_uses, Some(1));
    let bad = vec![fetched("A", 0, 0, 0, 1), fetched("B", i64::MAX, 10, 1, 0)];
    assert!(entries_from_fetched(&bad).is_none());
    assert_eq!(entries_from_fetched(&Vec::new()).unwrap().len(), 0);
}
