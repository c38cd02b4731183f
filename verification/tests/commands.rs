use invite_tracker::commands::{
    autocomplete_invite, autocomplete_member, codes_created_by, delete_failed_reply, list, list_invites,
    local_codes, query_invites, revocation_kick_reason, revoke, revoked_all_reply, revoked_one_reply,
    revokes_named_invite, CommandError, Listing,
};
use invite_tracker::invite::Invite;
use invite_tracker::snapshot::{GuildInvites, InviteEntry};
use invite_tracker::store::InviteStore;
use invite_tracker::table::{codes_fit_table, generate_invite_table, strip, time_left, MAX_CELL_CHARS};
use invite_tracker::text::{push_signed_decimal, to_decimal};

const GUILD: u64 = 9;

fn invite(inviter: u64, uses: u64, max_uses: Option<u64>, max_age: Option<i64>) -> Invite {
    Invite { created_at: 0, max_age, max_uses, temporary: false, uses, guild: GUILD, inviter }
}

fn entry(code: &str, inviter: u64, uses: u64, max_uses: Option<u64>, max_age: Option<i64>) -> InviteEntry {
    InviteEntry { code: code.to_string(), invite: invite(inviter, uses, max_uses, max_age) }
}

fn store() -> InviteStore {
    let mut store = InviteStore::new();
    store.replace_guild(
        GUILD,
        GuildInvites::from_entries(&vec![
            entry("alpha", 1, 0, None, None),
            entry("beta", 2, 3, Some(5), None),
            entry("alps", 1, 7, None, Some(1_000)),
        ]),
    );
    store
}

fn sorted(mut codes: Vec<String>) -> Vec<String> {
    codes.sort();
    codes
}

#[test]
fn list_without_member_shows_own_invites() {
    assert_eq!(list(5, None, false), Ok(Listing { user: 5, display_inviter: false }));
    assert_eq!(list(5, None, true), Ok(Listing { user: 5, display_inviter: false }));
}

#[test]
fn list_of_oneself_by_name_is_allowed() {
    assert_eq!(list(5, Some(5), false), Ok(Listing { user: 5, display_inviter: true }));
}

#[test]
fn list_of_another_member_takes_permission() {
    assert_eq!(list(5, Some(6), true), Ok(Listing { user: 6, display_inviter: true }));
    assert_eq!(list(5, Some(6), false), Err(CommandError::ListDenied));
}

#[test]
fn command_errors_have_their_texts() {
    assert_eq!(
        CommandError::ListDenied.message(),
        "You don't have the permission to list invites of other members."
    );
    assert_eq!(
        CommandError::RevokeDenied.message(),
        "You don't have the permission to revoke the invites of other members"
    );
    assert_eq!(CommandError::NothingToList.message(), "No invites stored for this guild.");
    assert_eq!(CommandError::NothingToRevoke.message(), "No invites stored for this guild");
    assert_eq!(CommandError::CodeTooLong.message(), "An invite code is too long to be listed.");
}

#[test]
fn query_without_filter_returns_every_invite_once() {
    let listing = query_invites(&store(), GUILD, None).unwrap();
    let codes = sorted(listing.iter().map(|e| e.code.clone()).collect());
    assert_eq!(codes, vec!["alpha".to_string(), "alps".to_string(), "beta".to_string()]);
    let beta = listing.iter().find(|e| e.code == "beta").unwrap();
    assert_eq!(beta.invite, invite(2, 3, Some(5), None));
}

#[test]
fn query_with_filter_returns_that_inviters_invites() {
    let listing = query_invites(&store(), GUILD, Some(1)).unwrap();
    let codes = sorted(listing.iter().map(|e| e.code.clone()).collect());
    assert_eq!(codes, vec!["alpha".to_string(), "alps".to_string()]);
    assert!(query_invites(&store(), GUILD, Some(3)).unwrap().is_empty());
}

#[test]
fn query_of_unknown_guild_is_a_miss() {
    assert!(query_invites(&store(), GUILD + 1, None).is_none());
    assert!(codes_created_by(&store(), GUILD + 1, 1).is_none());
}

#[test]
fn revoke_of_another_member_takes_permission() {
    assert_eq!(
        revoke(&store(), GUILD, 1, false, None, Some(2)),
        Err(CommandError::RevokeDenied)
    );
    assert_eq!(
        revoke(&store(), GUILD, 1, false, Some("beta".to_string()), Some(2)),
        Err(CommandError::RevokeDenied)
    );
    assert_eq!(revoke(&store(), GUILD, 1, true, None, Some(2)), Ok(vec!["beta".to_string()]));
}

#[test]
fn revoke_with_member_ignores_the_code() {
    let codes = revoke(&store(), GUILD, 2, true, Some("beta".to_string()), Some(1)).unwrap();
    assert_eq!(sorted(codes), vec!["alpha".to_string(), "alps".to_string()]);
}

#[test]
fn revoke_with_code_selects_that_invite() {
    assert_eq!(
        revoke(&store(), GUILD, 1, false, Some("whatever".to_string()), None),
        Ok(vec!["whatever".to_string()])
    );
    assert_eq!(
        revoke(&InviteStore::new(), GUILD, 1, false, Some("whatever".to_string()), None),
        Ok(vec!["whatever".to_string()])
    );
}

#[test]
fn revoke_without_code_selects_all_own_invites() {
    let codes = revoke(&store(), GUILD, 1, false, None, None).unwrap();
    assert_eq!(sorted(codes), vec!["alpha".to_string(), "alps".to_string()]);
    assert_eq!(revoke(&store(), GUILD, 3, false, None, None), Ok(Vec::new()));
}

#[test]
fn revoke_in_unknown_guild_has_nothing_to_revoke() {
    assert_eq!(
        revoke(&InviteStore::new(), GUILD, 1, false, None, None),
        Err(CommandError::NothingToRevoke)
    );
    assert_eq!(
        revoke(&InviteStore::new(), GUILD, 1, true, None, Some(2)),
        Err(CommandError::NothingToRevoke)
    );
}

#[test]
fn revoked_invite_is_dropped_eagerly_and_later_delete_is_a_no_op() {
    let mut store = store();
    assert!(store.remove(GUILD, &"beta".to_string()));
    assert!(!store.get_snapshot(GUILD).unwrap().contains(&"beta".to_string()));
    let event = invite_tracker::invite::InviteDeleted { code: "beta".to_string(), guild: GUILD };
    assert!(store.invite_deleted(&event).is_err());
    assert_eq!(store.get_snapshot(GUILD).unwrap().len(), 2);
}

#[test]
fn revoke_replies_have_their_texts() {
    assert_eq!(revoked_all_reply(0), "No invites revoked.");
    assert_eq!(revoked_all_reply(1), "Revoked 1 invites.");
    assert_eq!(revoked_all_reply(12), "Revoked 12 invites.");
    assert_eq!(revoked_one_reply("abc"), "Successfully revoked invite `abc`.");
    assert_eq!(delete_failed_reply("abc"), "Failed to delete invite abc");
    assert_eq!(
        revocation_kick_reason("mod", 42, 1234567890),
        "Invite revoked by mod#42 (1234567890)"
    );
}

#[test]
fn autocomplete_member_is_the_chosen_one_only_for_the_privileged() {
    assert_eq!(autocomplete_member(true, Some("77".to_string()), 5), "77");
    assert_eq!(autocomplete_member(true, None, 5), "5");
    assert_eq!(autocomplete_member(false, Some("77".to_string()), 5), "5");
    assert_eq!(autocomplete_member(false, None, 18446744073709551615), "18446744073709551615");
}

#[test]
fn local_codes_match_the_inviter_written_as_text() {
    assert_eq!(
        sorted(local_codes(&store(), GUILD, &"1".to_string()).unwrap()),
        vec!["alpha".to_string(), "alps".to_string()]
    );
    assert_eq!(local_codes(&store(), GUILD, &"2".to_string()).unwrap(), vec!["beta".to_string()]);
    assert!(local_codes(&store(), GUILD, &"01".to_string()).unwrap().is_empty());
    assert!(local_codes(&store(), GUILD, &"someone".to_string()).unwrap().is_empty());
    assert!(local_codes(&store(), GUILD + 1, &"1".to_string()).is_none());
}

#[test]
fn autocomplete_offers_local_codes_first_then_unknown_stored_ones() {
    let local = vec!["alpha".to_string(), "alps".to_string(), "beta".to_string()];
    let stored = vec!["alt".to_string(), "alpha".to_string(), "gamma".to_string(), "al".to_string()];
    assert_eq!(
        autocomplete_invite(&local, &stored, "al"),
        vec!["alpha".to_string(), "alps".to_string(), "alt".to_string(), "al".to_string()]
    );
    assert_eq!(
        autocomplete_invite(&local, &stored, ""),
        vec![
            "alpha".to_string(),
            "alps".to_string(),
            "beta".to_string(),
            "alt".to_string(),
            "gamma".to_string(),
            "al".to_string()
        ]
    );
    assert_eq!(autocomplete_invite(&local, &stored, "alphabet"), Vec::<String>::new());
    assert_eq!(autocomplete_invite(&local, &stored, "g"), vec!["gamma".to_string()]);
    assert_eq!(autocomplete_invite(&Vec::new(), &Vec::new(), "x"), Vec::<String>::new());
}

#[test]
fn decimal_text_of_numbers() {
    assert_eq!(to_decimal(0), "0");
    assert_eq!(to_decimal(7), "7");
    assert_eq!(to_decimal(10), "10");
    assert_eq!(to_decimal(1234567890), "1234567890");
    assert_eq!(to_decimal(u64::MAX), "18446744073709551615");
    let mut text = "x=".to_string();
    push_signed_decimal(&mut text, -45);
    push_signed_decimal(&mut text, 0);
    push_signed_decimal(&mut text, i64::MIN);
    push_signed_decimal(&mut text, i64::MAX);
    assert_eq!(text, "x=-450-92233720368547758089223372036854775807");
}

#[test]
fn strip_drops_spaces_at_both_ends_only() {
    assert_eq!(strip("  a  b "), "a  b");
    assert_eq!(strip("ab"), "ab");
    assert_eq!(strip("   "), "");
    assert_eq!(strip(""), "");
    assert_eq!(strip(" \tx "), "\tx");
}

#[test]
fn time_left_is_written_in_days_hours_minutes_seconds() {
    assert_eq!(time_left(604_798, 0), "6d 23h 59min 58s");
    assert_eq!(time_left(86_400, 0), "1d");
    assert_eq!(time_left(86_700, 0), "1d  5min");
    assert_eq!(time_left(3_601, 0), "1h  1s");
    assert_eq!(time_left(59, 0), "59s");
    assert_eq!(time_left(100, 100), "");
    assert_eq!(time_left(0, 90_061), "-1d -1h -1min -1s");
    assert_eq!(time_left(0, 60), "-1min");
    assert_eq!(time_left(i64::MAX, i64::MIN), "213503982334601d 7h  15s");
}

#[test]
fn empty_listing_is_a_sentence() {
    assert_eq!(generate_invite_table(&Vec::new(), false, 5, 0), "You have no invites in this guild.");
    assert_eq!(generate_invite_table(&Vec::new(), true, 5, 0), "<@5> has no invites in this guild.");
}

#[test]
fn listing_is_rendered_as_a_table_in_a_code_block() {
    let invites = vec![entry("abc", 1, 3, Some(5), None), entry("defghijk", 22, 0, None, Some(3_700))];
    assert_eq!(
        generate_invite_table(&invites, false, 1, 100),
        "```\n Invite    Uses  Expires \n abc       3/5   \u{221E}       \n defghijk  0/\u{221E}   1h      \n```"
    );
    assert_eq!(
        generate_invite_table(&invites, true, 1, 100),
        "```\n Inviter  Invite    Uses  Expires \n 1        abc       3/5   \u{221E}       \n 22       defghijk  0/\u{221E}   1h      \n```"
    );
}

#[test]
fn list_invites_answers_with_the_members_table() {
    let text = list_invites(&store(), GUILD, 2, false, 0).unwrap();
    assert_eq!(text, "```\n Invite  Uses  Expires \n beta    3/5   \u{221E}       \n```");
    assert_eq!(list_invites(&store(), GUILD, 3, true, 0).unwrap(), "<@3> has no invites in this guild.");
    assert_eq!(list_invites(&store(), GUILD + 1, 2, false, 0), Err(CommandError::NothingToList));
}

#[test]
fn list_invites_refuses_a_code_too_long_for_a_table() {
    let mut store = store();
    let long = "x".repeat(MAX_CELL_CHARS + 1);
    store.insert(GUILD, long.clone(), invite(2, 0, None, None));
    assert_eq!(list_invites(&store, GUILD, 2, false, 0), Err(CommandError::CodeTooLong));
    assert!(list_invites(&store, GUILD, 1, false, 0).is_ok());
    assert!(!codes_fit_table(&vec![InviteEntry { code: long, invite: invite(2, 0, None, None) }]));
    let fits = "x".repeat(MAX_CELL_CHARS);
    assert!(codes_fit_table(&vec![InviteEntry { code: fits, invite: invite(2, 0, None, None) }]));
}

#[test]
fn revoke_names_one_invite_only_with_a_code_and_without_a_member() {
    assert!(revokes_named_invite(&Some("abc".to_string()), None));
    assert!(!revokes_named_invite(&Some("abc".to_string()), Some(7)));
    assert!(!revokes_named_invite(&None, None));
    assert!(!revokes_named_invite(&None, Some(7)));
}

#[test]
fn completion_compares_whole_characters() {
    let local = vec!["\u{e9}t\u{e9}".to_string(), "e".to_string(), "\u{e9}".to_string()];
    assert_eq!(
        autocomplete_invite(&local, &Vec::new(), "\u{e9}"),
        vec!["\u{e9}t\u{e9}".to_string(), "\u{e9}".to_string()]
    );
    assert_eq!(autocomplete_invite(&local, &Vec::new(), "\u{e9}t\u{e9}s"), Vec::<String>::new());
}

#[test]
fn widest_cells_that_fit_are_rendered() {
    let code = "\u{17D8}".repeat(MAX_CELL_CHARS);
    let invites = vec![InviteEntry { code: code.clone(), invite: invite(2, 0, None, None) }];
    assert!(codes_fit_table(&invites));
    let text = generate_invite_table(&invites, false, 2, 0);
    assert!(text.starts_with("```\n Invite"));
    assert!(text.contains(&code));
}
