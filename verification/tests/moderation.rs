use std::collections::HashSet;

use hugh::commands::{
    banish_response, incomplete_restore_message, join_ids, lock_response, parse_command,
    unbanish_response, Command,
};
use hugh::config::{
    Config, InviteConfig, MentionConfig, QuarantineConfig, RaidConfig, RoleGuardConfig, SpamConfig,
    YoungAccountAction,
};
use hugh::detection::Violation;
use hugh::moderation::{
    message_action, message_incident, raid_action, reasons_text, respond_to_join, respond_to_message, roles_to_strip,
    timeout_deadline, JoinEvent, MessageEvent, MessageResponse, MAX_TIMEOUT_SECONDS,
};
use hugh::state::SecurityState;

const BOT: u64 = 1000;

fn config() -> Config {
    Config {
        guild_id: 1,
        alert_channel_id: 0,
        incident_log_path: "x".into(),
        trusted_user_ids: HashSet::from([50]),
        trusted_role_ids: HashSet::from([60]),
        mentions: MentionConfig::default(),
        spam: SpamConfig::default(),
        invites: InviteConfig::default(),
        raids: RaidConfig::default(),
        role_guard: RoleGuardConfig::default(),
        quarantine: QuarantineConfig::default(),
    }
}

fn event<'a>(author: u64, roles: &'a [u64], content: &'a str, mentions_bot: bool, everyone: bool) -> MessageEvent<'a> {
    MessageEvent {
        guild_id: Some(1),
        author_id: author,
        author_roles: roles,
        author_is_bot: false,
        from_webhook: false,
        content,
        user_mentions: 0,
        mentions_bot,
        mentioned_roles: &[],
        mention_everyone: everyone,
    }
}

#[test]
fn trusted_authors_bypass_the_guards() {
    let config = config();
    let mut state = SecurityState::new(&config);
    let r = respond_to_message(&mut state, &config, &event(50, &[], "hi", false, true), BOT, 0);
    assert!(matches!(r, MessageResponse::Ignore));
    let r = respond_to_message(&mut state, &config, &event(7, &[60], "hi", true, true), BOT, 0);
    assert!(matches!(r, MessageResponse::Introduce));
}

#[test]
fn own_and_foreign_messages_are_ignored() {
    let config = config();
    let mut state = SecurityState::new(&config);
    let r = respond_to_message(&mut state, &config, &event(BOT, &[], "hi", true, true), BOT, 0);
    assert!(matches!(r, MessageResponse::Ignore));
    let mut e = event(7, &[], "hi", true, true);
    e.guild_id = Some(2);
    assert!(matches!(respond_to_message(&mut state, &config, &e, BOT, 0), MessageResponse::Ignore));
    e.guild_id = None;
    assert!(matches!(respond_to_message(&mut state, &config, &e, BOT, 0), MessageResponse::Ignore));
}

#[test]
fn everyone_mentions_are_enforced_and_bots_are_not_timed_out() {
    let config = config();
    let mut state = SecurityState::new(&config);
    match respond_to_message(&mut state, &config, &event(7, &[], "hello", true, true), BOT, 0) {
        MessageResponse::Enforce { decision, time_out } => {
            assert_eq!(decision.violations, vec![Violation::EveryoneMention]);
            assert_eq!(decision.timeout_seconds, 600);
            assert!(time_out);
        }
        other => panic!("unexpected {other:?}"),
    }
    let mut e = event(8, &[], "hello", false, true);
    e.author_is_bot = true;
    match respond_to_message(&mut state, &config, &e, BOT, 0) {
        MessageResponse::Enforce { time_out, .. } => assert!(!time_out),
        other => panic!("unexpected {other:?}"),
    }
    let clean = event(9, &[], "hello", true, false);
    assert!(matches!(respond_to_message(&mut state, &config, &clean, BOT, 0), MessageResponse::Introduce));
}

#[test]
fn reasons_and_actions_are_named() {
    assert_eq!(reasons_text(&[]), "");
    assert_eq!(
        reasons_text(&[Violation::MassMention, Violation::UnapprovedInvite]),
        "mass_mention,unapproved_invite"
    );
    assert_eq!(message_action(true, None), "message_deleted");
    assert_eq!(message_action(false, None), "delete_failed");
    assert_eq!(message_action(true, Some(true)), "message_deleted_and_member_timed_out");
    assert_eq!(message_action(true, Some(false)), "message_handled_timeout_failed");
    assert_eq!(message_action(false, Some(true)), "delete_failed_member_timed_out");
    assert_eq!(message_action(false, Some(false)), "delete_failed_timeout_failed");
    assert_ne!(message_action(false, Some(true)), message_action(true, Some(true)));
    assert_eq!(raid_action(YoungAccountAction::Kick, true), "kicked");
    assert_eq!(raid_action(YoungAccountAction::Timeout, true), "timed_out");
    assert_eq!(raid_action(YoungAccountAction::Log, true), "logged");
    assert_eq!(raid_action(YoungAccountAction::Kick, false), "enforcement_failed");
}

#[test]
fn timeouts_are_capped_at_28_days() {
    assert_eq!(MAX_TIMEOUT_SECONDS, 28 * 24 * 60 * 60);
    assert_eq!(timeout_deadline(1_000, 60), 1_060);
    assert_eq!(timeout_deadline(0, u64::MAX), 2_419_200);
    assert_eq!(timeout_deadline(i64::MAX - 5, 60), i64::MAX);
}

#[test]
fn young_accounts_meet_the_action_during_a_raid() {
    let mut config = config();
    config.raids.join_threshold = 1;
    config.raids.young_account_action = YoungAccountAction::Kick;
    let mut state = SecurityState::new(&config);
    let join = JoinEvent { guild_id: 1, user_id: 7, account_created_unix: 99_990 };
    let r = respond_to_join(&mut state, &config, &join, BOT, 0, 100_000).unwrap();
    assert!(r.decision.raid_activated);
    assert_eq!(r.announce_raid, Some(1));
    assert_eq!(r.enforce, Some(YoungAccountAction::Kick));
    let trusted = JoinEvent { guild_id: 1, user_id: 50, account_created_unix: 99_990 };
    let again = respond_to_join(&mut state, &config, &trusted, BOT, 1, 100_000).unwrap();
    assert_eq!(again.enforce, None);
    assert_eq!(again.announce_raid, None);
    let old = JoinEvent { guild_id: 1, user_id: 8, account_created_unix: 0 };
    assert_eq!(respond_to_join(&mut state, &config, &old, BOT, 2, 100_000).unwrap().enforce, None);
    let foreign = JoinEvent { guild_id: 2, user_id: 8, account_created_unix: 0 };
    assert!(respond_to_join(&mut state, &config, &foreign, BOT, 3, 100_000).is_none());
}

#[test]
fn role_guard_spares_the_quarantine_role() {
    let mut config = config();
    config.role_guard.enabled = true;
    config.role_guard.protected_role_ids = HashSet::from([7, 8]);
    assert_eq!(roles_to_strip(&config, 1, 3, BOT, &[5, 7, 8], Some(8)), vec![7]);
    assert_eq!(roles_to_strip(&config, 1, 3, BOT, &[5, 7, 8], None), vec![7, 8]);
    assert!(roles_to_strip(&config, 2, 3, BOT, &[7], None).is_empty());
    assert!(roles_to_strip(&config, 1, BOT, BOT, &[7], None).is_empty());
}

#[test]
fn command_texts() {
    assert_eq!(parse_command("lock"), Command::Lock);
    assert_eq!(parse_command("banish"), Command::Banish);
    assert_eq!(parse_command("unbanish"), Command::Unbanish);
    assert_eq!(parse_command("help"), Command::Help);
    assert_eq!(parse_command("hugh"), Command::About);
    assert_eq!(parse_command("Lock"), Command::Unknown);
    assert_eq!(join_ids(&[1, 22, 333]), "1, 22, 333");
    assert_eq!(join_ids(&[]), "");
    assert_eq!(banish_response(5, &[]), "Banished <@5>. Their roles are stored for `/unbanish`.");
    assert_eq!(
        banish_response(5, &[7, 8]),
        "Quarantine was applied to <@5>, but these role IDs could not be removed: `7, 8`. The recovery snapshot was kept."
    );
    assert_eq!(
        unbanish_response(5, 2, &[9]),
        "Released <@5> and restored 2 role(s). Deleted roles skipped: `9`."
    );
    assert_eq!(unbanish_response(5, 0, &[]), "Released <@5> and restored 0 role(s).");
    assert_eq!(
        incomplete_restore_message(&[4]),
        "role restoration is incomplete for IDs `4`; the member remains quarantined and the snapshot was kept"
    );
    assert_eq!(lock_response(42), "Locked <#42>. Existing permission settings were preserved.");
}

#[test]
fn the_message_incident_names_the_outcome_and_not_the_content() {
    let record = message_incident(
        7,
        8,
        9,
        &[Violation::DuplicateSpam, Violation::UnapprovedInvite],
        false,
        Some(true),
    );
    assert_eq!(record.actor_id, 7);
    assert_eq!(record.channel_id, 8);
    assert_eq!(record.message_id, 9);
    assert_eq!(record.action, "delete_failed_member_timed_out");
    assert_eq!(record.reasons, "duplicate_spam,unapproved_invite");
    assert_eq!(
        record.summary,
        "Message guard: user 7 in channel 8 - duplicate_spam,unapproved_invite (delete_failed_member_timed_out)"
    );
}
