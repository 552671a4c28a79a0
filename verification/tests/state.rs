use std::collections::HashSet;

use hugh::config::{
    Config, InviteConfig, MentionConfig, QuarantineConfig, RaidConfig, RoleGuardConfig, SpamConfig,
    YoungAccountAction,
};
use hugh::detection::Violation;
use hugh::state::{MessageInput, SecurityState};

const SECOND: u64 = 1_000_000_000;

fn config() -> Config {
    Config {
        guild_id: 1,
        alert_channel_id: 2,
        incident_log_path: "ignored".into(),
        trusted_user_ids: HashSet::new(),
        trusted_role_ids: HashSet::new(),
        mentions: MentionConfig::default(),
        spam: SpamConfig::default(),
        invites: InviteConfig::default(),
        raids: RaidConfig::default(),
        role_guard: RoleGuardConfig::default(),
        quarantine: QuarantineConfig::default(),
    }
}

fn input<'a>(content: &'a str, roles: &'a [u64]) -> MessageInput<'a> {
    MessageInput {
        user_id: 3,
        content,
        total_mentions: roles.len(),
        everyone_mentions: 0,
        mentioned_roles: roles,
    }
}

#[test]
fn third_staff_ping_is_blocked() {
    let mut config = config();
    config.mentions.protected_role_ids.insert(9);
    config.spam.enabled = false;
    let mut state = SecurityState::new(&config);
    let start = 5 * SECOND;
    let input = MessageInput {
        user_id: 3,
        content: "hello",
        total_mentions: 1,
        everyone_mentions: 0,
        mentioned_roles: &[9],
    };
    assert!(!state.inspect_message(&input, &config, start).should_delete());
    assert!(!state.inspect_message(&input, &config, start + SECOND).should_delete());
    assert_eq!(
        state.inspect_message(&input, &config, start + 2 * SECOND).violations,
        vec![Violation::ProtectedRolePing]
    );
}

#[test]
fn raid_activates_at_threshold() {
    let mut config = config();
    config.raids = RaidConfig {
        join_threshold: 3,
        ..RaidConfig::default()
    };
    config.raids.young_account_action = YoungAccountAction::Log;
    let mut state = SecurityState::new(&config);
    let start = 5 * SECOND;
    for offset in 0..2 {
        assert!(!state.inspect_join(&config, start + offset * SECOND, 100_000, 0).raid_active);
    }
    let result = state.inspect_join(&config, start + 2 * SECOND, 100_000, 99_999);
    assert!(result.raid_active);
    assert!(result.raid_activated);
    assert!(result.young_account);
}

#[test]
fn staff_pings_expire_after_the_window() {
    let mut config = config();
    config.mentions.protected_role_ids.insert(9);
    config.spam.enabled = false;
    let mut state = SecurityState::new(&config);
    let roles = [9];
    let i = input("hi", &roles);
    assert!(!state.inspect_message(&i, &config, 0).should_delete());
    assert!(!state.inspect_message(&i, &config, SECOND).should_delete());
    // The window is 20 seconds; the first ping is now more than 20 seconds old.
    assert!(!state.inspect_message(&i, &config, 21 * SECOND).should_delete());
    // Exactly at the window's edge an entry still counts.
    assert!(state.inspect_message(&i, &config, 21 * SECOND).should_delete());
}

#[test]
fn flood_is_flagged_one_over_the_limit() {
    let config = config();
    let mut state = SecurityState::new(&config);
    for n in 0..7u64 {
        let text = format!("message {n}");
        let d = state.inspect_message(&input(&text, &[]), &config, n * SECOND / 10);
        assert!(d.violations.is_empty());
    }
    let d = state.inspect_message(&input("one more", &[]), &config, SECOND);
    assert_eq!(d.violations, vec![Violation::MessageFlood]);
    assert_eq!(d.timeout_seconds, 300);
}

#[test]
fn repeats_ignore_case_and_surrounding_white_space() {
    let config = config();
    let mut state = SecurityState::new(&config);
    let t = 10 * SECOND;
    assert!(state.inspect_message(&input("Buy now", &[]), &config, t).violations.is_empty());
    assert!(state.inspect_message(&input("  BUY NOW", &[]), &config, t + SECOND).violations.is_empty());
    assert!(state.inspect_message(&input("buy now\n", &[]), &config, t + 2 * SECOND).violations.is_empty());
    assert_eq!(
        state.inspect_message(&input("\tbuy NOW ", &[]), &config, t + 3 * SECOND).violations,
        vec![Violation::DuplicateSpam]
    );
}

#[test]
fn blank_messages_are_not_repeats() {
    let config = config();
    let mut state = SecurityState::new(&config);
    for n in 0..5u64 {
        let d = state.inspect_message(&input("   ", &[]), &config, n * 3 * SECOND);
        assert!(d.violations.is_empty());
    }
}

#[test]
fn mention_violations_take_the_mention_timeout() {
    let config = config();
    let mut state = SecurityState::new(&config);
    let i = MessageInput {
        user_id: 4,
        content: "hey",
        total_mentions: 6,
        everyone_mentions: 1,
        mentioned_roles: &[],
    };
    let d = state.inspect_message(&i, &config, 0);
    assert_eq!(d.violations, vec![Violation::MassMention, Violation::EveryoneMention]);
    assert_eq!(d.timeout_seconds, 600);
}

#[test]
fn invites_take_the_longest_timeout() {
    let mut config = config();
    config.invites.enabled = true;
    config.invites.timeout_seconds = 900;
    let mut state = SecurityState::new(&config);
    let i = MessageInput {
        user_id: 4,
        content: "discord.gg/raid",
        total_mentions: 6,
        everyone_mentions: 0,
        mentioned_roles: &[],
    };
    let d = state.inspect_message(&i, &config, 0);
    assert_eq!(d.violations, vec![Violation::MassMention, Violation::UnapprovedInvite]);
    assert_eq!(d.timeout_seconds, 900);
}

#[test]
fn disabled_guards_flag_nothing() {
    let mut config = config();
    config.mentions.enabled = false;
    config.spam.enabled = false;
    config.invites.enabled = false;
    let mut state = SecurityState::new(&config);
    let i = MessageInput {
        user_id: 4,
        content: "discord.gg/raid",
        total_mentions: 60,
        everyone_mentions: 1,
        mentioned_roles: &[],
    };
    for n in 0..20u64 {
        assert!(!state.inspect_message(&i, &config, n).should_delete());
    }
}

#[test]
fn disabled_raid_guard_reports_only_age() {
    let mut config = config();
    config.raids.enabled = false;
    let mut state = SecurityState::new(&config);
    let d = state.inspect_join(&config, 0, 100, 250);
    assert!(!d.raid_active && !d.raid_activated && !d.young_account);
    assert_eq!(d.join_count, 0);
    assert_eq!(d.account_age_seconds, 0);
}

#[test]
fn raid_mode_lasts_and_ends() {
    let mut config = config();
    config.raids.join_threshold = 2;
    config.raids.join_window_seconds = 10;
    config.raids.raid_mode_seconds = 60;
    let mut state = SecurityState::new(&config);
    assert!(!state.inspect_join(&config, 0, 1_000_000, 0).raid_active);
    let d = state.inspect_join(&config, SECOND, 1_000_000, 0);
    assert!(d.raid_active && d.raid_activated);
    assert_eq!(d.join_count, 2);
    let d = state.inspect_join(&config, 30 * SECOND, 1_000_000, 0);
    assert!(d.raid_active && !d.raid_activated);
    assert_eq!(d.join_count, 1);
    let d = state.inspect_join(&config, 62 * SECOND, 1_000_000, 0);
    assert!(!d.raid_active);
}

#[test]
fn account_age_saturates() {
    let config = config();
    let mut state = SecurityState::new(&config);
    let d = state.inspect_join(&config, 0, i64::MAX, i64::MIN);
    assert_eq!(d.account_age_seconds, i64::MAX);
    assert!(!d.young_account);
}

#[test]
fn join_history_counts_the_window_and_tracks_running_raids() {
    let mut config = config();
    config.raids = RaidConfig {
        join_threshold: 3,
        join_window_seconds: 10,
        raid_mode_seconds: 30,
        ..RaidConfig::default()
    };
    let mut state = SecurityState::new(&config);
    // Times in seconds; the window is 10 s and a raid runs for 30 s.
    let history: [(u64, usize, bool, bool); 7] = [
        (0, 1, false, false),
        (5, 2, false, false),
        (9, 3, true, true),   // threshold reached: a new raid
        (12, 3, true, false), // still three in the window: extended, not new
        (30, 1, true, false), // below the threshold, but the raid from 12 s runs until 42 s
        (41, 1, true, false),
        (43, 2, false, false), // the last raid ended at 42 s
    ];
    for (at, count, active, activated) in history {
        let d = state.inspect_join(&config, at * SECOND, 1_000_000, 0);
        assert_eq!(d.join_count, count, "join count at {at} s");
        assert_eq!(d.raid_active, active, "raid mode at {at} s");
        assert_eq!(d.raid_activated, activated, "new raid at {at} s");
    }
}

#[test]
fn other_users_and_eviction_do_not_change_a_users_verdicts() {
    let config = config();
    let mut alone = SecurityState::new(&config);
    let mut busy = SecurityState::new(&config);
    let message = |user_id: u64, content: &'static str| MessageInput {
        user_id,
        content,
        total_mentions: 0,
        everyone_mentions: 0,
        mentioned_roles: &[],
    };
    let mut now = 0;
    for round in 0..8u64 {
        // Other users keep the busy state counting, past an eviction pass.
        for other in 0..100u64 {
            now += SECOND / 100;
            busy.inspect_message(&message(100 + other, "hello there"), &config, now);
        }
        now += if round == 4 { 10_000 * SECOND } else { SECOND };
        let a = alone.inspect_message(&message(3, "same text"), &config, now);
        let b = busy.inspect_message(&message(3, "same text"), &config, now);
        assert_eq!(a.violations, b.violations, "round {round}");
        assert_eq!(a.timeout_seconds, b.timeout_seconds, "round {round}");
    }
}

#[test]
fn repeats_ignore_case_outside_ascii_too() {
    let config = config();
    let mut state = SecurityState::new(&config);
    let t = 50 * SECOND;
    assert!(state.inspect_message(&input("ÜBER ALLES", &[]), &config, t).violations.is_empty());
    assert!(state.inspect_message(&input("über alles", &[]), &config, t + SECOND).violations.is_empty());
    assert!(state.inspect_message(&input(" Über Alles ", &[]), &config, t + 2 * SECOND).violations.is_empty());
    assert_eq!(
        state.inspect_message(&input("üBER aLLES", &[]), &config, t + 3 * SECOND).violations,
        vec![Violation::DuplicateSpam]
    );
}
