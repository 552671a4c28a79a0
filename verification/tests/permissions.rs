use std::collections::HashSet;

use hugh::config::{Config, InviteConfig, MentionConfig, QuarantineConfig, RaidConfig, RoleGuardConfig, SpamConfig};
use hugh::permissions::{
    banish_isolation_edits, isolation_edits, merged_overwrite, overwrite_for, permits_command,
    quarantine_is_already_hidden, Overwrite, OverwriteEdit, OverwriteTarget, ADMINISTRATOR,
    ATTACH_FILES, MANAGE_CHANNELS, MANAGE_MESSAGES, MANAGE_ROLES, MODERATE_MEMBERS,
    READ_MESSAGE_HISTORY, SEND_MESSAGES, VIEW_CHANNEL,
};

fn has(bits: u64, flag: u64) -> bool {
    bits & flag == flag
}

#[test]
fn merging_overwrite_preserves_unrelated_permissions() {
    let kind = OverwriteTarget::Role(7);
    let existing = Overwrite {
        allow: ATTACH_FILES | SEND_MESSAGES,
        deny: MANAGE_MESSAGES,
        target: kind,
    };
    let merged = merged_overwrite(Some(&existing), kind, VIEW_CHANNEL, SEND_MESSAGES);

    assert!(has(merged.allow, ATTACH_FILES));
    assert!(has(merged.allow, VIEW_CHANNEL));
    assert!(!has(merged.allow, SEND_MESSAGES));
    assert!(has(merged.deny, MANAGE_MESSAGES));
    assert!(has(merged.deny, SEND_MESSAGES));
    assert!(!has(merged.deny, VIEW_CHANNEL));
}

#[test]
fn private_everyone_overwrite_already_hides_quarantine() {
    let overwrites = [Overwrite {
        allow: 0,
        deny: VIEW_CHANNEL,
        target: OverwriteTarget::Role(1),
    }];
    assert!(quarantine_is_already_hidden(&overwrites, 1, 2));
}

#[test]
fn quarantine_allow_must_be_repaired_even_when_everyone_is_denied() {
    let overwrites = [
        Overwrite {
            allow: 0,
            deny: VIEW_CHANNEL,
            target: OverwriteTarget::Role(1),
        },
        Overwrite {
            allow: VIEW_CHANNEL,
            deny: 0,
            target: OverwriteTarget::Role(2),
        },
    ];
    assert!(!quarantine_is_already_hidden(&overwrites, 1, 2));
}

#[test]
fn quarantine_deny_hides_even_when_everyone_may_view() {
    let overwrites = [
        Overwrite { allow: VIEW_CHANNEL, deny: 0, target: OverwriteTarget::Role(1) },
        Overwrite { allow: 0, deny: VIEW_CHANNEL, target: OverwriteTarget::Role(2) },
    ];
    assert!(quarantine_is_already_hidden(&overwrites, 1, 2));
    assert!(!quarantine_is_already_hidden(&[], 1, 2));
    let member_only = [Overwrite { allow: 0, deny: VIEW_CHANNEL, target: OverwriteTarget::Member(2) }];
    assert!(!quarantine_is_already_hidden(&member_only, 1, 2));
}

#[test]
fn overwrite_for_starts_from_the_matching_entry() {
    let overwrites = [
        Overwrite { allow: ATTACH_FILES, deny: 0, target: OverwriteTarget::Member(9) },
        Overwrite { allow: SEND_MESSAGES, deny: MANAGE_MESSAGES, target: OverwriteTarget::Role(9) },
    ];
    let o = overwrite_for(&overwrites, OverwriteTarget::Role(9), VIEW_CHANNEL, SEND_MESSAGES);
    assert_eq!(o.allow, VIEW_CHANNEL);
    assert_eq!(o.deny, MANAGE_MESSAGES | SEND_MESSAGES);
    assert_eq!(o.target, OverwriteTarget::Role(9));
    let fresh = overwrite_for(&overwrites, OverwriteTarget::Role(3), 0, VIEW_CHANNEL);
    assert_eq!((fresh.allow, fresh.deny), (0, VIEW_CHANNEL));
}

fn config() -> Config {
    Config {
        guild_id: 1,
        alert_channel_id: 0,
        incident_log_path: "x".into(),
        trusted_user_ids: HashSet::from([5]),
        trusted_role_ids: HashSet::new(),
        mentions: MentionConfig::default(),
        spam: SpamConfig::default(),
        invites: InviteConfig::default(),
        raids: RaidConfig::default(),
        role_guard: RoleGuardConfig::default(),
        quarantine: QuarantineConfig::default(),
    }
}

#[test]
fn commands_need_every_required_permission() {
    let config = config();
    let needed = MANAGE_ROLES | MODERATE_MEMBERS;
    assert!(permits_command(&config, 5, None, needed));
    assert!(permits_command(&config, 6, Some(ADMINISTRATOR), needed));
    assert!(permits_command(&config, 6, Some(needed | VIEW_CHANNEL), needed));
    assert!(!permits_command(&config, 6, Some(MANAGE_ROLES), needed));
    assert!(!permits_command(&config, 6, None, MANAGE_CHANNELS));
}

#[test]
fn quarantine_channel_grants_the_bot_access_before_hiding() {
    let access = VIEW_CHANNEL | SEND_MESSAGES | READ_MESSAGE_HISTORY;
    let edits = isolation_edits(&[], 50, 50, 1, 9, 77);
    assert_eq!(
        edits,
        vec![
            OverwriteEdit { target: OverwriteTarget::Member(77), allow: access | MANAGE_CHANNELS | MANAGE_ROLES, deny: 0 },
            OverwriteEdit { target: OverwriteTarget::Role(1), allow: 0, deny: VIEW_CHANNEL },
            OverwriteEdit { target: OverwriteTarget::Role(9), allow: access, deny: 0 },
        ]
    );
}

#[test]
fn other_channels_are_hidden_only_when_needed() {
    let hidden = [Overwrite { target: OverwriteTarget::Role(9), allow: 0, deny: VIEW_CHANNEL }];
    assert!(isolation_edits(&hidden, 51, 50, 1, 9, 77).is_empty());
    let open = [Overwrite { target: OverwriteTarget::Role(9), allow: VIEW_CHANNEL, deny: 0 }];
    assert_eq!(
        isolation_edits(&open, 51, 50, 1, 9, 77),
        vec![OverwriteEdit { target: OverwriteTarget::Role(9), allow: 0, deny: VIEW_CHANNEL }]
    );
    let written = overwrite_for(&open, OverwriteTarget::Role(9), 0, VIEW_CHANNEL);
    assert!(has(written.deny, VIEW_CHANNEL));
    assert!(!has(written.allow, VIEW_CHANNEL));
}

#[test]
fn banish_always_rewrites_isolation() {
    let access = VIEW_CHANNEL | SEND_MESSAGES | READ_MESSAGE_HISTORY;
    assert_eq!(
        banish_isolation_edits(50, 50, 1, 9, 77),
        vec![
            OverwriteEdit { target: OverwriteTarget::Role(1), allow: 0, deny: VIEW_CHANNEL },
            OverwriteEdit { target: OverwriteTarget::Role(9), allow: access, deny: 0 },
            OverwriteEdit { target: OverwriteTarget::Member(77), allow: access, deny: 0 },
        ]
    );
    assert_eq!(
        banish_isolation_edits(51, 50, 1, 9, 77),
        vec![OverwriteEdit { target: OverwriteTarget::Role(9), allow: 0, deny: VIEW_CHANNEL }]
    );
}
