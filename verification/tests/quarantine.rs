use std::collections::HashMap;

use std::collections::HashSet;

use hugh::config::{
    Config, InviteConfig, MentionConfig, QuarantineConfig, RaidConfig, RoleGuardConfig, SpamConfig,
};
use hugh::quarantine::{
    check_configured_channel, check_configured_role, check_quarantine_role, choose_channel,
    choose_role, cleared_event, plan_restore, quarantine_channel_in_scope, removable_roles, replay,
    QuarantineIds, QuarantineResolver, snapshot_event, ChannelEntry, QuarantineRecords, RecordError, ResourceChoice,
    ResourceError, RoleEntry, StoreEvent,
};

fn journal(records: &mut QuarantineRecords, log: &mut Vec<StoreEvent>, event: Option<StoreEvent>) -> bool {
    match event {
        Some(e) => {
            records.apply_event(&e).unwrap();
            log.push(e);
            true
        }
        None => false,
    }
}

#[test]
fn snapshot_journal_replays_after_restart() {
    let mut records = QuarantineRecords::new();
    let mut log = Vec::new();
    let e = records.prepare_snapshot(7, &[10, 11]);
    assert!(journal(&mut records, &mut log, e));
    let e = records.prepare_snapshot(7, &[99]);
    assert!(!journal(&mut records, &mut log, e));

    let mut reopened = QuarantineRecords::new();
    for e in &log {
        reopened.apply_event(e).unwrap();
    }
    assert_eq!(reopened.get(7), Some(vec![10, 11]));
    let e = reopened.prepare_clear(7);
    assert!(journal(&mut reopened, &mut log, e));
    assert_eq!(reopened.get(7), None);
    assert!(reopened.prepare_clear(7).is_none());
}

#[test]
fn journal_lines_hold_decimal_ids() {
    match snapshot_event(7, &[10, 11]) {
        StoreEvent::Snapshot { user_id, role_ids } => {
            assert_eq!(user_id, "7");
            assert_eq!(role_ids, vec!["10".to_owned(), "11".to_owned()]);
        }
        StoreEvent::Cleared { .. } => panic!("expected a snapshot"),
    }
    match cleared_event(12) {
        StoreEvent::Cleared { user_id } => assert_eq!(user_id, "12"),
        StoreEvent::Snapshot { .. } => panic!("expected a release"),
    }
}

#[test]
fn malformed_journal_lines_are_refused() {
    let mut records = QuarantineRecords::new();
    let bad_user = StoreEvent::Cleared { user_id: "x".into() };
    assert_eq!(records.apply_event(&bad_user), Err(RecordError::InvalidUserId));
    let bad_role = StoreEvent::Snapshot { user_id: "3".into(), role_ids: vec!["4".into(), "-5".into()] };
    assert_eq!(records.apply_event(&bad_role), Err(RecordError::InvalidRoleId));
    assert_eq!(records.get(3), None);
    assert_eq!(RecordError::InvalidRoleId.message(), "invalid role ID");
}

#[test]
fn banish_keeps_managed_missing_and_quarantine_roles() {
    let guild = HashMap::from([(1, false), (2, true), (3, false), (9, false)]);
    assert_eq!(removable_roles(&[1, 2, 3, 4, 9], 9, &guild), vec![1, 3]);
}

#[test]
fn unbanish_sorts_stored_roles() {
    let guild = HashMap::from([(1, false), (2, true), (9, false)]);
    let plan = plan_restore(&[1, 2, 5, 9, 6], 9, &guild);
    assert_eq!(plan.restore, vec![1]);
    assert_eq!(plan.missing, vec![5, 6]);
}

fn role(id: u64, name: &str) -> RoleEntry {
    RoleEntry { id, name: name.to_string() }
}

fn channel(id: u64, name: &str, is_text: bool) -> ChannelEntry {
    ChannelEntry { id, name: name.to_string(), is_text }
}

#[test]
fn configured_quarantine_role_must_exist() {
    let roles = vec![role(3, "Quarantined"), role(8, "Mods")];
    assert_eq!(choose_role(Some(8), "Quarantined", &roles), Ok(ResourceChoice::Existing(8)));
    assert_eq!(choose_role(Some(9), "Quarantined", &roles), Err(ResourceError::RoleMissing));
}

#[test]
fn unconfigured_quarantine_role_is_found_by_name_or_created() {
    let roles = vec![role(30, "Quarantined"), role(12, "Quarantined"), role(4, "quarantined")];
    assert_eq!(choose_role(None, "Quarantined", &roles), Ok(ResourceChoice::Existing(12)));
    assert_eq!(choose_role(None, "Jail", &roles), Ok(ResourceChoice::Create));
    assert_eq!(choose_role(None, "Jail", &[]), Ok(ResourceChoice::Create));
}

#[test]
fn configured_quarantine_channel_must_be_an_existing_text_channel() {
    let channels = vec![channel(5, "quarantine", true), channel(6, "voice", false)];
    assert_eq!(choose_channel(Some(5), "quarantine", &channels), Ok(ResourceChoice::Existing(5)));
    assert_eq!(choose_channel(Some(6), "quarantine", &channels), Err(ResourceError::ChannelNotText));
    assert_eq!(choose_channel(Some(7), "quarantine", &channels), Err(ResourceError::ChannelMissing));
}

#[test]
fn unconfigured_quarantine_channel_is_the_lowest_text_channel_by_name() {
    let channels = vec![
        channel(40, "quarantine", true),
        channel(10, "quarantine", false),
        channel(20, "quarantine", true),
    ];
    assert_eq!(choose_channel(None, "quarantine", &channels), Ok(ResourceChoice::Existing(20)));
    assert_eq!(choose_channel(None, "holding", &channels), Ok(ResourceChoice::Create));
}

#[test]
fn quarantine_role_cannot_be_trusted_or_protected() {
    let mut config = Config {
        guild_id: 1,
        alert_channel_id: 0,
        incident_log_path: "x".into(),
        trusted_user_ids: HashSet::new(),
        trusted_role_ids: HashSet::from([11]),
        mentions: MentionConfig::default(),
        spam: SpamConfig::default(),
        invites: InviteConfig::default(),
        raids: RaidConfig::default(),
        role_guard: RoleGuardConfig::default(),
        quarantine: QuarantineConfig::default(),
    };
    config.role_guard.protected_role_ids = HashSet::from([12]);
    assert_eq!(check_quarantine_role(&config, 13), Ok(13));
    assert_eq!(check_quarantine_role(&config, 11), Err(ResourceError::RoleNotAllowed));
    assert_eq!(check_quarantine_role(&config, 12), Err(ResourceError::RoleNotAllowed));
    assert_eq!(
        ResourceError::ChannelNotText.message(),
        "the configured quarantine channel must be a text channel"
    );
}

#[test]
fn replaying_the_journal_rebuilds_the_records() {
    let journal = vec![
        snapshot_event(10, &[1, 2]),
        snapshot_event(11, &[3]),
        cleared_event(10),
        snapshot_event(12, &[]),
    ];
    let records = replay(&journal).unwrap();
    assert_eq!(records.get(10), None);
    assert_eq!(records.get(11), Some(vec![3]));
    assert_eq!(records.get(12), Some(vec![]));
    assert!(replay(&[]).unwrap().get(10).is_none());
}

#[test]
fn replay_names_the_first_bad_line() {
    let journal = vec![
        snapshot_event(10, &[1]),
        StoreEvent::Cleared { user_id: "x".into() },
        StoreEvent::Snapshot { user_id: "12".into(), role_ids: vec!["y".into()] },
    ];
    assert_eq!(replay(&journal).err(), Some((1, RecordError::InvalidUserId)));
    let journal = vec![StoreEvent::Snapshot { user_id: "12".into(), role_ids: vec!["y".into()] }];
    assert_eq!(replay(&journal).err(), Some((0, RecordError::InvalidRoleId)));
}

#[test]
fn unbanish_gives_back_what_banish_took() {
    let held = vec![5, 6, 7, 8];
    let quarantine = 9;
    // 5 is managed by an integration, 6 and 7 are ordinary roles, 8 is gone.
    let guild: HashMap<u64, bool> = HashMap::from([(5, true), (6, false), (7, false), (9, false)]);
    let removed = removable_roles(&held, quarantine, &guild);
    assert_eq!(removed, vec![6, 7]);
    let mut roles: HashSet<u64> = held.iter().copied().filter(|r| !removed.contains(r)).collect();
    roles.insert(quarantine);

    let mut records = QuarantineRecords::new();
    records.apply_event(&snapshot_event(42, &held)).unwrap();
    let stored = records.get(42).unwrap();
    assert_eq!(stored, held);
    let plan = plan_restore(&stored, quarantine, &guild);
    roles.extend(plan.restore.iter().copied());
    roles.remove(&quarantine);
    assert_eq!(roles, held.iter().copied().collect::<HashSet<u64>>());
    assert_eq!(plan.missing, vec![8]);

    records.apply_event(&cleared_event(42)).unwrap();
    assert_eq!(records.get(42), None);
}

fn quarantine_config() -> Config {
    let mut config = Config {
        guild_id: 1,
        alert_channel_id: 0,
        incident_log_path: "x".into(),
        trusted_user_ids: HashSet::new(),
        trusted_role_ids: HashSet::from([11]),
        mentions: MentionConfig::default(),
        spam: SpamConfig::default(),
        invites: InviteConfig::default(),
        raids: RaidConfig::default(),
        role_guard: RoleGuardConfig::default(),
        quarantine: QuarantineConfig::default(),
    };
    config.quarantine.enabled = true;
    config
}

#[test]
fn the_first_settlement_stands() {
    let config = quarantine_config();
    let mut resolver = QuarantineResolver::new();
    assert_eq!(resolver.cached(), None);
    assert_eq!(resolver.settle(&config, 11, 5), Err(ResourceError::RoleNotAllowed));
    assert_eq!(resolver.cached(), None);
    let first = QuarantineIds { role_id: 12, channel_id: 5 };
    assert_eq!(resolver.settle(&config, 12, 5), Ok(first));
    assert_eq!(resolver.settle(&config, 13, 6), Ok(first));
    assert_eq!(resolver.cached(), Some(first));
}

#[test]
fn configured_resources_must_exist_and_isolation_stays_in_scope() {
    assert_eq!(check_configured_channel(5, &[4, 5]), Ok(()));
    assert_eq!(check_configured_channel(6, &[4, 5]), Err(ResourceError::ChannelMissing));
    assert_eq!(check_configured_role(9, &[9]), Ok(()));
    assert_eq!(check_configured_role(9, &[]), Err(ResourceError::RoleMissing));
    let mut config = quarantine_config();
    assert!(quarantine_channel_in_scope(&config, 1));
    assert!(!quarantine_channel_in_scope(&config, 2));
    config.quarantine.enabled = false;
    assert!(!quarantine_channel_in_scope(&config, 1));
}
