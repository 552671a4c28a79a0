use std::collections::HashSet;

use hugh::config::{
    default_incident_path, positive, Config, ConfigError, ConfigField, InviteConfig, MentionConfig,
    QuarantineConfig, RaidConfig, RoleGuardConfig, SpamConfig, YoungAccountAction,
};

fn config() -> Config {
    Config {
        guild_id: 1,
        alert_channel_id: 0,
        incident_log_path: default_incident_path(),
        trusted_user_ids: HashSet::new(),
        trusted_role_ids: HashSet::new(),
        mentions: MentionConfig::default(),
        spam: SpamConfig::default(),
        invites: InviteConfig::default(),
        raids: RaidConfig::default(),
        role_guard: RoleGuardConfig::default(),
        quarantine: QuarantineConfig::default(),
    }
}

#[test]
fn trusted_role_grants_bypass() {
    let mut config = config();
    config.trusted_role_ids = HashSet::from([99]);
    config.role_guard.enabled = false;
    assert!(config.is_trusted(3, &[12, 99]));
    assert!(!config.is_trusted(3, &[12]));
}

#[test]
fn trusted_users_bypass_without_roles() {
    let mut config = config();
    config.trusted_user_ids.insert(3);
    assert!(config.is_trusted(3, &[]));
    assert!(!config.is_trusted(4, &[]));
}

#[test]
fn defaults_are_valid() {
    let config = config();
    assert_eq!(config.validate(), Ok(()));
    assert_eq!(config.incident_log_path, "data/incidents.jsonl");
    assert_eq!(config.mentions.max_total_mentions, 5);
    assert_eq!(config.mentions.protected_role_max_pings, 2);
    assert_eq!(config.spam.max_messages, 7);
    assert_eq!(config.raids.join_threshold, 10);
    assert_eq!(config.raids.young_account_action, YoungAccountAction::Log);
    assert_eq!(config.quarantine.store_path, "data/quarantine.jsonl");
}

#[test]
fn each_rule_reports_its_own_error() {
    let mut c = config();
    c.guild_id = 0;
    assert_eq!(c.validate(), Err(ConfigError::ZeroGuildId));
    assert_eq!(ConfigError::ZeroGuildId.message(), "guild_id must be a non-zero Discord ID");

    let mut c = config();
    c.incident_log_path = " \t".into();
    assert_eq!(c.validate(), Err(ConfigError::EmptyIncidentLogPath));

    let mut c = config();
    c.spam.window_seconds = 0;
    assert_eq!(c.validate(), Err(ConfigError::NotPositive(ConfigField::SpamWindowSeconds)));
    assert_eq!(
        ConfigError::NotPositive(ConfigField::SpamWindowSeconds).message(),
        "spam.window_seconds must be positive"
    );

    let mut c = config();
    c.raids.minimum_account_age_seconds = -1;
    assert_eq!(c.validate(), Err(ConfigError::NegativeMinimumAccountAge));

    let mut c = config();
    c.role_guard.enabled = true;
    assert_eq!(c.validate(), Err(ConfigError::EmptyRoleGuard));

    let mut c = config();
    c.mentions.max_total_mentions = 0;
    assert_eq!(c.validate(), Err(ConfigError::ZeroMaxTotalMentions));
    c.mentions.enabled = false;
    assert_eq!(c.validate(), Ok(()));

    let mut c = config();
    c.quarantine.enabled = true;
    c.quarantine.channel_id = Some(5);
    assert_eq!(c.validate(), Err(ConfigError::MissingQuarantineIds));
    c.quarantine.role_id = Some(6);
    assert_eq!(c.validate(), Ok(()));
    c.quarantine.store_path = "".into();
    assert_eq!(c.validate(), Err(ConfigError::EmptyQuarantineStorePath));
    c.quarantine.store_path = "q.jsonl".into();
    c.trusted_role_ids.insert(6);
    assert_eq!(c.validate(), Err(ConfigError::QuarantineRoleTrustedOrProtected));
}

#[test]
fn the_first_broken_rule_is_reported() {
    let mut c = config();
    c.mentions.timeout_seconds = 0;
    c.raids.timeout_seconds = 0;
    assert_eq!(c.validate(), Err(ConfigError::NotPositive(ConfigField::MentionsTimeoutSeconds)));
}

#[test]
fn positive_refuses_zero() {
    assert_eq!(positive(ConfigField::RaidsJoinThreshold, 0), Err(ConfigError::NotPositive(ConfigField::RaidsJoinThreshold)));
    assert_eq!(positive(ConfigField::RaidsJoinThreshold, 1), Ok(()));
}
