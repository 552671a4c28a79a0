use std::collections::HashSet;

use vstd::prelude::*;

use crate::text::{chars_of, trim_chars, trimmed};

verus! {

broadcast use vstd::std_specs::hash::group_hash_axioms;

/// Mention limits and the rate limit on pings of protected staff roles.
#[derive(Debug)]
pub struct MentionConfig {
    pub enabled: bool,
    pub max_total_mentions: usize,
    pub max_everyone_mentions: usize,
    pub protected_role_ids: HashSet<u64>,
    pub protected_role_max_pings: usize,
    pub protected_role_window_seconds: u64,
    pub timeout_seconds: u64,
}

impl Default for MentionConfig {
    fn default() -> (r: Self)
        ensures
            r.enabled,
            r.max_total_mentions == 5,
            r.max_everyone_mentions == 0,
            r.protected_role_ids@ == Set::<u64>::empty(),
            r.protected_role_max_pings == 2,
            r.protected_role_window_seconds == 20,
            r.timeout_seconds == 600,
    {
        MentionConfig {
            enabled: true,
            max_total_mentions: 5,
            max_everyone_mentions: 0,
            protected_role_ids: HashSet::new(),
            protected_role_max_pings: 2,
            protected_role_window_seconds: 20,
            timeout_seconds: 600,
        }
    }
}

/// Per-user flood and repeated-message limits.
#[derive(Debug, Clone, Copy)]
pub struct SpamConfig {
    pub enabled: bool,
    pub max_messages: usize,
    pub window_seconds: u64,
    pub max_duplicates: usize,
    pub duplicate_window_seconds: u64,
    pub timeout_seconds: u64,
}

impl Default for SpamConfig {
    fn default() -> (r: Self)
        ensures
            r.enabled,
            r.max_messages == 7,
            r.window_seconds == 8,
            r.max_duplicates == 3,
            r.duplicate_window_seconds == 30,
            r.timeout_seconds == 300,
    {
        SpamConfig {
            enabled: true,
            max_messages: 7,
            window_seconds: 8,
            max_duplicates: 3,
            duplicate_window_seconds: 30,
            timeout_seconds: 300,
        }
    }
}

/// The invite-link guard and the invite codes it lets through.
#[derive(Debug, Clone)]
pub struct InviteConfig {
    pub enabled: bool,
    pub allowed_codes: Vec<String>,
    pub timeout_seconds: u64,
}

impl Default for InviteConfig {
    fn default() -> (r: Self)
        ensures
            !r.enabled,
            r.allowed_codes@.len() == 0,
            r.timeout_seconds == 300,
    {
        InviteConfig { enabled: false, allowed_codes: Vec::new(), timeout_seconds: 300 }
    }
}

/// What happens to a young account that joins while raid mode is active.
#[derive(Debug, Clone, Copy, PartialEq, Eq, Structural)]
pub enum YoungAccountAction {
    Log,
    Timeout,
    Kick,
}

/// Join-raid detection.
#[derive(Debug, Clone, Copy)]
pub struct RaidConfig {
    pub enabled: bool,
    pub join_threshold: usize,
    pub join_window_seconds: u64,
    pub raid_mode_seconds: u64,
    pub minimum_account_age_seconds: i64,
    pub young_account_action: YoungAccountAction,
    pub timeout_seconds: u64,
}

impl Default for RaidConfig {
    fn default() -> (r: Self)
        ensures
            r.enabled,
            r.join_threshold == 10,
            r.join_window_seconds == 15,
            r.raid_mode_seconds == 600,
            r.minimum_account_age_seconds == 86_400,
            r.young_account_action == YoungAccountAction::Log,
            r.timeout_seconds == 3600,
    {
        RaidConfig {
            enabled: true,
            join_threshold: 10,
            join_window_seconds: 15,
            raid_mode_seconds: 600,
            minimum_account_age_seconds: 86_400,
            young_account_action: YoungAccountAction::Log,
            timeout_seconds: 3600,
        }
    }
}

/// The explicit allowlist of who may hold protected roles.
#[derive(Debug)]
pub struct RoleGuardConfig {
    pub enabled: bool,
    pub protected_role_ids: HashSet<u64>,
    pub authorized_member_ids: HashSet<u64>,
}

impl Default for RoleGuardConfig {
    fn default() -> (r: Self)
        ensures
            !r.enabled,
            r.protected_role_ids@ == Set::<u64>::empty(),
            r.authorized_member_ids@ == Set::<u64>::empty(),
    {
        RoleGuardConfig {
            enabled: false,
            protected_role_ids: HashSet::new(),
            authorized_member_ids: HashSet::new(),
        }
    }
}

/// Reversible member quarantine.
#[derive(Debug, Clone)]
pub struct QuarantineConfig {
    pub enabled: bool,
    pub channel_id: Option<u64>,
    pub role_id: Option<u64>,
    pub store_path: String,
    pub role_name: String,
    pub channel_name: String,
}

impl Default for QuarantineConfig {
    fn default() -> (r: Self)
        ensures
            !r.enabled,
            r.channel_id is None,
            r.role_id is None,
            r.store_path@ == "data/quarantine.jsonl"@,
            r.role_name@ == "Quarantined"@,
            r.channel_name@ == "quarantine"@,
    {
        QuarantineConfig {
            enabled: false,
            channel_id: None,
            role_id: None,
            store_path: "data/quarantine.jsonl".to_owned(),
            role_name: "Quarantined".to_owned(),
            channel_name: "quarantine".to_owned(),
        }
    }
}

/// The whole operator policy.
#[derive(Debug)]
pub struct Config {
    pub guild_id: u64,
    pub alert_channel_id: u64,
    pub incident_log_path: String,
    pub trusted_user_ids: HashSet<u64>,
    pub trusted_role_ids: HashSet<u64>,
    pub mentions: MentionConfig,
    pub spam: SpamConfig,
    pub invites: InviteConfig,
    pub raids: RaidConfig,
    pub role_guard: RoleGuardConfig,
    pub quarantine: QuarantineConfig,
}

/// The settings that must be positive.
#[derive(Debug, Clone, Copy, PartialEq, Eq, Structural)]
pub enum ConfigField {
    MentionsProtectedRoleMaxPings,
    MentionsProtectedRoleWindowSeconds,
    MentionsTimeoutSeconds,
    SpamMaxMessages,
    SpamWindowSeconds,
    SpamMaxDuplicates,
    SpamDuplicateWindowSeconds,
    SpamTimeoutSeconds,
    RaidsJoinThreshold,
    RaidsJoinWindowSeconds,
    RaidsRaidModeSeconds,
    RaidsTimeoutSeconds,
}

/// Why a configuration is refused.
#[derive(Debug, Clone, Copy, PartialEq, Eq, Structural)]
pub enum ConfigError {
    ZeroGuildId,
    EmptyIncidentLogPath,
    NotPositive(ConfigField),
    NegativeMinimumAccountAge,
    EmptyRoleGuard,
    ZeroMaxTotalMentions,
    MissingQuarantineIds,
    EmptyQuarantineStorePath,
    QuarantineRoleTrustedOrProtected,
}

/// The operator-facing text of each refusal.
pub open spec fn config_error_text(e: ConfigError) -> Seq<char> {
    match e {
        ConfigError::ZeroGuildId => "guild_id must be a non-zero Discord ID"@,
        ConfigError::EmptyIncidentLogPath => "incident_log_path must not be empty"@,
        ConfigError::NotPositive(f) => match f {
            ConfigField::MentionsProtectedRoleMaxPings => "mentions.protected_role_max_pings must be positive"@,
            ConfigField::MentionsProtectedRoleWindowSeconds => "mentions.protected_role_window_seconds must be positive"@,
            ConfigField::MentionsTimeoutSeconds => "mentions.timeout_seconds must be positive"@,
            ConfigField::SpamMaxMessages => "spam.max_messages must be positive"@,
            ConfigField::SpamWindowSeconds => "spam.window_seconds must be positive"@,
            ConfigField::SpamMaxDuplicates => "spam.max_duplicates must be positive"@,
            ConfigField::SpamDuplicateWindowSeconds => "spam.duplicate_window_seconds must be positive"@,
            ConfigField::SpamTimeoutSeconds => "spam.timeout_seconds must be positive"@,
            ConfigField::RaidsJoinThreshold => "raids.join_threshold must be positive"@,
            ConfigField::RaidsJoinWindowSeconds => "raids.join_window_seconds must be positive"@,
            ConfigField::RaidsRaidModeSeconds => "raids.raid_mode_seconds must be positive"@,
            ConfigField::RaidsTimeoutSeconds => "raids.timeout_seconds must be positive"@,
        },
        ConfigError::NegativeMinimumAccountAge => "raids.minimum_account_age_seconds cannot be negative"@,
        ConfigError::EmptyRoleGuard => "role_guard is enabled but protected_role_ids is empty"@,
        ConfigError::ZeroMaxTotalMentions => "mentions.max_total_mentions must be positive"@,
        ConfigError::MissingQuarantineIds => "quarantine.channel_id and quarantine.role_id are required when enabled"@,
        ConfigError::EmptyQuarantineStorePath => "quarantine.store_path must not be empty"@,
        ConfigError::QuarantineRoleTrustedOrProtected => "the quarantine role cannot be trusted or protected"@,
    }
}

impl ConfigError {
    /// The operator-facing text of this refusal.
    pub fn message(&self) -> (r: &'static str)
        ensures
            r@ == config_error_text(*self),
    {
        match self {
            ConfigError::ZeroGuildId => "guild_id must be a non-zero Discord ID",
            ConfigError::EmptyIncidentLogPath => "incident_log_path must not be empty",
            ConfigError::NotPositive(f) => match f {
                ConfigField::MentionsProtectedRoleMaxPings => "mentions.protected_role_max_pings must be positive",
                ConfigField::MentionsProtectedRoleWindowSeconds => "mentions.protected_role_window_seconds must be positive",
                ConfigField::MentionsTimeoutSeconds => "mentions.timeout_seconds must be positive",
                ConfigField::SpamMaxMessages => "spam.max_messages must be positive",
                ConfigField::SpamWindowSeconds => "spam.window_seconds must be positive",
                ConfigField::SpamMaxDuplicates => "spam.max_duplicates must be positive",
                ConfigField::SpamDuplicateWindowSeconds => "spam.duplicate_window_seconds must be positive",
                ConfigField::SpamTimeoutSeconds => "spam.timeout_seconds must be positive",
                ConfigField::RaidsJoinThreshold => "raids.join_threshold must be positive",
                ConfigField::RaidsJoinWindowSeconds => "raids.join_window_seconds must be positive",
                ConfigField::RaidsRaidModeSeconds => "raids.raid_mode_seconds must be positive",
                ConfigField::RaidsTimeoutSeconds => "raids.timeout_seconds must be positive",
            },
            ConfigError::NegativeMinimumAccountAge => "raids.minimum_account_age_seconds cannot be negative",
            ConfigError::EmptyRoleGuard => "role_guard is enabled but protected_role_ids is empty",
            ConfigError::ZeroMaxTotalMentions => "mentions.max_total_mentions must be positive",
            ConfigError::MissingQuarantineIds => "quarantine.channel_id and quarantine.role_id are required when enabled",
            ConfigError::EmptyQuarantineStorePath => "quarantine.store_path must not be empty",
            ConfigError::QuarantineRoleTrustedOrProtected => "the quarantine role cannot be trusted or protected",
        }
    }
}

/// The value of each setting that must be positive.
pub open spec fn field_value(c: Config, f: ConfigField) -> int {
    match f {
        ConfigField::MentionsProtectedRoleMaxPings => c.mentions.protected_role_max_pings as int,
        ConfigField::MentionsProtectedRoleWindowSeconds => c.mentions.protected_role_window_seconds as int,
        ConfigField::MentionsTimeoutSeconds => c.mentions.timeout_seconds as int,
        ConfigField::SpamMaxMessages => c.spam.max_messages as int,
        ConfigField::SpamWindowSeconds => c.spam.window_seconds as int,
        ConfigField::SpamMaxDuplicates => c.spam.max_duplicates as int,
        ConfigField::SpamDuplicateWindowSeconds => c.spam.duplicate_window_seconds as int,
        ConfigField::SpamTimeoutSeconds => c.spam.timeout_seconds as int,
        ConfigField::RaidsJoinThreshold => c.raids.join_threshold as int,
        ConfigField::RaidsJoinWindowSeconds => c.raids.join_window_seconds as int,
        ConfigField::RaidsRaidModeSeconds => c.raids.raid_mode_seconds as int,
        ConfigField::RaidsTimeoutSeconds => c.raids.timeout_seconds as int,
    }
}

/// The settings that must be positive, in the order they are checked.
pub open spec fn positive_fields() -> Seq<ConfigField> {
    seq![
        ConfigField::MentionsProtectedRoleMaxPings,
        ConfigField::MentionsProtectedRoleWindowSeconds,
        ConfigField::MentionsTimeoutSeconds,
        ConfigField::SpamMaxMessages,
        ConfigField::SpamWindowSeconds,
        ConfigField::SpamMaxDuplicates,
        ConfigField::SpamDuplicateWindowSeconds,
        ConfigField::SpamTimeoutSeconds,
        ConfigField::RaidsJoinThreshold,
        ConfigField::RaidsJoinWindowSeconds,
        ConfigField::RaidsRaidModeSeconds,
        ConfigField::RaidsTimeoutSeconds,
    ]
}

/// The first setting, in checking order from index `i`, that is zero.
pub open spec fn first_zero_field(c: Config, i: nat) -> Option<ConfigField>
    decreases positive_fields().len() - i,
{
    if i >= positive_fields().len() {
        None
    } else if field_value(c, positive_fields()[i as int]) == 0 {
        Some(positive_fields()[i as int])
    } else {
        first_zero_field(c, i + 1)
    }
}

/// The quarantine role is trusted or protected by the role guard.
pub open spec fn quarantine_role_privileged(c: Config) -> bool {
    match c.quarantine.role_id {
        Some(role) => c.trusted_role_ids@.contains(role) || c.role_guard.protected_role_ids@.contains(role),
        None => false,
    }
}

/// The first rule that `c` breaks, in the order the rules are checked, if any.
pub open spec fn first_config_error(c: Config) -> Option<ConfigError> {
    if c.guild_id == 0 {
        Some(ConfigError::ZeroGuildId)
    } else if trimmed(c.incident_log_path@).len() == 0 {
        Some(ConfigError::EmptyIncidentLogPath)
    } else if first_zero_field(c, 0) is Some {
        Some(ConfigError::NotPositive(first_zero_field(c, 0)->0))
    } else if c.raids.minimum_account_age_seconds < 0 {
        Some(ConfigError::NegativeMinimumAccountAge)
    } else if c.role_guard.enabled && c.role_guard.protected_role_ids@.is_empty() {
        Some(ConfigError::EmptyRoleGuard)
    } else if c.mentions.enabled && c.mentions.max_total_mentions == 0 {
        Some(ConfigError::ZeroMaxTotalMentions)
    } else if c.quarantine.enabled && (c.quarantine.channel_id is None || c.quarantine.role_id is None) {
        Some(ConfigError::MissingQuarantineIds)
    } else if c.quarantine.enabled && trimmed(c.quarantine.store_path@).len() == 0 {
        Some(ConfigError::EmptyQuarantineStorePath)
    } else if c.quarantine.enabled && quarantine_role_privileged(c) {
        Some(ConfigError::QuarantineRoleTrustedOrProtected)
    } else {
        None
    }
}

/// Every rule of a valid configuration, stated together.
pub open spec fn config_is_valid(c: Config) -> bool {
    &&& c.guild_id != 0
    &&& trimmed(c.incident_log_path@).len() != 0
    &&& forall|i: int| 0 <= i < positive_fields().len() ==> field_value(c, #[trigger] positive_fields()[i]) != 0
    &&& c.raids.minimum_account_age_seconds >= 0
    &&& c.role_guard.enabled ==> !c.role_guard.protected_role_ids@.is_empty()
    &&& c.mentions.enabled ==> c.mentions.max_total_mentions != 0
    &&& c.quarantine.enabled ==> {
        &&& c.quarantine.channel_id is Some
        &&& c.quarantine.role_id is Some
        &&& trimmed(c.quarantine.store_path@).len() != 0
        &&& !quarantine_role_privileged(c)
    }
}

proof fn lemma_first_zero_field(c: Config, i: nat)
    requires
        i <= positive_fields().len(),
    ensures
        first_zero_field(c, i) is None <==> forall|j: int| i <= j < positive_fields().len() ==> field_value(c, #[trigger] positive_fields()[j]) != 0,
    decreases positive_fields().len() - i,
{
    if i < positive_fields().len() {
        lemma_first_zero_field(c, i + 1);
    }
}

/// Quarantine never lifts restrictions: with quarantine on, a quarantine
/// role that is trusted, or that the role guard protects, makes the
/// configuration invalid, and `validate` reports an error for it.
pub proof fn lemma_privileged_quarantine_role_is_refused(c: Config, role: u64)
    requires
        c.quarantine.enabled,
        c.quarantine.role_id == Some(role),
        c.trusted_role_ids@.contains(role) || c.role_guard.protected_role_ids@.contains(role),
    ensures
        first_config_error(c) is Some,
{
}

/// `validate` refuses exactly the configurations that break a rule.
pub proof fn lemma_validate_exactly_the_rules(c: Config)
    ensures
        first_config_error(c) is None <==> config_is_valid(c),
{
    lemma_first_zero_field(c, 0);
}

/// The rules of a valid configuration, field by field: `validate` accepts
/// `c` exactly when the guild is set, the incident log path is not blank,
/// every count, window and timeout of the mention, spam and raid guards is
/// positive, the minimum account age is not negative, an enabled role guard
/// protects some role, enabled mention limits allow at least one mention,
/// and enabled quarantine names its channel and a role that is neither
/// trusted nor protected, and has a store path that is not blank.
pub proof fn lemma_valid_configurations(c: Config)
    ensures
        (first_config_error(c) is None) == {
            &&& c.guild_id != 0
            &&& trimmed(c.incident_log_path@).len() != 0
            &&& c.mentions.protected_role_max_pings != 0
            &&& c.mentions.protected_role_window_seconds != 0
            &&& c.mentions.timeout_seconds != 0
            &&& c.spam.max_messages != 0
            &&& c.spam.window_seconds != 0
            &&& c.spam.max_duplicates != 0
            &&& c.spam.duplicate_window_seconds != 0
            &&& c.spam.timeout_seconds != 0
            &&& c.raids.join_threshold != 0
            &&& c.raids.join_window_seconds != 0
            &&& c.raids.raid_mode_seconds != 0
            &&& c.raids.timeout_seconds != 0
            &&& c.raids.minimum_account_age_seconds >= 0
            &&& c.role_guard.enabled ==> !c.role_guard.protected_role_ids@.is_empty()
            &&& c.mentions.enabled ==> c.mentions.max_total_mentions != 0
            &&& c.quarantine.enabled ==> {
                &&& c.quarantine.channel_id is Some
                &&& c.quarantine.role_id is Some
                &&& trimmed(c.quarantine.store_path@).len() != 0
                &&& !c.trusted_role_ids@.contains(c.quarantine.role_id->0)
                &&& !c.role_guard.protected_role_ids@.contains(c.quarantine.role_id->0)
            }
        },
{
    lemma_validate_exactly_the_rules(c);
    let f = positive_fields();
    assert(f.len() == 12);
    assert(field_value(c, f[0]) == c.mentions.protected_role_max_pings);
    assert(field_value(c, f[1]) == c.mentions.protected_role_window_seconds);
    assert(field_value(c, f[2]) == c.mentions.timeout_seconds);
    assert(field_value(c, f[3]) == c.spam.max_messages);
    assert(field_value(c, f[4]) == c.spam.window_seconds);
    assert(field_value(c, f[5]) == c.spam.max_duplicates);
    assert(field_value(c, f[6]) == c.spam.duplicate_window_seconds);
    assert(field_value(c, f[7]) == c.spam.timeout_seconds);
    assert(field_value(c, f[8]) == c.raids.join_threshold);
    assert(field_value(c, f[9]) == c.raids.join_window_seconds);
    assert(field_value(c, f[10]) == c.raids.raid_mode_seconds);
    assert(field_value(c, f[11]) == c.raids.timeout_seconds);
}

/// Refuses a zero value for a setting that must be positive.
pub fn positive(field: ConfigField, value: u64) -> (r: Result<(), ConfigError>)
    ensures
        r == (if value == 0 { Err(ConfigError::NotPositive(field)) } else { Ok::<(), ConfigError>(()) }),
{
    if value == 0 {
        Err(ConfigError::NotPositive(field))
    } else {
        Ok(())
    }
}

/// The default incident log location.
pub fn default_incident_path() -> (r: String)
    ensures
        r@ == "data/incidents.jsonl"@,
{
    "data/incidents.jsonl".to_owned()
}

fn is_blank(s: &String) -> (r: bool)
    ensures
        r == (trimmed(s@).len() == 0),
{
    let v = chars_of(s.as_str());
    let t = trim_chars(&v);
    t.len() == 0
}

impl Config {
    /// Checks the configuration against every rule and reports the first one
    /// that it breaks.
    pub fn validate(&self) -> (r: Result<(), ConfigError>)
        ensures
            r == (match first_config_error(*self) {
                Some(e) => Err(e),
                None => Ok::<(), ConfigError>(()),
            }),
    {
        if self.guild_id == 0 {
            return Err(ConfigError::ZeroGuildId);
        }
        if is_blank(&self.incident_log_path) {
            return Err(ConfigError::EmptyIncidentLogPath);
        }
        let ghost c = *self;
        proof {
            reveal_with_fuel(first_zero_field, 13);
        }
        assert(positive_fields()[0] == ConfigField::MentionsProtectedRoleMaxPings);
        positive(ConfigField::MentionsProtectedRoleMaxPings, self.mentions.protected_role_max_pings as u64)?;
        assert(positive_fields()[1] == ConfigField::MentionsProtectedRoleWindowSeconds);
        positive(ConfigField::MentionsProtectedRoleWindowSeconds, self.mentions.protected_role_window_seconds)?;
        assert(positive_fields()[2] == ConfigField::MentionsTimeoutSeconds);
        positive(ConfigField::MentionsTimeoutSeconds, self.mentions.timeout_seconds)?;
        assert(positive_fields()[3] == ConfigField::SpamMaxMessages);
        positive(ConfigField::SpamMaxMessages, self.spam.max_messages as u64)?;
        assert(positive_fields()[4] == ConfigField::SpamWindowSeconds);
        positive(ConfigField::SpamWindowSeconds, self.spam.window_seconds)?;
        assert(positive_fields()[5] == ConfigField::SpamMaxDuplicates);
        positive(ConfigField::SpamMaxDuplicates, self.spam.max_duplicates as u64)?;
        assert(positive_fields()[6] == ConfigField::SpamDuplicateWindowSeconds);
        positive(ConfigField::SpamDuplicateWindowSeconds, self.spam.duplicate_window_seconds)?;
        assert(positive_fields()[7] == ConfigField::SpamTimeoutSeconds);
        positive(ConfigField::SpamTimeoutSeconds, self.spam.timeout_seconds)?;
        assert(positive_fields()[8] == ConfigField::RaidsJoinThreshold);
        positive(ConfigField::RaidsJoinThreshold, self.raids.join_threshold as u64)?;
        assert(positive_fields()[9] == ConfigField::RaidsJoinWindowSeconds);
        positive(ConfigField::RaidsJoinWindowSeconds, self.raids.join_window_seconds)?;
        assert(positive_fields()[10] == ConfigField::RaidsRaidModeSeconds);
        positive(ConfigField::RaidsRaidModeSeconds, self.raids.raid_mode_seconds)?;
        assert(positive_fields()[11] == ConfigField::RaidsTimeoutSeconds);
        positive(ConfigField::RaidsTimeoutSeconds, self.raids.timeout_seconds)?;
        assert(first_zero_field(c, 0) is None);
        assert(c.guild_id != 0);
        assert(trimmed(c.incident_log_path@).len() != 0);
        if self.raids.minimum_account_age_seconds < 0 {
            return Err(ConfigError::NegativeMinimumAccountAge);
        }
        if self.role_guard.enabled && self.role_guard.protected_role_ids.is_empty() {
            return Err(ConfigError::EmptyRoleGuard);
        }
        if self.mentions.enabled && self.mentions.max_total_mentions == 0 {
            return Err(ConfigError::ZeroMaxTotalMentions);
        }
        if self.quarantine.enabled {
            if self.quarantine.channel_id.is_none() || self.quarantine.role_id.is_none() {
                return Err(ConfigError::MissingQuarantineIds);
            }
            if is_blank(&self.quarantine.store_path) {
                return Err(ConfigError::EmptyQuarantineStorePath);
            }
            match self.quarantine.role_id {
                Some(role) => {
                    if self.trusted_role_ids.contains(&role)
                        || self.role_guard.protected_role_ids.contains(&role) {
                        return Err(ConfigError::QuarantineRoleTrustedOrProtected);
                    }
                },
                None => {},
            }
        }
        Ok(())
    }

    /// A user is trusted when their own ID is trusted or when they hold a
    /// trusted role.
    pub fn is_trusted(&self, user_id: u64, roles: &[u64]) -> (r: bool)
        ensures
            r == (self.trusted_user_ids@.contains(user_id) || exists|i: int|
                0 <= i < roles@.len() && self.trusted_role_ids@.contains(#[trigger] roles@[i])),
    {
        if self.trusted_user_ids.contains(&user_id) {
            return true;
        }
        let mut i: usize = 0;
        while i < roles.len()
            invariant
                i <= roles@.len(),
                forall|j: int| 0 <= j < i ==> !self.trusted_role_ids@.contains(#[trigger] roles@[j]),
            decreases roles.len() - i,
        {
            if self.trusted_role_ids.contains(&roles[i]) {
                return true;
            }
            i = i + 1;
        }
        false
    }
}

} // verus!
