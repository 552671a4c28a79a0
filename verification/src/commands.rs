use vstd::prelude::*;

use crate::config::Config;
use crate::ids::{decimal, format_id};
use crate::permissions::{
    ADD_REACTIONS, CREATE_PRIVATE_THREADS, CREATE_PUBLIC_THREADS, MANAGE_CHANNELS, MANAGE_ROLES,
    MODERATE_MEMBERS, SEND_MESSAGES, SEND_MESSAGES_IN_THREADS, may_run_command, permits_command,
};
use crate::text::{push_str, same_text};

verus! {

/// The slash commands the bot offers.
#[derive(Debug, Clone, Copy, PartialEq, Eq, Structural)]
pub enum Command {
    Lock,
    Banish,
    Unbanish,
    Help,
    About,
    Unknown,
}

/// The command a registered command name selects.
pub open spec fn command_named(name: Seq<char>) -> Command {
    if name == "lock"@ {
        Command::Lock
    } else if name == "banish"@ {
        Command::Banish
    } else if name == "unbanish"@ {
        Command::Unbanish
    } else if name == "help"@ {
        Command::Help
    } else if name == "hugh"@ {
        Command::About
    } else {
        Command::Unknown
    }
}

/// Selects the command by its registered name.
pub fn parse_command(name: &str) -> (r: Command)
    ensures
        r == command_named(name@),
{
    if same_text(name, "lock") {
        Command::Lock
    } else if same_text(name, "banish") {
        Command::Banish
    } else if same_text(name, "unbanish") {
        Command::Unbanish
    } else if same_text(name, "help") {
        Command::Help
    } else if same_text(name, "hugh") {
        Command::About
    } else {
        Command::Unknown
    }
}

/// The permissions a moderator needs for each command; the public commands
/// need none.
pub open spec fn required_for(c: Command) -> u64 {
    match c {
        Command::Lock => MANAGE_CHANNELS,
        Command::Banish | Command::Unbanish => MANAGE_ROLES | MODERATE_MEMBERS,
        _ => 0,
    }
}

/// The permissions each command needs.
pub fn required_permissions(c: Command) -> (r: u64)
    ensures
        r == required_for(c),
{
    match c {
        Command::Lock => MANAGE_CHANNELS,
        Command::Banish | Command::Unbanish => MANAGE_ROLES | MODERATE_MEMBERS,
        _ => 0,
    }
}

/// The permissions a lock denies to `@everyone`.
pub open spec fn lock_denied() -> u64 {
    SEND_MESSAGES | SEND_MESSAGES_IN_THREADS | CREATE_PUBLIC_THREADS | CREATE_PRIVATE_THREADS | ADD_REACTIONS
}

/// The permissions a lock denies to `@everyone`: sending, thread use and
/// reactions.
pub fn lock_permissions() -> (r: u64)
    ensures
        r == lock_denied(),
{
    SEND_MESSAGES | SEND_MESSAGES_IN_THREADS | CREATE_PUBLIC_THREADS | CREATE_PRIVATE_THREADS | ADD_REACTIONS
}

/// Commands are only handled in the configured server.
pub fn command_in_scope(config: &Config, guild_id: Option<u64>) -> (r: bool)
    ensures
        r == (guild_id == Some(config.guild_id)),
{
    match guild_id {
        Some(g) => g == config.guild_id,
        None => false,
    }
}

/// Why a command was refused.
#[derive(Debug, Clone, Copy, PartialEq, Eq, Structural)]
pub enum CommandError {
    MissingPermissions,
    ServerOnly,
    ChannelNotInServer,
    QuarantineDisabled,
    StoreUnavailable,
    MissingUser,
    SelfTarget,
    OwnerTarget,
    AlreadySnapshotted,
    QuarantineRoleMissing,
    QuarantineChannelMissing,
    NoSnapshot,
}

/// The text shown to the moderator for each refusal.
pub open spec fn command_error_text(e: CommandError) -> Seq<char> {
    match e {
        CommandError::MissingPermissions => "you do not have the required server permissions"@,
        CommandError::ServerOnly => "this command is server-only"@,
        CommandError::ChannelNotInServer => "the selected channel does not belong to this server"@,
        CommandError::QuarantineDisabled => "quarantine is disabled in Hugh's configuration"@,
        CommandError::StoreUnavailable => "the quarantine store is unavailable"@,
        CommandError::MissingUser => "missing user option"@,
        CommandError::SelfTarget => "Hugh cannot quarantine itself"@,
        CommandError::OwnerTarget => "Discord does not allow a bot to quarantine the server owner"@,
        CommandError::AlreadySnapshotted => "that member already has a stored quarantine snapshot"@,
        CommandError::QuarantineRoleMissing => "quarantine role is not configured"@,
        CommandError::QuarantineChannelMissing => "quarantine channel is not configured"@,
        CommandError::NoSnapshot => "no stored quarantine snapshot exists for that member"@,
    }
}

impl CommandError {
    /// The text shown to the moderator.
    pub fn message(&self) -> (r: &'static str)
        ensures
            r@ == command_error_text(*self),
    {
        match self {
            CommandError::MissingPermissions => "you do not have the required server permissions",
            CommandError::ServerOnly => "this command is server-only",
            CommandError::ChannelNotInServer => "the selected channel does not belong to this server",
            CommandError::QuarantineDisabled => "quarantine is disabled in Hugh's configuration",
            CommandError::StoreUnavailable => "the quarantine store is unavailable",
            CommandError::MissingUser => "missing user option",
            CommandError::SelfTarget => "Hugh cannot quarantine itself",
            CommandError::OwnerTarget => "Discord does not allow a bot to quarantine the server owner",
            CommandError::AlreadySnapshotted => "that member already has a stored quarantine snapshot",
            CommandError::QuarantineRoleMissing => "quarantine role is not configured",
            CommandError::QuarantineChannelMissing => "quarantine channel is not configured",
            CommandError::NoSnapshot => "no stored quarantine snapshot exists for that member",
        }
    }
}

/// Refuses a command that the user may not run.
pub fn require_permissions(config: &Config, user_id: u64, member_permissions: Option<u64>, required: u64) -> (r: Result<(), CommandError>)
    ensures
        r == (if may_run_command(*config, user_id, member_permissions, required) {
            Ok::<(), CommandError>(())
        } else {
            Err(CommandError::MissingPermissions)
        }),
{
    if permits_command(config, user_id, member_permissions, required) {
        Ok(())
    } else {
        Err(CommandError::MissingPermissions)
    }
}

/// Quarantine commands need quarantine enabled and its store open.
pub fn quarantine_store_ready(config: &Config, store_open: bool) -> (r: Result<(), CommandError>)
    ensures
        r == (if !config.quarantine.enabled {
            Err(CommandError::QuarantineDisabled)
        } else if !store_open {
            Err(CommandError::StoreUnavailable)
        } else {
            Ok::<(), CommandError>(())
        }),
{
    if !config.quarantine.enabled {
        Err(CommandError::QuarantineDisabled)
    } else if !store_open {
        Err(CommandError::StoreUnavailable)
    } else {
        Ok(())
    }
}

/// The bot cannot quarantine itself or the server owner.
pub fn banish_target_allowed(target: u64, bot_user_id: u64, owner_id: u64) -> (r: Result<(), CommandError>)
    ensures
        r == (if target == bot_user_id {
            Err(CommandError::SelfTarget)
        } else if target == owner_id {
            Err(CommandError::OwnerTarget)
        } else {
            Ok::<(), CommandError>(())
        }),
{
    match refuse_self_target(target, bot_user_id) {
        Err(e) => Err(e),
        Ok(()) => refuse_owner_target(target, owner_id),
    }
}

/// The first half of `banish_target_allowed`, which needs no server data:
/// the bot never quarantines itself.
pub fn refuse_self_target(target: u64, bot_user_id: u64) -> (r: Result<(), CommandError>)
    ensures
        r == (if target == bot_user_id { Err(CommandError::SelfTarget) } else { Ok::<(), CommandError>(()) }),
{
    if target == bot_user_id {
        Err(CommandError::SelfTarget)
    } else {
        Ok(())
    }
}

/// The second half of `banish_target_allowed`: the server owner cannot be
/// quarantined by a bot.
pub fn refuse_owner_target(target: u64, owner_id: u64) -> (r: Result<(), CommandError>)
    ensures
        r == (if target == owner_id { Err(CommandError::OwnerTarget) } else { Ok::<(), CommandError>(()) }),
{
    if target == owner_id {
        Err(CommandError::OwnerTarget)
    } else {
        Ok(())
    }
}

/// Where a banish stands, once the checks have passed.
#[derive(Debug, Clone, Copy, PartialEq, Eq, Structural)]
pub enum BanishStage {
    Begin,
    SnapshotRequested,
    RoleRequested,
    DiscardRequested,
    StripRequested,
    Over,
}

/// The next thing a banish does.
#[derive(Debug, Clone, Copy, PartialEq, Eq, Structural)]
pub enum BanishAction {
    /// Store the member's roles in the journal.
    TakeSnapshot,
    /// A snapshot is already stored: refuse, changing nothing.
    RefuseSnapshotted,
    /// Add the quarantine role.
    AddQuarantineRole,
    /// Adding the role failed before any role was taken: drop the snapshot.
    DiscardSnapshot,
    /// Then fail the command.
    FailRoleAdd,
    /// Take the member's other removable roles away.
    StripRoles,
    /// Report the outcome.
    Report,
    /// Nothing is left to do.
    Finished,
}

/// One step of a banish: the stage and whether the last action succeeded
/// give the next stage and action.
pub open spec fn banish_transition(stage: BanishStage, succeeded: bool) -> (BanishStage, BanishAction) {
    match stage {
        BanishStage::Begin => (BanishStage::SnapshotRequested, BanishAction::TakeSnapshot),
        BanishStage::SnapshotRequested => if succeeded {
            (BanishStage::RoleRequested, BanishAction::AddQuarantineRole)
        } else {
            (BanishStage::Over, BanishAction::RefuseSnapshotted)
        },
        BanishStage::RoleRequested => if succeeded {
            (BanishStage::StripRequested, BanishAction::StripRoles)
        } else {
            (BanishStage::DiscardRequested, BanishAction::DiscardSnapshot)
        },
        BanishStage::DiscardRequested => (BanishStage::Over, BanishAction::FailRoleAdd),
        BanishStage::StripRequested => (BanishStage::Over, BanishAction::Report),
        BanishStage::Over => (BanishStage::Over, BanishAction::Finished),
    }
}

/// Takes one step of a banish.
pub fn banish_step(stage: BanishStage, succeeded: bool) -> (r: (BanishStage, BanishAction))
    ensures
        r == banish_transition(stage, succeeded),
{
    match stage {
        BanishStage::Begin => (BanishStage::SnapshotRequested, BanishAction::TakeSnapshot),
        BanishStage::SnapshotRequested => if succeeded {
            (BanishStage::RoleRequested, BanishAction::AddQuarantineRole)
        } else {
            (BanishStage::Over, BanishAction::RefuseSnapshotted)
        },
        BanishStage::RoleRequested => if succeeded {
            (BanishStage::StripRequested, BanishAction::StripRoles)
        } else {
            (BanishStage::DiscardRequested, BanishAction::DiscardSnapshot)
        },
        BanishStage::DiscardRequested => (BanishStage::Over, BanishAction::FailRoleAdd),
        BanishStage::StripRequested => (BanishStage::Over, BanishAction::Report),
        BanishStage::Over => (BanishStage::Over, BanishAction::Finished),
    }
}

/// The stage of a banish after `k` steps, `outcomes[i]` being whether the
/// action of step `i - 1` succeeded (`outcomes[0]` is not read).
pub open spec fn banish_stage_after(outcomes: Seq<bool>, k: nat) -> BanishStage
    decreases k,
{
    if k == 0 {
        BanishStage::Begin
    } else {
        banish_transition(banish_stage_after(outcomes, (k - 1) as nat), outcomes[k - 1]).0
    }
}

/// The action of step `k` of a banish.
pub open spec fn banish_action_at(outcomes: Seq<bool>, k: nat) -> BanishAction {
    banish_transition(banish_stage_after(outcomes, k), outcomes[k as int]).1
}

/// The order of a banish. The snapshot is always taken first. The quarantine
/// role is added only once the snapshot was stored. Roles are stripped only
/// once the snapshot was stored and the quarantine role added. The snapshot
/// is discarded only when adding the quarantine role failed, and then no
/// role is ever stripped.
pub proof fn lemma_banish_order(outcomes: Seq<bool>, k: nat)
    ensures
        banish_action_at(outcomes, 0) == BanishAction::TakeSnapshot,
        banish_action_at(outcomes, k) == BanishAction::AddQuarantineRole <==> k == 1 && outcomes[1],
        banish_action_at(outcomes, k) == BanishAction::StripRoles <==> k == 2 && outcomes[1] && outcomes[2],
        banish_action_at(outcomes, k) == BanishAction::DiscardSnapshot <==> k == 2 && outcomes[1] && !outcomes[2],
{
    lemma_banish_stages(outcomes, k);
}

proof fn lemma_banish_stages(outcomes: Seq<bool>, k: nat)
    ensures
        k == 0 ==> banish_stage_after(outcomes, k) == BanishStage::Begin,
        k == 1 ==> banish_stage_after(outcomes, k) == BanishStage::SnapshotRequested,
        k == 2 ==> banish_stage_after(outcomes, k) == if outcomes[1] {
            BanishStage::RoleRequested
        } else {
            BanishStage::Over
        },
        k == 3 ==> banish_stage_after(outcomes, k) == if !outcomes[1] {
            BanishStage::Over
        } else if outcomes[2] {
            BanishStage::StripRequested
        } else {
            BanishStage::DiscardRequested
        },
        k >= 4 ==> banish_stage_after(outcomes, k) == BanishStage::Over,
    decreases k,
{
    if k > 0 {
        lemma_banish_stages(outcomes, (k - 1) as nat);
    }
}

/// Where an unbanish stands, once the checks have passed.
#[derive(Debug, Clone, Copy, PartialEq, Eq, Structural)]
pub enum UnbanishStage {
    Begin,
    RestoreRequested,
    RemoveRequested,
    ClearRequested,
    Over,
}

/// The next thing an unbanish does.
#[derive(Debug, Clone, Copy, PartialEq, Eq, Structural)]
pub enum UnbanishAction {
    /// Give the restorable stored roles back.
    RestoreRoles,
    /// Some role could not be given back: refuse, keeping the member
    /// quarantined and the snapshot stored.
    KeepQuarantined,
    /// Take the quarantine role away.
    RemoveQuarantineRole,
    /// Removing it failed: fail, keeping the snapshot stored.
    FailRoleRemoval,
    /// Drop the snapshot from the journal.
    ClearSnapshot,
    /// Report the outcome.
    Report,
    /// Nothing is left to do.
    Finished,
}

/// One step of an unbanish.
pub open spec fn unbanish_transition(stage: UnbanishStage, succeeded: bool) -> (UnbanishStage, UnbanishAction) {
    match stage {
        UnbanishStage::Begin => (UnbanishStage::RestoreRequested, UnbanishAction::RestoreRoles),
        UnbanishStage::RestoreRequested => if succeeded {
            (UnbanishStage::RemoveRequested, UnbanishAction::RemoveQuarantineRole)
        } else {
            (UnbanishStage::Over, UnbanishAction::KeepQuarantined)
        },
        UnbanishStage::RemoveRequested => if succeeded {
            (UnbanishStage::ClearRequested, UnbanishAction::ClearSnapshot)
        } else {
            (UnbanishStage::Over, UnbanishAction::FailRoleRemoval)
        },
        UnbanishStage::ClearRequested => (UnbanishStage::Over, UnbanishAction::Report),
        UnbanishStage::Over => (UnbanishStage::Over, UnbanishAction::Finished),
    }
}

/// Takes one step of an unbanish.
pub fn unbanish_step(stage: UnbanishStage, succeeded: bool) -> (r: (UnbanishStage, UnbanishAction))
    ensures
        r == unbanish_transition(stage, succeeded),
{
    match stage {
        UnbanishStage::Begin => (UnbanishStage::RestoreRequested, UnbanishAction::RestoreRoles),
        UnbanishStage::RestoreRequested => if succeeded {
            (UnbanishStage::RemoveRequested, UnbanishAction::RemoveQuarantineRole)
        } else {
            (UnbanishStage::Over, UnbanishAction::KeepQuarantined)
        },
        UnbanishStage::RemoveRequested => if succeeded {
            (UnbanishStage::ClearRequested, UnbanishAction::ClearSnapshot)
        } else {
            (UnbanishStage::Over, UnbanishAction::FailRoleRemoval)
        },
        UnbanishStage::ClearRequested => (UnbanishStage::Over, UnbanishAction::Report),
        UnbanishStage::Over => (UnbanishStage::Over, UnbanishAction::Finished),
    }
}

/// The stage of an unbanish after `k` steps.
pub open spec fn unbanish_stage_after(outcomes: Seq<bool>, k: nat) -> UnbanishStage
    decreases k,
{
    if k == 0 {
        UnbanishStage::Begin
    } else {
        unbanish_transition(unbanish_stage_after(outcomes, (k - 1) as nat), outcomes[k - 1]).0
    }
}

/// The action of step `k` of an unbanish.
pub open spec fn unbanish_action_at(outcomes: Seq<bool>, k: nat) -> UnbanishAction {
    unbanish_transition(unbanish_stage_after(outcomes, k), outcomes[k as int]).1
}

/// The order of an unbanish. Roles are given back first. The quarantine role
/// is taken away only once every role came back. The snapshot is dropped only
/// once every role came back and the quarantine role was taken away; if any
/// role failed to come back, the member stays quarantined and the snapshot is
/// never dropped.
pub proof fn lemma_unbanish_order(outcomes: Seq<bool>, k: nat)
    ensures
        unbanish_action_at(outcomes, 0) == UnbanishAction::RestoreRoles,
        unbanish_action_at(outcomes, k) == UnbanishAction::RemoveQuarantineRole <==> k == 1 && outcomes[1],
        unbanish_action_at(outcomes, k) == UnbanishAction::ClearSnapshot <==> k == 2 && outcomes[1] && outcomes[2],
        unbanish_action_at(outcomes, k) == UnbanishAction::KeepQuarantined <==> k == 1 && !outcomes[1],
{
    lemma_unbanish_stages(outcomes, k);
}

proof fn lemma_unbanish_stages(outcomes: Seq<bool>, k: nat)
    ensures
        k == 0 ==> unbanish_stage_after(outcomes, k) == UnbanishStage::Begin,
        k == 1 ==> unbanish_stage_after(outcomes, k) == UnbanishStage::RestoreRequested,
        k == 2 ==> unbanish_stage_after(outcomes, k) == if outcomes[1] {
            UnbanishStage::RemoveRequested
        } else {
            UnbanishStage::Over
        },
        k == 3 ==> unbanish_stage_after(outcomes, k) == if outcomes[1] && outcomes[2] {
            UnbanishStage::ClearRequested
        } else {
            UnbanishStage::Over
        },
        k >= 4 ==> unbanish_stage_after(outcomes, k) == UnbanishStage::Over,
    decreases k,
{
    if k > 0 {
        lemma_unbanish_stages(outcomes, (k - 1) as nat);
    }
}

/// The configured quarantine role.
pub fn quarantine_role(config: &Config) -> (r: Result<u64, CommandError>)
    ensures
        r == (match config.quarantine.role_id {
            Some(id) => Ok::<u64, CommandError>(id),
            None => Err(CommandError::QuarantineRoleMissing),
        }),
{
    match config.quarantine.role_id {
        Some(id) => Ok(id),
        None => Err(CommandError::QuarantineRoleMissing),
    }
}

/// The configured quarantine channel.
pub fn quarantine_channel(config: &Config) -> (r: Result<u64, CommandError>)
    ensures
        r == (match config.quarantine.channel_id {
            Some(id) => Ok::<u64, CommandError>(id),
            None => Err(CommandError::QuarantineChannelMissing),
        }),
{
    match config.quarantine.channel_id {
        Some(id) => Ok(id),
        None => Err(CommandError::QuarantineChannelMissing),
    }
}

/// The IDs written in decimal and separated by `", "`.
pub open spec fn joined_ids(ids: Seq<u64>) -> Seq<char>
    decreases ids.len(),
{
    if ids.len() == 0 {
        Seq::empty()
    } else if ids.len() == 1 {
        decimal(ids[0] as nat)
    } else {
        joined_ids(ids.drop_last()) + ", "@ + decimal(ids.last() as nat)
    }
}

/// Writes the IDs in decimal, separated by `", "`.
pub fn join_ids(ids: &[u64]) -> (r: String)
    ensures
        r@ == joined_ids(ids@),
{
    let mut r = String::new();
    for i in 0..ids.len()
        invariant
            r@ == joined_ids(ids@.take(i as int)),
    {
        let ghost before = r@;
        if i > 0 {
            push_str(&mut r, ", ");
        }
        let id = format_id(ids[i]);
        push_str(&mut r, id.as_str());
        proof {
            let t = ids@.take(i + 1);
            assert(t.drop_last() == ids@.take(i as int));
            assert(t.last() == ids@[i as int]);
            if i == 0 {
                assert(before == Seq::<char>::empty());
                assert(r@ == decimal(ids@[0] as nat));
            }
        }
    }
    assert(ids@.take(ids@.len() as int) == ids@);
    r
}

/// The reply to a banish: full success, or the role IDs that could not be
/// removed.
pub open spec fn banish_reply(user_id: u64, failed: Seq<u64>) -> Seq<char> {
    if failed.len() == 0 {
        "Banished <@"@ + decimal(user_id as nat) + ">. Their roles are stored for `/unbanish`."@
    } else {
        "Quarantine was applied to <@"@ + decimal(user_id as nat)
            + ">, but these role IDs could not be removed: `"@ + joined_ids(failed)
            + "`. The recovery snapshot was kept."@
    }
}

/// Writes the reply to a banish.
pub fn banish_response(user_id: u64, failed: &[u64]) -> (r: String)
    ensures
        r@ == banish_reply(user_id, failed@),
{
    let mut r = String::new();
    let id = format_id(user_id);
    if failed.len() == 0 {
        push_str(&mut r, "Banished <@");
        push_str(&mut r, id.as_str());
        push_str(&mut r, ">. Their roles are stored for `/unbanish`.");
    } else {
        let list = join_ids(failed);
        push_str(&mut r, "Quarantine was applied to <@");
        push_str(&mut r, id.as_str());
        push_str(&mut r, ">, but these role IDs could not be removed: `");
        push_str(&mut r, list.as_str());
        push_str(&mut r, "`. The recovery snapshot was kept.");
    }
    r
}

/// Names the outcome of a banish.
pub fn banish_action(all_removed: bool) -> (r: &'static str)
    ensures
        r@ == (if all_removed { "member_banished"@ } else { "member_partially_banished"@ }),
{
    if all_removed { "member_banished" } else { "member_partially_banished" }
}

/// The refusal when some stored roles could not be given back.
pub open spec fn incomplete_restore_reply(failed: Seq<u64>) -> Seq<char> {
    "role restoration is incomplete for IDs `"@ + joined_ids(failed)
        + "`; the member remains quarantined and the snapshot was kept"@
}

/// Writes the refusal when some stored roles could not be given back.
pub fn incomplete_restore_message(failed: &[u64]) -> (r: String)
    ensures
        r@ == incomplete_restore_reply(failed@),
{
    let mut r = String::new();
    let list = join_ids(failed);
    push_str(&mut r, "role restoration is incomplete for IDs `");
    push_str(&mut r, list.as_str());
    push_str(&mut r, "`; the member remains quarantined and the snapshot was kept");
    r
}

/// The reply to an unbanish: how many roles came back, and which stored
/// roles no longer exist.
pub open spec fn unbanish_reply(user_id: u64, restored: u64, missing: Seq<u64>) -> Seq<char> {
    "Released <@"@ + decimal(user_id as nat) + "> and restored "@ + decimal(restored as nat) + " role(s)."@
        + (if missing.len() == 0 {
        Seq::empty()
    } else {
        " Deleted roles skipped: `"@ + joined_ids(missing) + "`."@
    })
}

/// Writes the reply to an unbanish.
pub fn unbanish_response(user_id: u64, restored: u64, missing: &[u64]) -> (r: String)
    ensures
        r@ == unbanish_reply(user_id, restored, missing@),
{
    let mut r = String::new();
    let id = format_id(user_id);
    let count = format_id(restored);
    push_str(&mut r, "Released <@");
    push_str(&mut r, id.as_str());
    push_str(&mut r, "> and restored ");
    push_str(&mut r, count.as_str());
    push_str(&mut r, " role(s).");
    let ghost head = r@;
    if missing.len() > 0 {
        let list = join_ids(missing);
        push_str(&mut r, " Deleted roles skipped: `");
        push_str(&mut r, list.as_str());
        push_str(&mut r, "`.");
    } else {
        assert(r@ == head + Seq::<char>::empty());
    }
    r
}

/// The reply to a lock.
pub open spec fn lock_reply(channel_id: u64) -> Seq<char> {
    "Locked <#"@ + decimal(channel_id as nat) + ">. Existing permission settings were preserved."@
}

/// Writes the reply to a lock.
pub fn lock_response(channel_id: u64) -> (r: String)
    ensures
        r@ == lock_reply(channel_id),
{
    let mut r = String::new();
    let id = format_id(channel_id);
    push_str(&mut r, "Locked <#");
    push_str(&mut r, id.as_str());
    push_str(&mut r, ">. Existing permission settings were preserved.");
    r
}

} // verus!
