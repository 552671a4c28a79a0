use vstd::prelude::*;

use crate::config::{Config, YoungAccountAction};
use crate::detection::{Violation, forbidden_roles, unauthorized_protected_roles, violation_name};
use crate::state::{
    JoinDecision, MessageDecision, MessageInput, SecurityState, StateView, join_decision,
    normalized_content, state_after_join, state_after_message, timeout_for, violations_of_message,
};
use crate::ids::{decimal, format_id};
use crate::text::{push_char, push_str};

verus! {

broadcast use vstd::std_specs::hash::group_hash_axioms;

/// One guild message as the gateway reports it.
#[derive(Debug)]
pub struct MessageEvent<'a> {
    pub guild_id: Option<u64>,
    pub author_id: u64,
    pub author_roles: &'a [u64],
    pub author_is_bot: bool,
    pub from_webhook: bool,
    pub content: &'a str,
    pub user_mentions: usize,
    pub mentions_bot: bool,
    pub mentioned_roles: &'a [u64],
    pub mention_everyone: bool,
}

/// What to do about a message.
#[derive(Debug)]
pub enum MessageResponse {
    /// Nothing.
    Ignore,
    /// Reply with the project introduction.
    Introduce,
    /// Delete the message and, when `time_out` holds, time the author out.
    Enforce { decision: MessageDecision, time_out: bool },
}

/// The event belongs to the configured server and was not sent by the bot.
pub open spec fn message_in_scope(config: Config, e: MessageEvent, bot_user_id: u64) -> bool {
    e.guild_id == Some(config.guild_id) && e.author_id != bot_user_id
}

/// The author is exempt from the message guards.
pub open spec fn author_trusted(config: Config, e: MessageEvent) -> bool {
    config.trusted_user_ids@.contains(e.author_id) || exists|i: int|
        0 <= i < e.author_roles@.len() && config.trusted_role_ids@.contains(#[trigger] e.author_roles@[i])
}

/// Mentions counted against the mass-mention limit: users, roles, and an
/// active `@everyone`/`@here`.
pub open spec fn total_mentions(e: MessageEvent) -> int {
    e.user_mentions + e.mentioned_roles@.len() + (if e.mention_everyone { 1int } else { 0 })
}

/// The violations of a message that the guards judge.
pub open spec fn event_violations(s: StateView, config: Config, e: MessageEvent, now: u64) -> Seq<Violation> {
    violations_of_message(
        s,
        e.author_id,
        e.content@,
        normalized_content(e.content@),
        total_mentions(e) as usize,
        (if e.mention_everyone { 1usize } else { 0usize }),
        e.mentioned_roles@,
        config,
        now,
    )
}

/// The state after a message that the guards judge.
pub open spec fn state_after_event(s: StateView, config: Config, e: MessageEvent, now: u64) -> StateView {
    state_after_message(s, e.author_id, normalized_content(e.content@), e.mentioned_roles@, config, now)
}

/// The message guards judge this message: it is in scope and its author is
/// not trusted.
pub open spec fn judged(config: Config, e: MessageEvent, bot_user_id: u64) -> bool {
    message_in_scope(config, e, bot_user_id) && !author_trusted(config, e)
}

/// Decides what to do about a message: messages from other servers and the
/// bot's own are ignored; trusted authors bypass the guards; a message that
/// commits a violation is deleted, and its author is timed out when the
/// timeout is positive and the author is neither a bot nor a webhook;
/// otherwise a message that mentions the bot gets the introduction.
pub fn respond_to_message(
    state: &mut SecurityState,
    config: &Config,
    event: &MessageEvent<'_>,
    bot_user_id: u64,
    now: u64,
) -> (r: MessageResponse)
    requires
        total_mentions(*event) <= usize::MAX,
    ensures
        judged(*config, *event, bot_user_id) ==> final(state)@ == state_after_event(old(state)@, *config, *event, now),
        !judged(*config, *event, bot_user_id) ==> final(state)@ == old(state)@,
        match r {
            MessageResponse::Ignore => !judged(*config, *event, bot_user_id) && !(message_in_scope(*config, *event, bot_user_id)
                && event.mentions_bot) || judged(*config, *event, bot_user_id) && event_violations(old(state)@, *config, *event, now).len()
                == 0 && !event.mentions_bot,
            MessageResponse::Introduce => event.mentions_bot && message_in_scope(*config, *event, bot_user_id) && (!judged(
                *config,
                *event,
                bot_user_id,
            ) || event_violations(old(state)@, *config, *event, now).len() == 0),
            MessageResponse::Enforce { decision, time_out } => {
                &&& judged(*config, *event, bot_user_id)
                &&& decision.violations@ == event_violations(old(state)@, *config, *event, now)
                &&& decision.violations@.len() > 0
                &&& decision.timeout_seconds == timeout_for(decision.violations@, *config)
                &&& time_out == (decision.timeout_seconds > 0 && !event.author_is_bot && !event.from_webhook)
            },
        },
{
    match event.guild_id {
        Some(g) => {
            if g != config.guild_id {
                return MessageResponse::Ignore;
            }
        },
        None => {
            return MessageResponse::Ignore;
        },
    }
    if event.author_id == bot_user_id {
        return MessageResponse::Ignore;
    }
    if config.is_trusted(event.author_id, event.author_roles) {
        return if event.mentions_bot { MessageResponse::Introduce } else { MessageResponse::Ignore };
    }
    let everyone: usize = if event.mention_everyone { 1 } else { 0 };
    let input = MessageInput {
        user_id: event.author_id,
        content: event.content,
        total_mentions: event.user_mentions + event.mentioned_roles.len() + everyone,
        everyone_mentions: everyone,
        mentioned_roles: event.mentioned_roles,
    };
    let decision = state.inspect_message(&input, config, now);
    if !decision.should_delete() {
        return if event.mentions_bot { MessageResponse::Introduce } else { MessageResponse::Ignore };
    }
    let automated = event.author_is_bot || event.from_webhook;
    let time_out = decision.timeout_seconds > 0 && !automated;
    MessageResponse::Enforce { decision, time_out }
}

/// The detector names of `v`, separated by commas.
pub open spec fn reasons(v: Seq<Violation>) -> Seq<char>
    decreases v.len(),
{
    if v.len() == 0 {
        Seq::empty()
    } else if v.len() == 1 {
        violation_name(v[0])
    } else {
        reasons(v.drop_last()) + ","@ + violation_name(v.last())
    }
}

/// Lists the detector names of `violations`, separated by commas.
pub fn reasons_text(violations: &[Violation]) -> (r: String)
    ensures
        r@ == reasons(violations@),
{
    let mut r = String::new();
    for i in 0..violations.len()
        invariant
            r@ == reasons(violations@.take(i as int)),
    {
        let ghost before = r@;
        if i > 0 {
            push_char(&mut r, ',');
        }
        push_str(&mut r, violations[i].as_str());
        proof {
            let t = violations@.take(i + 1);
            assert(t.drop_last() == violations@.take(i as int));
            assert(t.last() == violations@[i as int]);
            if i == 0 {
                assert(before == Seq::<char>::empty());
                assert(r@ == violation_name(violations@[0]));
            } else {
                reveal_strlit(",");
                assert(before.push(',') == before + ","@);
            }
        }
    }
    assert(violations@.take(violations@.len() as int) == violations@);
    r
}

/// The incident action recorded for a guarded message: whether it was
/// deleted, and, when a timeout was attempted, whether that succeeded. Each
/// combination has its own name, so a failed call is never hidden.
pub open spec fn message_action_text(deleted: bool, timeout_result: Option<bool>) -> Seq<char> {
    match (deleted, timeout_result) {
        (true, Some(true)) => "message_deleted_and_member_timed_out"@,
        (true, Some(false)) => "message_handled_timeout_failed"@,
        (false, Some(true)) => "delete_failed_member_timed_out"@,
        (false, Some(false)) => "delete_failed_timeout_failed"@,
        (true, None) => "message_deleted"@,
        (false, None) => "delete_failed"@,
    }
}

/// Names the outcome of enforcing the message guard.
pub fn message_action(deleted: bool, timeout_result: Option<bool>) -> (r: &'static str)
    ensures
        r@ == message_action_text(deleted, timeout_result),
{
    match (deleted, timeout_result) {
        (true, Some(true)) => "message_deleted_and_member_timed_out",
        (true, Some(false)) => "message_handled_timeout_failed",
        (false, Some(true)) => "delete_failed_member_timed_out",
        (false, Some(false)) => "delete_failed_timeout_failed",
        (true, None) => "message_deleted",
        (false, None) => "delete_failed",
    }
}

/// Every Discord failure shows in the recorded action: two enforcement
/// outcomes get the same action only when both the deletion and the timeout
/// went the same way.
pub proof fn lemma_message_action_names_failures(d1: bool, t1: Option<bool>, d2: bool, t2: Option<bool>)
    requires
        message_action_text(d1, t1) == message_action_text(d2, t2),
    ensures
        d1 == d2,
        t1 == t2,
{
    reveal_strlit("message_deleted_and_member_timed_out");
    reveal_strlit("message_handled_timeout_failed");
    reveal_strlit("delete_failed_member_timed_out");
    reveal_strlit("delete_failed_timeout_failed");
    reveal_strlit("message_deleted");
    reveal_strlit("delete_failed");
    assert("message_deleted_and_member_timed_out"@.len() == 36);
    assert("message_handled_timeout_failed"@.len() == 30);
    assert("delete_failed_member_timed_out"@.len() == 30);
    assert("delete_failed_timeout_failed"@.len() == 28);
    assert("message_deleted"@.len() == 15);
    assert("delete_failed"@.len() == 13);
    assert("message_handled_timeout_failed"@[0] != "delete_failed_member_timed_out"@[0]);
    let a = message_action_text(d1, t1);
    let b = message_action_text(d2, t2);
    assert(a.len() == b.len() && a[0] == b[0]);
}

/// What is recorded about an enforced message. It is built from the
/// author, the channel, the message's ID, the violations and the outcome of
/// the Discord calls only: the message content is not among its inputs, so
/// no incident record or alert can carry it.
#[derive(Debug)]
pub struct MessageIncident {
    pub actor_id: u64,
    pub channel_id: u64,
    pub message_id: u64,
    pub action: &'static str,
    pub reasons: String,
    pub summary: String,
}

/// The staff alert for an enforced message.
pub open spec fn message_summary(author_id: u64, channel_id: u64, reasons: Seq<char>, action: Seq<char>) -> Seq<char> {
    "Message guard: user "@ + decimal(author_id as nat) + " in channel "@ + decimal(channel_id as nat) + " - "@
        + reasons + " ("@ + action + ")"@
}

/// Builds the incident for an enforced message.
pub fn message_incident(
    author_id: u64,
    channel_id: u64,
    message_id: u64,
    violations: &[Violation],
    deleted: bool,
    timeout_result: Option<bool>,
) -> (r: MessageIncident)
    ensures
        r.actor_id == author_id,
        r.channel_id == channel_id,
        r.message_id == message_id,
        r.action@ == message_action_text(deleted, timeout_result),
        r.reasons@ == reasons(violations@),
        r.summary@ == message_summary(author_id, channel_id, reasons(violations@), message_action_text(deleted, timeout_result)),
{
    let action = message_action(deleted, timeout_result);
    let reasons = reasons_text(violations);
    let mut summary = String::new();
    push_str(&mut summary, "Message guard: user ");
    push_str(&mut summary, format_id(author_id).as_str());
    push_str(&mut summary, " in channel ");
    push_str(&mut summary, format_id(channel_id).as_str());
    push_str(&mut summary, " - ");
    push_str(&mut summary, reasons.as_str());
    push_str(&mut summary, " (");
    push_str(&mut summary, action);
    push_str(&mut summary, ")");
    MessageIncident { actor_id: author_id, channel_id, message_id, action, reasons, summary }
}

/// Discord refuses timeouts longer than 28 days.
pub const MAX_TIMEOUT_SECONDS: u64 = 2_419_200;

/// The Unix time at which a timeout of `seconds` that starts at `now_unix`
/// ends: the length is capped at 28 days and the sum saturates.
pub open spec fn deadline(now_unix: i64, seconds: u64) -> i64 {
    let capped = if seconds > MAX_TIMEOUT_SECONDS { MAX_TIMEOUT_SECONDS } else { seconds };
    if now_unix + capped > i64::MAX { i64::MAX } else { (now_unix + capped) as i64 }
}

/// Computes when a timeout ends.
pub fn timeout_deadline(now_unix: i64, seconds: u64) -> (r: i64)
    ensures
        r == deadline(now_unix, seconds),
{
    let capped: u64 = if seconds > MAX_TIMEOUT_SECONDS { MAX_TIMEOUT_SECONDS } else { seconds };
    let c = capped as i64;
    if now_unix > i64::MAX - c {
        i64::MAX
    } else {
        now_unix + c
    }
}

/// One member join as the gateway reports it.
#[derive(Debug, Clone, Copy)]
pub struct JoinEvent {
    pub guild_id: u64,
    pub user_id: u64,
    pub account_created_unix: i64,
}

/// What to do about a join.
#[derive(Debug, Clone, Copy)]
pub struct JoinResponse {
    pub decision: JoinDecision,
    /// Announce that a raid started, with the joins inside the window.
    pub announce_raid: Option<usize>,
    /// Act on a young account joining during a raid, in this way.
    pub enforce: Option<YoungAccountAction>,
}

/// The join belongs to the configured server and is not the bot's own.
pub open spec fn join_in_scope(config: Config, e: JoinEvent, bot_user_id: u64) -> bool {
    e.guild_id == config.guild_id && e.user_id != bot_user_id
}

/// Decides what to do about a join: out-of-scope joins are ignored; others
/// are judged against the raid rules, and a young, untrusted account that
/// joins while raid mode is active meets the configured action.
pub fn respond_to_join(
    state: &mut SecurityState,
    config: &Config,
    event: &JoinEvent,
    bot_user_id: u64,
    now: u64,
    now_unix: i64,
) -> (r: Option<JoinResponse>)
    ensures
        !join_in_scope(*config, *event, bot_user_id) ==> r is None && final(state)@ == old(state)@,
        join_in_scope(*config, *event, bot_user_id) ==> {
            &&& final(state)@ == state_after_join(old(state)@, *config, now)
            &&& r is Some
            &&& r->0.decision == join_decision(old(state)@, *config, now, now_unix, event.account_created_unix)
            &&& r->0.announce_raid == (if r->0.decision.raid_activated {
                Some(r->0.decision.join_count)
            } else {
                None
            })
            &&& r->0.enforce == (if r->0.decision.raid_active && r->0.decision.young_account
                && !config.trusted_user_ids@.contains(event.user_id) {
                Some(config.raids.young_account_action)
            } else {
                None
            })
        },
{
    if event.guild_id != config.guild_id || event.user_id == bot_user_id {
        return None;
    }
    let decision = state.inspect_join(config, now, now_unix, event.account_created_unix);
    let enforce = if decision.raid_active && decision.young_account && !config.trusted_user_ids.contains(&event.user_id) {
        Some(config.raids.young_account_action)
    } else {
        None
    };
    let announce_raid = if decision.raid_activated { Some(decision.join_count) } else { None };
    Some(JoinResponse { decision, announce_raid, enforce })
}

/// The incident action recorded for a young account met during a raid.
pub open spec fn raid_action_text(action: YoungAccountAction, succeeded: bool) -> Seq<char> {
    if !succeeded {
        "enforcement_failed"@
    } else {
        match action {
            YoungAccountAction::Log => "logged"@,
            YoungAccountAction::Timeout => "timed_out"@,
            YoungAccountAction::Kick => "kicked"@,
        }
    }
}

/// Names the outcome of acting on a young account.
pub fn raid_action(action: YoungAccountAction, succeeded: bool) -> (r: &'static str)
    ensures
        r@ == raid_action_text(action, succeeded),
{
    if !succeeded {
        "enforcement_failed"
    } else {
        match action {
            YoungAccountAction::Log => "logged",
            YoungAccountAction::Timeout => "timed_out",
            YoungAccountAction::Kick => "kicked",
        }
    }
}

/// The protected roles to strip from a member after an update: none out of
/// scope; otherwise those the role guard forbids, except the quarantine role.
pub open spec fn roles_to_strip_spec(
    config: Config,
    guild_id: u64,
    user_id: u64,
    bot_user_id: u64,
    roles: Seq<u64>,
    quarantine_role: Option<u64>,
) -> Seq<u64> {
    if guild_id != config.guild_id || user_id == bot_user_id {
        Seq::empty()
    } else {
        forbidden_roles(user_id, roles, config.role_guard).filter(|r: u64| Some(r) != quarantine_role)
    }
}

/// Lists the protected roles to remove from a member whose roles changed.
pub fn roles_to_strip(
    config: &Config,
    guild_id: u64,
    user_id: u64,
    bot_user_id: u64,
    roles: &[u64],
    quarantine_role: Option<u64>,
) -> (r: Vec<u64>)
    ensures
        r@ == roles_to_strip_spec(*config, guild_id, user_id, bot_user_id, roles@, quarantine_role),
{
    if guild_id != config.guild_id || user_id == bot_user_id {
        return Vec::new();
    }
    let unauthorized = unauthorized_protected_roles(user_id, roles, &config.role_guard);
    let ghost pred = |r: u64| Some(r) != quarantine_role;
    let mut out: Vec<u64> = Vec::new();
    for i in 0..unauthorized.len()
        invariant
            pred == (|r: u64| Some(r) != quarantine_role),
            out@ == unauthorized@.take(i as int).filter(pred),
    {
        let role = unauthorized[i];
        let keep = match quarantine_role {
            Some(q) => role != q,
            None => true,
        };
        if keep {
            out.push(role);
        }
        proof {
            reveal(Seq::filter);
            assert(unauthorized@.take(i + 1).drop_last() == unauthorized@.take(i as int));
        }
    }
    assert(unauthorized@.take(unauthorized@.len() as int) == unauthorized@);
    out
}

/// Names the outcome of stripping protected roles.
pub fn role_guard_action(all_removed: bool) -> (r: &'static str)
    ensures
        r@ == (if all_removed { "roles_removed"@ } else { "role_removal_failed"@ }),
{
    if all_removed { "roles_removed" } else { "role_removal_failed" }
}

} // verus!
