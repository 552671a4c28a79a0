use std::collections::hash_map::DefaultHasher;
use std::collections::{HashMap, VecDeque};
use std::hash::Hasher;

use vstd::prelude::*;

use crate::config::Config;
use crate::detection::{Violation, first_unapproved_invite, string_views, unapproved_invite};
use crate::text::{
    all_ascii, all_white_space, ascii_lowercase, ascii_lowercase_chars, chars_of, is_ascii_text,
    lemma_trim_ignores_surrounding_white_space, lemma_trim_lowers, lowercase, string_of, to_lowercase, trim_chars,
    trimmed,
};
use vstd::std_specs::hash::DefaultHasherAdditionalSpecFns;
use vstd::std_specs::iter::IteratorSpec;
use vstd::string::StringSliceAdditionalSpecFns;

verus! {

broadcast use vstd::std_specs::hash::group_hash_axioms;

/// Nanoseconds in a second; instants are counted in nanoseconds of a
/// monotonic clock.
pub open spec fn nanos(seconds: u64) -> int {
    seconds as int * 1_000_000_000
}

/// How long ago `t` was at `now`, or zero when `t` is not in the past.
pub open spec fn elapsed(t: u64, now: u64) -> int {
    if now >= t { now - t } else { 0 }
}

/// `t` lies further in the past than a window of `window_seconds`.
pub open spec fn is_stale(t: u64, now: u64, window_seconds: u64) -> bool {
    elapsed(t, now) > nanos(window_seconds)
}

/// A rolling window with its stale entries removed from the front.
pub open spec fn pruned(q: Seq<u64>, now: u64, window_seconds: u64) -> Seq<u64>
    decreases q.len(),
{
    if q.len() > 0 && is_stale(q[0], now, window_seconds) {
        pruned(q.drop_first(), now, window_seconds)
    } else {
        q
    }
}

/// What is remembered of one user.
pub struct ActivityView {
    pub messages: Seq<u64>,
    pub duplicates: Map<u64, Seq<u64>>,
    pub protected_pings: Seq<u64>,
    pub last_seen: Option<u64>,
}

/// The whole rolling state.
pub struct StateView {
    pub users: Map<u64, ActivityView>,
    pub events: u64,
    pub joins: Seq<u64>,
    pub raid_until: Option<int>,
    pub retention_seconds: u64,
}

/// A user stays remembered while they were seen within the retention period.
pub open spec fn keeps_user(a: ActivityView, now: u64, retention_seconds: u64) -> bool {
    match a.last_seen {
        Some(seen) => !is_stale(seen, now, retention_seconds),
        None => false,
    }
}

/// The users that survive an eviction pass.
pub open spec fn evicted(users: Map<u64, ActivityView>, now: u64, retention_seconds: u64) -> Map<u64, ActivityView> {
    users.restrict(users.dom().filter(|u: u64| keeps_user(users[u], now, retention_seconds)))
}

/// Inactive users are evicted once every this many messages.
pub open spec fn eviction_period() -> int {
    512
}

/// The state after counting one more message, with the periodic eviction.
pub open spec fn counted(s: StateView, now: u64) -> StateView {
    let events = ((s.events + 1) % 0x1_0000_0000_0000_0000) as u64;
    StateView {
        events,
        users: if events as int % eviction_period() == 0 { evicted(s.users, now, s.retention_seconds) } else { s.users },
        ..s
    }
}

/// A user with nothing remembered yet.
pub open spec fn fresh_activity() -> ActivityView {
    ActivityView {
        messages: Seq::empty(),
        duplicates: Map::empty(),
        protected_pings: Seq::empty(),
        last_seen: None,
    }
}

/// The user's activity, marked as seen now.
pub open spec fn seen_activity(users: Map<u64, ActivityView>, user_id: u64, now: u64) -> ActivityView {
    let a = if users.contains_key(user_id) { users[user_id] } else { fresh_activity() };
    ActivityView { last_seen: Some(now), ..a }
}

/// Some mentioned role is protected.
pub open spec fn pings_protected_role(roles: Seq<u64>, c: Config) -> bool {
    exists|i: int| 0 <= i < roles.len() && c.mentions.protected_role_ids@.contains(#[trigger] roles[i])
}

/// The protected-role ping window after this message.
pub open spec fn pings_after(a: ActivityView, roles: Seq<u64>, c: Config, now: u64) -> Seq<u64> {
    if c.mentions.enabled && pings_protected_role(roles, c) {
        pruned(a.protected_pings, now, c.mentions.protected_role_window_seconds).push(now)
    } else {
        a.protected_pings
    }
}

/// The flood window after this message.
pub open spec fn messages_after(a: ActivityView, c: Config, now: u64) -> Seq<u64> {
    if c.spam.enabled {
        pruned(a.messages, now, c.spam.window_seconds).push(now)
    } else {
        a.messages
    }
}

/// The bucket that groups repeats of a normalized message: the finish value of
/// a `DefaultHasher` fed the message's UTF-8 bytes and then the `0xff`
/// terminator, which is how a `str` hashes itself.
pub open spec fn message_hash(normalized: Seq<char>) -> u64 {
    DefaultHasher::spec_finish(seq![vstd::utf8::encode_utf8(normalized), seq![0xffu8]])
}

/// The repeat window of this message's bucket before it arrives.
pub open spec fn bucket(a: ActivityView, normalized: Seq<char>) -> Seq<u64> {
    let h = message_hash(normalized);
    if a.duplicates.contains_key(h) { a.duplicates[h] } else { Seq::empty() }
}

/// Repeats are tracked for this message.
pub open spec fn tracks_repeats(normalized: Seq<char>, c: Config) -> bool {
    c.spam.enabled && normalized.len() > 0
}

/// The repeat windows after this message.
pub open spec fn duplicates_after(a: ActivityView, normalized: Seq<char>, c: Config, now: u64) -> Map<u64, Seq<u64>> {
    if tracks_repeats(normalized, c) {
        a.duplicates.insert(
            message_hash(normalized),
            pruned(bucket(a, normalized), now, c.spam.duplicate_window_seconds).push(now),
        )
    } else {
        a.duplicates
    }
}

/// The user's activity after this message.
pub open spec fn activity_after(a: ActivityView, roles: Seq<u64>, normalized: Seq<char>, c: Config, now: u64) -> ActivityView {
    ActivityView {
        protected_pings: pings_after(a, roles, c, now),
        messages: messages_after(a, c, now),
        duplicates: duplicates_after(a, normalized, c, now),
        last_seen: a.last_seen,
    }
}

/// `Some(v)` as a one-element sequence, nothing otherwise.
pub open spec fn reported(b: bool, v: Violation) -> Seq<Violation> {
    if b { seq![v] } else { Seq::empty() }
}

/// The violations that a message commits, in the order they are reported,
/// given the user's activity `a` before it (already marked as seen).
pub open spec fn message_violations(
    a: ActivityView,
    content: Seq<char>,
    normalized: Seq<char>,
    total_mentions: usize,
    everyone_mentions: usize,
    roles: Seq<u64>,
    c: Config,
    now: u64,
) -> Seq<Violation> {
    let m = c.mentions.enabled;
    let s = c.spam.enabled;
    let after = activity_after(a, roles, normalized, c, now);
    reported(m && total_mentions > c.mentions.max_total_mentions, Violation::MassMention)
        + reported(m && everyone_mentions > c.mentions.max_everyone_mentions, Violation::EveryoneMention)
        + reported(m && pings_protected_role(roles, c) && after.protected_pings.len() > c.mentions.protected_role_max_pings, Violation::ProtectedRolePing)
        + reported(s && after.messages.len() > c.spam.max_messages, Violation::MessageFlood)
        + reported(tracks_repeats(normalized, c) && after.duplicates[message_hash(normalized)].len() > c.spam.max_duplicates, Violation::DuplicateSpam)
        + reported(c.invites.enabled && first_unapproved_invite(content, string_views(c.invites.allowed_codes@)) is Some, Violation::UnapprovedInvite)
}

/// The larger of two timeouts.
pub open spec fn max_u64(a: u64, b: u64) -> u64 {
    if a >= b { a } else { b }
}

/// The timeout for a set of violations: the longest timeout among the
/// detectors that fired, or zero.
pub open spec fn timeout_for(v: Seq<Violation>, c: Config) -> u64 {
    let mention = v.contains(Violation::MassMention) || v.contains(Violation::EveryoneMention)
        || v.contains(Violation::ProtectedRolePing);
    let spam = v.contains(Violation::MessageFlood) || v.contains(Violation::DuplicateSpam);
    let invite = v.contains(Violation::UnapprovedInvite);
    max_u64(
        max_u64(
            if mention { c.mentions.timeout_seconds } else { 0 },
            if spam { c.spam.timeout_seconds } else { 0 },
        ),
        if invite { c.invites.timeout_seconds } else { 0 },
    )
}

/// The timeout configured for the detector that reports `v`: the mention
/// detectors (mass mentions, `@everyone`, protected-role pings) share the
/// mention timeout, the spam detectors (floods, repeats) the spam timeout.
pub open spec fn detector_timeout(v: Violation, c: Config) -> u64 {
    match v {
        Violation::MassMention | Violation::EveryoneMention | Violation::ProtectedRolePing => c.mentions.timeout_seconds,
        Violation::MessageFlood | Violation::DuplicateSpam => c.spam.timeout_seconds,
        Violation::UnapprovedInvite => c.invites.timeout_seconds,
    }
}

/// The timeout is the longest configured timeout among the detectors that
/// fired: it is at least the timeout of every reported violation, and it is
/// either zero or the timeout of one of them.
pub proof fn lemma_timeout_is_the_longest_fired(v: Seq<Violation>, c: Config)
    ensures
        forall|i: int| 0 <= i < v.len() ==> timeout_for(v, c) >= detector_timeout(#[trigger] v[i], c),
        timeout_for(v, c) == 0 || exists|i: int| 0 <= i < v.len() && timeout_for(v, c) == detector_timeout(#[trigger] v[i], c),
{
    assert forall|i: int| 0 <= i < v.len() implies timeout_for(v, c) >= detector_timeout(#[trigger] v[i], c) by {
        assert(v.contains(v[i]));
    }
    let t = timeout_for(v, c);
    if t != 0 {
        assert(exists|x: Violation| v.contains(x) && t == detector_timeout(x, c));
        let x = choose|x: Violation| v.contains(x) && t == detector_timeout(x, c);
        let i = choose|i: int| 0 <= i < v.len() && v[i] == x;
        assert(timeout_for(v, c) == detector_timeout(v[i], c));
    }
}

proof fn lemma_concat_contains(a: Seq<Violation>, b: Seq<Violation>, x: Violation)
    ensures
        (a + b).contains(x) <==> a.contains(x) || b.contains(x),
{
    if a.contains(x) {
        let i = choose|i: int| 0 <= i < a.len() && a[i] == x;
        assert((a + b)[i] == x);
    }
    if b.contains(x) {
        let i = choose|i: int| 0 <= i < b.len() && b[i] == x;
        assert((a + b)[a.len() + i] == x);
    }
    if (a + b).contains(x) {
        let i = choose|i: int| 0 <= i < (a + b).len() && (a + b)[i] == x;
        if i < a.len() {
            assert(a[i] == x);
        } else {
            assert(b[i - a.len()] == x);
        }
    }
}

proof fn lemma_reported_contains(b: bool, v: Violation, x: Violation)
    ensures
        reported(b, v).contains(x) <==> b && v == x,
{
    if b {
        assert(reported(b, v)[0] == v);
    }
}

/// Which detectors fired, read back from the violations they report.
proof fn lemma_fired(b: Seq<bool>)
    requires
        b.len() == 6,
    ensures
        ({
            let v = reported(b[0], Violation::MassMention) + reported(b[1], Violation::EveryoneMention)
                + reported(b[2], Violation::ProtectedRolePing) + reported(b[3], Violation::MessageFlood)
                + reported(b[4], Violation::DuplicateSpam) + reported(b[5], Violation::UnapprovedInvite);
            &&& v.contains(Violation::MassMention) == b[0]
            &&& v.contains(Violation::EveryoneMention) == b[1]
            &&& v.contains(Violation::ProtectedRolePing) == b[2]
            &&& v.contains(Violation::MessageFlood) == b[3]
            &&& v.contains(Violation::DuplicateSpam) == b[4]
            &&& v.contains(Violation::UnapprovedInvite) == b[5]
        }),
{
    let w0 = reported(b[0], Violation::MassMention);
    let w1 = reported(b[1], Violation::EveryoneMention);
    let w2 = reported(b[2], Violation::ProtectedRolePing);
    let w3 = reported(b[3], Violation::MessageFlood);
    let w4 = reported(b[4], Violation::DuplicateSpam);
    let w5 = reported(b[5], Violation::UnapprovedInvite);
    let all = seq![
        Violation::MassMention,
        Violation::EveryoneMention,
        Violation::ProtectedRolePing,
        Violation::MessageFlood,
        Violation::DuplicateSpam,
        Violation::UnapprovedInvite,
    ];
    assert forall|k: int| 0 <= k < 6 implies (w0 + w1 + w2 + w3 + w4 + w5).contains(#[trigger] all[k]) == b[k] by {
        let x = all[k];
        lemma_concat_contains(w0 + w1 + w2 + w3 + w4, w5, x);
        lemma_concat_contains(w0 + w1 + w2 + w3, w4, x);
        lemma_concat_contains(w0 + w1 + w2, w3, x);
        lemma_concat_contains(w0 + w1, w2, x);
        lemma_concat_contains(w0, w1, x);
        lemma_reported_contains(b[0], Violation::MassMention, x);
        lemma_reported_contains(b[1], Violation::EveryoneMention, x);
        lemma_reported_contains(b[2], Violation::ProtectedRolePing, x);
        lemma_reported_contains(b[3], Violation::MessageFlood, x);
        lemma_reported_contains(b[4], Violation::DuplicateSpam, x);
        lemma_reported_contains(b[5], Violation::UnapprovedInvite, x);
    }
    assert(all[0] == Violation::MassMention);
    assert(all[1] == Violation::EveryoneMention);
    assert(all[2] == Violation::ProtectedRolePing);
    assert(all[3] == Violation::MessageFlood);
    assert(all[4] == Violation::DuplicateSpam);
    assert(all[5] == Violation::UnapprovedInvite);
}

/// The state after a message from `user_id`.
pub open spec fn state_after_message(
    s: StateView,
    user_id: u64,
    normalized: Seq<char>,
    roles: Seq<u64>,
    c: Config,
    now: u64,
) -> StateView {
    let s1 = counted(s, now);
    let a = seen_activity(s1.users, user_id, now);
    StateView { users: s1.users.insert(user_id, activity_after(a, roles, normalized, c, now)), ..s1 }
}

/// The violations of a message from `user_id`, judged against state `s`.
pub open spec fn violations_of_message(
    s: StateView,
    user_id: u64,
    content: Seq<char>,
    normalized: Seq<char>,
    total_mentions: usize,
    everyone_mentions: usize,
    roles: Seq<u64>,
    c: Config,
    now: u64,
) -> Seq<Violation> {
    let a = seen_activity(counted(s, now).users, user_id, now);
    message_violations(a, content, normalized, total_mentions, everyone_mentions, roles, c, now)
}

/// The normalized form of a message used to find repeats: trimmed, then
/// lower-cased. `str::to_lowercase` lowers an ASCII text exactly as ASCII
/// lowering does, so ASCII text takes that verified path; other text goes
/// through `str::to_lowercase`.
pub open spec fn normalized_content(content: Seq<char>) -> Seq<char> {
    let t = trimmed(content);
    if all_ascii(t) {
        ascii_lowercase(t)
    } else {
        lowercase(t)
    }
}

/// Repeats ignore letter case: two ASCII messages that are equal once their
/// letters are lowered normalize to the same text, so they land in the same
/// repeat bucket.
pub proof fn lemma_letter_case_is_ignored(a: Seq<char>, b: Seq<char>)
    requires
        all_ascii(a),
        all_ascii(b),
        ascii_lowercase(a) == ascii_lowercase(b),
    ensures
        normalized_content(a) == normalized_content(b),
{
    lemma_trim_lowers(a);
    lemma_trim_lowers(b);
}

/// Repeats ignore surrounding white space: a message padded with white space
/// normalizes to the same text as the bare message, so both land in the same
/// repeat bucket.
pub proof fn lemma_padding_normalizes_away(p: Seq<char>, s: Seq<char>, q: Seq<char>)
    requires
        all_white_space(p),
        all_white_space(q),
    ensures
        normalized_content(p + s + q) == normalized_content(s),
{
    lemma_trim_ignores_surrounding_white_space(p, s, q);
}

/// An account's age at join time, in whole seconds, never negative.
pub open spec fn account_age(now_unix: i64, account_created_unix: i64) -> i64 {
    let d = now_unix - account_created_unix;
    if d < 0 { 0 } else if d > i64::MAX { i64::MAX } else { d as i64 }
}

/// Raid mode is on at `now`.
pub open spec fn raid_active_at(raid_until: Option<int>, now: u64) -> bool {
    match raid_until {
        Some(until) => until > now,
        None => false,
    }
}

/// The join window after this join.
pub open spec fn joins_after(s: StateView, c: Config, now: u64) -> Seq<u64> {
    pruned(s.joins, now, c.raids.join_window_seconds).push(now)
}

/// This join brings the window to the raid threshold.
pub open spec fn threshold_reached(s: StateView, c: Config, now: u64) -> bool {
    joins_after(s, c, now).len() >= c.raids.join_threshold
}

/// When raid mode ends after this join: a join that reaches the threshold
/// starts or extends raid mode; an expired raid mode is cleared.
pub open spec fn raid_until_after(s: StateView, c: Config, now: u64) -> Option<int> {
    if threshold_reached(s, c, now) {
        Some(now + nanos(c.raids.raid_mode_seconds))
    } else if !raid_active_at(s.raid_until, now) {
        None
    } else {
        s.raid_until
    }
}

/// The state after a join.
pub open spec fn state_after_join(s: StateView, c: Config, now: u64) -> StateView {
    if c.raids.enabled {
        StateView { joins: joins_after(s, c, now), raid_until: raid_until_after(s, c, now), ..s }
    } else {
        s
    }
}

/// The decision about a join.
pub open spec fn join_decision(s: StateView, c: Config, now: u64, now_unix: i64, account_created_unix: i64) -> JoinDecision {
    let age = account_age(now_unix, account_created_unix);
    if c.raids.enabled {
        JoinDecision {
            raid_active: raid_active_at(raid_until_after(s, c, now), now),
            raid_activated: !raid_active_at(s.raid_until, now) && threshold_reached(s, c, now),
            join_count: joins_after(s, c, now).len() as usize,
            account_age_seconds: age,
            young_account: age < c.raids.minimum_account_age_seconds,
        }
    } else {
        JoinDecision {
            raid_active: false,
            raid_activated: false,
            join_count: 0,
            account_age_seconds: age,
            young_account: false,
        }
    }
}

/// What the detectors see of one message.
#[derive(Debug)]
pub struct MessageInput<'a> {
    pub user_id: u64,
    pub content: &'a str,
    pub total_mentions: usize,
    pub everyone_mentions: usize,
    pub mentioned_roles: &'a [u64],
}

/// What to do about one message.
#[derive(Debug)]
pub struct MessageDecision {
    pub violations: Vec<Violation>,
    pub timeout_seconds: u64,
}

impl Default for MessageDecision {
    fn default() -> (r: Self)
        ensures
            r.violations@.len() == 0,
            r.timeout_seconds == 0,
    {
        MessageDecision { violations: Vec::new(), timeout_seconds: 0 }
    }
}

impl MessageDecision {
    /// A message is deleted exactly when it committed some violation.
    pub fn should_delete(&self) -> (r: bool)
        ensures
            r == (self.violations@.len() > 0),
    {
        self.violations.len() > 0
    }
}

/// What to do about one join.
#[derive(Debug, Clone, Copy)]
pub struct JoinDecision {
    pub raid_active: bool,
    pub raid_activated: bool,
    pub join_count: usize,
    pub account_age_seconds: i64,
    pub young_account: bool,
}

struct UserActivity {
    messages: VecDeque<u64>,
    duplicates: HashMap<u64, VecDeque<u64>>,
    protected_pings: VecDeque<u64>,
    last_seen: Option<u64>,
}

impl UserActivity {
    spec fn view(&self) -> ActivityView {
        ActivityView {
            messages: self.messages@,
            duplicates: Map::new(
                |h: u64| self.duplicates@.contains_key(h),
                |h: u64| self.duplicates@[h]@,
            ),
            protected_pings: self.protected_pings@,
            last_seen: self.last_seen,
        }
    }

    /// Records a message that pings a protected role, when the mention guard
    /// is on; reports whether the ping limit is now exceeded.
    fn note_ping(&mut self, roles: &[u64], config: &Config, now: u64) -> (flagged: bool)
        ensures
            final(self).view() == (ActivityView {
                protected_pings: pings_after(old(self).view(), roles@, *config, now),
                ..old(self).view()
            }),
            flagged == (config.mentions.enabled && pings_protected_role(roles@, *config)
                && pings_after(old(self).view(), roles@, *config, now).len() > config.mentions.protected_role_max_pings),
    {
        if config.mentions.enabled && mentions_protected_role(roles, config) {
            prune(&mut self.protected_pings, now, config.mentions.protected_role_window_seconds);
            self.protected_pings.push_back(now);
            self.protected_pings.len() > config.mentions.protected_role_max_pings
        } else {
            false
        }
    }

    /// Records a message in the flood window, when the spam guard is on;
    /// reports whether the flood limit is now exceeded.
    fn note_message(&mut self, config: &Config, now: u64) -> (flagged: bool)
        ensures
            final(self).view() == (ActivityView {
                messages: messages_after(old(self).view(), *config, now),
                ..old(self).view()
            }),
            flagged == (config.spam.enabled && messages_after(old(self).view(), *config, now).len() > config.spam.max_messages),
    {
        if config.spam.enabled {
            prune(&mut self.messages, now, config.spam.window_seconds);
            self.messages.push_back(now);
            self.messages.len() > config.spam.max_messages
        } else {
            false
        }
    }

    /// Records a repeat of a normalized message, when the spam guard is on and
    /// the message is not empty; reports whether the repeat limit is now exceeded.
    fn note_repeat(&mut self, normalized: &str, config: &Config, now: u64) -> (flagged: bool)
        ensures
            final(self).view() == (ActivityView {
                duplicates: duplicates_after(old(self).view(), normalized@, *config, now),
                ..old(self).view()
            }),
            flagged == (tracks_repeats(normalized@, *config)
                && duplicates_after(old(self).view(), normalized@, *config, now)[message_hash(normalized@)].len() > config.spam.max_duplicates),
    {
        if config.spam.enabled && !normalized.is_empty() {
            let ghost a0 = self.view();
            let h = hash_message(normalized);
            let ghost d0 = self.duplicates@;
            let mut occurrences = match self.duplicates.remove(&h) {
                Some(q) => q,
                None => VecDeque::new(),
            };
            assert(occurrences@ == bucket(a0, normalized@));
            prune(&mut occurrences, now, config.spam.duplicate_window_seconds);
            occurrences.push_back(now);
            let n = occurrences.len();
            let ghost q = occurrences@;
            self.duplicates.insert(h, occurrences);
            assert(self.duplicates@ == d0.remove(h).insert(h, self.duplicates@[h]));
            assert(self.duplicates@[h]@ == q);
            assert(self.view().duplicates =~= a0.duplicates.insert(h, q));
            n > config.spam.max_duplicates
        } else {
            false
        }
    }

    fn new() -> (r: Self)
        ensures
            r.view() == fresh_activity(),
    {
        let r = UserActivity {
            messages: VecDeque::new(),
            duplicates: HashMap::new(),
            protected_pings: VecDeque::new(),
            last_seen: None,
        };
        assert(r.view().duplicates =~= Map::<u64, Seq<u64>>::empty());
        r
    }
}

/// The rolling windows behind the message and join guards.
pub struct SecurityState {
    users: HashMap<u64, UserActivity>,
    events: u64,
    joins: VecDeque<u64>,
    raid_until: Option<u128>,
    retention_seconds: u64,
}

impl View for SecurityState {
    type V = StateView;

    closed spec fn view(&self) -> StateView {
        StateView {
            users: Map::new(
                |u: u64| self.users@.contains_key(u),
                |u: u64| self.users@[u].view(),
            ),
            events: self.events,
            joins: self.joins@,
            raid_until: match self.raid_until {
                Some(t) => Some(t as int),
                None => None,
            },
            retention_seconds: self.retention_seconds,
        }
    }
}

/// How long inactive users are remembered: twice the longest window, and at
/// least two minutes.
pub open spec fn retention_for(c: Config) -> u64 {
    let w = max_u64(
        max_u64(max_u64(c.spam.duplicate_window_seconds, c.spam.window_seconds), c.mentions.protected_role_window_seconds),
        60,
    );
    if w as int * 2 > u64::MAX { u64::MAX } else { (w * 2) as u64 }
}

fn max_of(a: u64, b: u64) -> (r: u64)
    ensures
        r == max_u64(a, b),
{
    if a >= b { a } else { b }
}

fn stale(t: u64, now: u64, window_seconds: u64) -> (r: bool)
    ensures
        r == is_stale(t, now, window_seconds),
{
    let e: u64 = if now >= t { now - t } else { 0 };
    (e as u128) > (window_seconds as u128) * 1_000_000_000
}

fn prune(q: &mut VecDeque<u64>, now: u64, window_seconds: u64)
    ensures
        final(q)@ == pruned(old(q)@, now, window_seconds),
{
    while q.len() > 0 && stale(q[0], now, window_seconds)
        invariant
            pruned(old(q)@, now, window_seconds) == pruned(q@, now, window_seconds),
        decreases q@.len(),
    {
        let _ = q.pop_front();
    }
}

fn hash_message(s: &str) -> (h: u64)
    ensures
        h == message_hash(s@),
{
    let terminator: [u8; 1] = [0xff];
    let mut hasher = DefaultHasher::new();
    hasher.write(s.as_bytes());
    hasher.write(&terminator);
    let h = hasher.finish();
    assert(terminator@ =~= seq![0xffu8]);
    assert(Seq::<Seq<u8>>::empty().push(s.spec_bytes()).push(terminator@) =~= seq![
        vstd::utf8::encode_utf8(s@),
        seq![0xffu8],
    ]);
    h
}

fn mentions_protected_role(roles: &[u64], config: &Config) -> (r: bool)
    ensures
        r == pings_protected_role(roles@, *config),
{
    let mut i: usize = 0;
    while i < roles.len()
        invariant
            i <= roles@.len(),
            forall|j: int| 0 <= j < i ==> !config.mentions.protected_role_ids@.contains(#[trigger] roles@[j]),
        decreases roles.len() - i,
    {
        if config.mentions.protected_role_ids.contains(&roles[i]) {
            return true;
        }
        i = i + 1;
    }
    false
}

fn decision_from(
    mass: bool,
    everyone: bool,
    ping: bool,
    flood: bool,
    repeat: bool,
    invite: bool,
    config: &Config,
) -> (r: MessageDecision)
    ensures
        r.violations@ == reported(mass, Violation::MassMention) + reported(everyone, Violation::EveryoneMention)
            + reported(ping, Violation::ProtectedRolePing) + reported(flood, Violation::MessageFlood)
            + reported(repeat, Violation::DuplicateSpam) + reported(invite, Violation::UnapprovedInvite),
        r.timeout_seconds == timeout_for(r.violations@, *config),
{
    let mut violations: Vec<Violation> = Vec::new();
    if mass {
        violations.push(Violation::MassMention);
    }
    if everyone {
        violations.push(Violation::EveryoneMention);
    }
    if ping {
        violations.push(Violation::ProtectedRolePing);
    }
    if flood {
        violations.push(Violation::MessageFlood);
    }
    if repeat {
        violations.push(Violation::DuplicateSpam);
    }
    if invite {
        violations.push(Violation::UnapprovedInvite);
    }
    assert(violations@ =~= reported(mass, Violation::MassMention) + reported(everyone, Violation::EveryoneMention)
        + reported(ping, Violation::ProtectedRolePing) + reported(flood, Violation::MessageFlood)
        + reported(repeat, Violation::DuplicateSpam) + reported(invite, Violation::UnapprovedInvite));
    proof {
        lemma_fired(seq![mass, everyone, ping, flood, repeat, invite]);
    }
    let mention_timeout: u64 = if mass || everyone || ping { config.mentions.timeout_seconds } else { 0 };
    let spam_timeout: u64 = if flood || repeat { config.spam.timeout_seconds } else { 0 };
    let invite_timeout: u64 = if invite { config.invites.timeout_seconds } else { 0 };
    MessageDecision { violations, timeout_seconds: max_of(max_of(mention_timeout, spam_timeout), invite_timeout) }
}

impl SecurityState {
    /// An empty state whose retention suits `config`.
    pub fn new(config: &Config) -> (r: Self)
        ensures
            r@.users == Map::<u64, ActivityView>::empty(),
            r@.events == 0,
            r@.joins == Seq::<u64>::empty(),
            r@.raid_until is None,
            r@.retention_seconds == retention_for(*config),
    {
        let w = max_of(
            max_of(max_of(config.spam.duplicate_window_seconds, config.spam.window_seconds), config.mentions.protected_role_window_seconds),
            60,
        );
        let retention_seconds = if w > u64::MAX / 2 { u64::MAX } else { w * 2 };
        let r = SecurityState {
            users: HashMap::new(),
            events: 0,
            joins: VecDeque::new(),
            raid_until: None,
            retention_seconds,
        };
        assert(r@.users =~= Map::<u64, ActivityView>::empty());
        r
    }

    fn evict(&mut self, now: u64)
        ensures
            final(self)@ == (StateView { users: evicted(old(self)@.users, now, old(self)@.retention_seconds), ..old(self)@ }),
    {
        let ghost before = self@;
        let mut stale_users: Vec<u64> = Vec::new();
        let ghost all_keys = vstd::std_specs::hash::spec_keys_iter(&self.users).remaining();
        for k in it: self.users.keys()
            invariant
                self@ == before,
                it.seq() == all_keys,
                forall|i: int| 0 <= i < stale_users@.len() ==> before.users.contains_key(#[trigger] stale_users@[i])
                    && !keeps_user(before.users[stale_users@[i]], now, before.retention_seconds),
                forall|j: int| 0 <= j < it.index() ==> (before.users.contains_key(*#[trigger] it.seq()[j])
                    && !keeps_user(before.users[*it.seq()[j]], now, before.retention_seconds)
                    ==> stale_users@.contains(*it.seq()[j])),
        {
            let keep = match self.users.get(k) {
                Some(a) => match a.last_seen {
                    Some(seen) => !stale(seen, now, self.retention_seconds),
                    None => false,
                },
                None => true,
            };
            let ghost prev = stale_users@;
            if !keep {
                stale_users.push(*k);
                assert(stale_users@[stale_users@.len() - 1] == *k);
            }
            assert forall|x: u64| prev.contains(x) implies stale_users@.contains(x) by {
                let j = choose|j: int| 0 <= j < prev.len() && prev[j] == x;
                assert(stale_users@[j] == x);
            }
        }
        let ghost target = evicted(before.users, now, before.retention_seconds);
        assert forall|u: u64| #[trigger] before.users.contains_key(u) && !keeps_user(before.users[u], now, before.retention_seconds)
            implies stale_users@.contains(u) by {
            assert(all_keys.unref().to_set().contains(u));
        }
        for i in 0..stale_users.len()
            invariant
                self@.events == before.events,
                self@.joins == before.joins,
                self@.raid_until == before.raid_until,
                self@.retention_seconds == before.retention_seconds,
                forall|u: u64| #[trigger] self@.users.contains_key(u) ==> before.users.contains_key(u) && self@.users[u] == before.users[u],
                forall|u: u64| #[trigger] before.users.contains_key(u) && keeps_user(before.users[u], now, before.retention_seconds) ==> self@.users.contains_key(u),
                forall|j: int| 0 <= j < i ==> !self@.users.contains_key(#[trigger] stale_users@[j]),
                forall|j: int| 0 <= j < stale_users@.len() ==> before.users.contains_key(#[trigger] stale_users@[j])
                    && !keeps_user(before.users[stale_users@[j]], now, before.retention_seconds),
        {
            let ghost prev = self.users@;
            let ghost prev_view = self@;
            let _ = self.users.remove(&stale_users[i]);
            assert(self.users@ == prev.remove(stale_users@[i as int]));
            assert forall|u: u64| #[trigger] self@.users.contains_key(u) implies before.users.contains_key(u) && self@.users[u] == before.users[u] by {
                assert(prev.contains_key(u));
                assert(prev_view.users.contains_key(u));
                assert(self@.users[u] == prev_view.users[u]);
            }
        }
        assert(self@.users =~= target);
    }

    /// Judges one message whose normalized form (trimmed, lower-cased) is
    /// `normalized`, and records it in the sender's rolling windows.
    pub fn inspect_normalized_message(
        &mut self,
        input: &MessageInput<'_>,
        normalized: &str,
        config: &Config,
        now: u64,
    ) -> (r: MessageDecision)
        ensures
            final(self)@ == state_after_message(old(self)@, input.user_id, normalized@, input.mentioned_roles@, *config, now),
            r.violations@ == violations_of_message(
                old(self)@,
                input.user_id,
                input.content@,
                normalized@,
                input.total_mentions,
                input.everyone_mentions,
                input.mentioned_roles@,
                *config,
                now,
            ),
            r.timeout_seconds == timeout_for(r.violations@, *config),
    {
        let ghost s1 = counted(old(self)@, now);
        let mut activity = self.begin_message(input.user_id, now);
        let ghost a0 = activity.view();
        let ghost after = activity_after(a0, input.mentioned_roles@, normalized@, *config, now);
        let m = config.mentions.enabled;
        let mass = m && input.total_mentions > config.mentions.max_total_mentions;
        let everyone = m && input.everyone_mentions > config.mentions.max_everyone_mentions;
        let ping = activity.note_ping(input.mentioned_roles, config, now);
        let flood = activity.note_message(config, now);
        let repeat = activity.note_repeat(normalized, config, now);
        assert(activity.view() == after);
        let ghost pu = self.users@;
        let ghost pv = self@;
        let ghost act = activity;
        self.users.insert(input.user_id, activity);
        assert(self.users@ == pu.insert(input.user_id, act));
        assert forall|u: u64| u != input.user_id && #[trigger] pv.users.contains_key(u) implies self@.users[u] == pv.users[u] by {
            assert(self.users@[u] == pu[u]);
        }
        assert(pv.users == s1.users.remove(input.user_id));
        assert forall|u: u64| #[trigger] self@.users.contains_key(u) == s1.users.insert(input.user_id, after).contains_key(u) by {
            if u != input.user_id {
                assert(self.users@.contains_key(u) == pu.contains_key(u));
                assert(pu.contains_key(u) == pv.users.contains_key(u));
            }
        }
        assert(self@.users[input.user_id] == after);
        assert forall|u: u64| u != input.user_id && #[trigger] self@.users.contains_key(u) implies self@.users[u] == s1.users[u] by {
            assert(pv.users.contains_key(u));
        }
        assert(self@.users =~= s1.users.insert(input.user_id, after));
        let invite = config.invites.enabled && unapproved_invite(input.content, &config.invites.allowed_codes).is_some();
        decision_from(mass, everyone, ping, flood, repeat, invite, config)
    }

    /// Judges one message and records it in the sender's rolling windows. The
    /// content is normalized for repeat detection by trimming white space and
    /// lower-casing it.
    pub fn inspect_message(&mut self, input: &MessageInput<'_>, config: &Config, now: u64) -> (r: MessageDecision)
        ensures
            final(self)@ == state_after_message(
                old(self)@,
                input.user_id,
                normalized_content(input.content@),
                input.mentioned_roles@,
                *config,
                now,
            ),
            r.violations@ == violations_of_message(
                old(self)@,
                input.user_id,
                input.content@,
                normalized_content(input.content@),
                input.total_mentions,
                input.everyone_mentions,
                input.mentioned_roles@,
                *config,
                now,
            ),
            r.timeout_seconds == timeout_for(r.violations@, *config),
    {
        let chars = chars_of(input.content);
        let trimmed_chars = trim_chars(&chars);
        let normalized = if is_ascii_text(&trimmed_chars) {
            string_of(&ascii_lowercase_chars(&trimmed_chars))
        } else {
            to_lowercase(string_of(&trimmed_chars).as_str())
        };
        self.inspect_normalized_message(input, normalized.as_str(), config, now)
    }

    /// Records a join and judges it against the raid rules. `now` is the
    /// monotonic clock in nanoseconds; `now_unix` and `account_created_unix`
    /// are wall-clock seconds.
    pub fn inspect_join(&mut self, config: &Config, now: u64, now_unix: i64, account_created_unix: i64) -> (r: JoinDecision)
        ensures
            final(self)@ == state_after_join(old(self)@, *config, now),
            r == join_decision(old(self)@, *config, now, now_unix, account_created_unix),
    {
        let d: i128 = now_unix as i128 - account_created_unix as i128;
        let account_age_seconds: i64 = if d < 0 {
            0
        } else if d > i64::MAX as i128 {
            i64::MAX
        } else {
            d as i64
        };
        if !config.raids.enabled {
            return JoinDecision {
                raid_active: false,
                raid_activated: false,
                join_count: 0,
                account_age_seconds,
                young_account: false,
            };
        }
        let ghost s0 = self@;
        prune(&mut self.joins, now, config.raids.join_window_seconds);
        self.joins.push_back(now);
        let was_active = match self.raid_until {
            Some(until) => until > now as u128,
            None => false,
        };
        let threshold = self.joins.len() >= config.raids.join_threshold;
        if threshold {
            self.raid_until = Some(now as u128 + (config.raids.raid_mode_seconds as u128) * 1_000_000_000);
        } else if !was_active {
            self.raid_until = None;
        }
        let raid_active = match self.raid_until {
            Some(until) => until > now as u128,
            None => false,
        };
        assert(self@.raid_until == raid_until_after(s0, *config, now));
        JoinDecision {
            raid_active,
            raid_activated: !was_active && threshold,
            join_count: self.joins.len(),
            account_age_seconds,
            young_account: account_age_seconds < config.raids.minimum_account_age_seconds,
        }
    }

    /// Counts the message (evicting inactive users when due) and takes the
    /// sender's activity out of the table, marked as seen now.
    fn begin_message(&mut self, user_id: u64, now: u64) -> (a: UserActivity)
        ensures
            final(self)@ == (StateView { users: counted(old(self)@, now).users.remove(user_id), ..counted(old(self)@, now) }),
            a.view() == seen_activity(counted(old(self)@, now).users, user_id, now),
    {
        self.events = if self.events == u64::MAX { 0 } else { self.events + 1 };
        if self.events % 512 == 0 {
            self.evict(now);
        }
        let ghost s1 = self@;
        let mut activity = match self.users.remove(&user_id) {
            Some(a) => a,
            None => UserActivity::new(),
        };
        activity.last_seen = Some(now);
        assert(self@.users =~= s1.users.remove(user_id));
        activity
    }
}


/// Timestamps in order, none later than `now`: what a monotonic clock leaves
/// in a rolling window.
pub open spec fn ordered_until(q: Seq<u64>, now: u64) -> bool {
    &&& forall|i: int, j: int| 0 <= i <= j < q.len() ==> q[i] <= q[j]
    &&& forall|i: int| 0 <= i < q.len() ==> q[i] <= now
}

/// The entries of a window that lie within `window_seconds` of `now`.
pub open spec fn recent(q: Seq<u64>, now: u64, window_seconds: u64) -> Seq<u64> {
    q.filter(|t: u64| !is_stale(t, now, window_seconds))
}

/// With a monotonic clock, pruning a rolling window keeps exactly the entries
/// that lie within the window.
pub proof fn lemma_pruned_is_recent(q: Seq<u64>, now: u64, window_seconds: u64)
    requires
        ordered_until(q, now),
    ensures
        pruned(q, now, window_seconds) == recent(q, now, window_seconds),
    decreases q.len(),
{
    let pred = |t: u64| !is_stale(t, now, window_seconds);
    if q.len() > 0 {
        let rest = q.drop_first();
        assert(q == seq![q[0]] + rest);
        rest.lemma_filter_prepend(q[0], pred);
        if is_stale(q[0], now, window_seconds) {
            assert(ordered_until(rest, now)) by {
                assert forall|i: int, j: int| 0 <= i <= j < rest.len() implies rest[i] <= rest[j] by {
                    assert(rest[i] == q[i + 1] && rest[j] == q[j + 1]);
                }
                assert forall|i: int| 0 <= i < rest.len() implies rest[i] <= now by {
                    assert(rest[i] == q[i + 1]);
                }
            }
            lemma_pruned_is_recent(rest, now, window_seconds);
            assert(seq![q[0]].filter(pred) =~= Seq::<u64>::empty()) by {
                reveal(Seq::filter);
                assert(seq![q[0]].drop_last() =~= Seq::<u64>::empty());
            }
            assert(Seq::<u64>::empty() + rest.filter(pred) =~= rest.filter(pred));
        } else {
            assert forall|i: int| 0 <= i < q.len() implies pred(q[i]) by {
                assert(q[0] <= q[i]);
            }
            lemma_filter_keeps_all(q, pred);
        }
    } else {
        lemma_filter_keeps_all(q, pred);
    }
}

proof fn lemma_filter_keeps_all(q: Seq<u64>, pred: spec_fn(u64) -> bool)
    requires
        forall|i: int| 0 <= i < q.len() ==> pred(q[i]),
    ensures
        q.filter(pred) == q,
    decreases q.len(),
{
    reveal(Seq::filter);
    if q.len() > 0 {
        let d = q.drop_last();
        assert forall|i: int| 0 <= i < d.len() implies pred(d[i]) by {
            assert(d[i] == q[i]);
        }
        lemma_filter_keeps_all(d, pred);
        assert(pred(q[q.len() - 1]));
        assert(d.push(q.last()) =~= q);
    }
}

proof fn lemma_pruned_is_suffix(q: Seq<u64>, now: u64, window_seconds: u64)
    ensures
        exists|k: int| 0 <= k <= q.len() && #[trigger] q.skip(k) == pruned(q, now, window_seconds),
    decreases q.len(),
{
    if q.len() > 0 && is_stale(q[0], now, window_seconds) {
        lemma_pruned_is_suffix(q.drop_first(), now, window_seconds);
        let k = choose|k: int| 0 <= k <= q.drop_first().len() && #[trigger] q.drop_first().skip(k) == pruned(q.drop_first(), now, window_seconds);
        assert(q.skip(k + 1) == q.drop_first().skip(k));
    } else {
        assert(q.skip(0) == q);
    }
}

/// With a monotonic clock a rolling window stays ordered: after pruning and
/// recording an event at a time no earlier than every entry, the window is
/// again ordered up to that time.
pub proof fn lemma_window_stays_ordered(q: Seq<u64>, earlier: u64, now: u64, window_seconds: u64)
    requires
        ordered_until(q, earlier),
        earlier <= now,
    ensures
        ordered_until(pruned(q, now, window_seconds).push(now), now),
{
    lemma_pruned_is_suffix(q, now, window_seconds);
    let k = choose|k: int| 0 <= k <= q.len() && #[trigger] q.skip(k) == pruned(q, now, window_seconds);
    let r = pruned(q, now, window_seconds).push(now);
    assert forall|i: int, j: int| 0 <= i <= j < r.len() implies r[i] <= r[j] by {
        if j < r.len() - 1 {
            assert(r[i] == q[k + i] && r[j] == q[k + j]);
        } else if i < r.len() - 1 {
            assert(r[i] == q[k + i]);
        }
    }
    assert forall|i: int| 0 <= i < r.len() implies r[i] <= now by {
        if i < r.len() - 1 {
            assert(r[i] == q[k + i]);
        }
    }
}

/// Flood rule: with a monotonic clock, a message is a flood exactly when,
/// counting it, more than `max_messages` of the user's messages lie inside
/// the flood window.
pub proof fn lemma_flood_counts_recent_messages(a: ActivityView, c: Config, now: u64)
    requires
        c.spam.enabled,
        ordered_until(a.messages, now),
    ensures
        messages_after(a, c, now).len() == recent(a.messages, now, c.spam.window_seconds).len() + 1,
{
    lemma_pruned_is_recent(a.messages, now, c.spam.window_seconds);
}

/// Staff-ping rule: with a monotonic clock, a message that pings a protected
/// role is acted on exactly when, counting it, more than
/// `protected_role_max_pings` such messages lie inside the ping window. With
/// a limit of two, the third ping in the window is the first one acted on.
pub proof fn lemma_pings_count_recent_pings(a: ActivityView, roles: Seq<u64>, c: Config, now: u64)
    requires
        c.mentions.enabled,
        pings_protected_role(roles, c),
        ordered_until(a.protected_pings, now),
    ensures
        pings_after(a, roles, c, now).len() == recent(a.protected_pings, now, c.mentions.protected_role_window_seconds).len() + 1,
{
    lemma_pruned_is_recent(a.protected_pings, now, c.mentions.protected_role_window_seconds);
}

/// Repeat rule: with a monotonic clock, a non-empty normalized message is a
/// repeat exactly when, counting it, more than `max_duplicates` messages of
/// its bucket lie inside the repeat window.
pub proof fn lemma_repeats_count_recent_copies(a: ActivityView, normalized: Seq<char>, c: Config, now: u64)
    requires
        tracks_repeats(normalized, c),
        ordered_until(bucket(a, normalized), now),
    ensures
        duplicates_after(a, normalized, c, now)[message_hash(normalized)].len()
            == recent(bucket(a, normalized), now, c.spam.duplicate_window_seconds).len() + 1,
{
    lemma_pruned_is_recent(bucket(a, normalized), now, c.spam.duplicate_window_seconds);
}

/// Raid rule: a join that brings the join window to the threshold starts raid
/// mode, or extends it, for `raid_mode_seconds` from now; it is reported as a
/// new raid only when raid mode was not already on.
pub proof fn lemma_threshold_starts_raid(s: StateView, c: Config, now: u64, now_unix: i64, account_created_unix: i64)
    requires
        c.raids.enabled,
        c.raids.raid_mode_seconds > 0,
        threshold_reached(s, c, now),
    ensures
        state_after_join(s, c, now).raid_until == Some(now + nanos(c.raids.raid_mode_seconds)),
        join_decision(s, c, now, now_unix, account_created_unix).raid_active,
        join_decision(s, c, now, now_unix, account_created_unix).raid_activated == !raid_active_at(s.raid_until, now),
{
}

/// The join times `ts` are in clock order.
pub open spec fn in_clock_order(ts: Seq<u64>) -> bool {
    forall|i: int, j: int| 0 <= i <= j < ts.len() ==> ts[i] <= ts[j]
}

/// How many of the joins `ts[0..=k]` lie inside the join window at `ts[k]`.
pub open spec fn joins_in_window(ts: Seq<u64>, k: int, c: Config) -> nat {
    recent(ts.take(k + 1int), ts[k], c.raids.join_window_seconds).len()
}

/// The join at `ts[k]` brings the window to the raid threshold.
pub open spec fn reaches_threshold(ts: Seq<u64>, k: int, c: Config) -> bool {
    joins_in_window(ts, k, c) >= c.raids.join_threshold
}

/// Some earlier join reached the threshold, and the raid mode it started
/// still runs at `ts[k]`.
pub open spec fn raid_still_running(ts: Seq<u64>, k: int, c: Config) -> bool {
    exists|i: int| 0 <= i < k && #[trigger] reaches_threshold(ts, i, c) && ts[i] + nanos(c.raids.raid_mode_seconds) > ts[k]
}

/// The state after the first `k` joins of `ts`.
pub open spec fn after_joins(s: StateView, c: Config, ts: Seq<u64>, k: nat) -> StateView
    decreases k,
{
    if k == 0 || k > ts.len() {
        s
    } else {
        state_after_join(after_joins(s, c, ts, (k - 1) as nat), c, ts[k - 1])
    }
}

proof fn lemma_recent_narrows(q: Seq<u64>, a: u64, b: u64, w: u64)
    requires
        a <= b,
    ensures
        recent(recent(q, a, w), b, w) == recent(q, b, w),
    decreases q.len(),
{
    reveal(Seq::filter);
    if q.len() > 0 {
        lemma_recent_narrows(q.drop_last(), a, b, w);
        let t = q.last();
        assert(elapsed(t, a) <= elapsed(t, b));
        if !is_stale(t, a, w) {
            assert(recent(q, a, w).drop_last() == recent(q.drop_last(), a, w));
        }
    }
}

proof fn lemma_recent_push(q: Seq<u64>, n: u64, w: u64)
    ensures
        recent(q.push(n), n, w) == recent(q, n, w).push(n),
{
    reveal(Seq::filter);
    assert(q.push(n).drop_last() == q);
    assert(!is_stale(n, n, w));
}

proof fn lemma_join_history_state(s: StateView, c: Config, ts: Seq<u64>, k: nat)
    requires
        c.raids.enabled,
        s.joins.len() == 0,
        s.raid_until is None,
        in_clock_order(ts),
        k <= ts.len(),
    ensures
        ({
            let st = after_joins(s, c, ts, k);
            let last: u64 = if k == 0 { 0 } else { ts[k - 1] };
            &&& st.joins == recent(ts.take(k as int), last, c.raids.join_window_seconds)
            &&& ordered_until(st.joins, last)
            &&& forall|t: u64|
                t >= last ==> (raid_active_at(st.raid_until, t) <==> exists|i: int|
                    0 <= i < k && #[trigger] reaches_threshold(ts, i, c) && ts[i] + nanos(c.raids.raid_mode_seconds) > t)
        }),
    decreases k,
{
    let w = c.raids.join_window_seconds;
    let mode = nanos(c.raids.raid_mode_seconds);
    if k == 0 {
        reveal(Seq::filter);
        assert(ts.take(0) =~= Seq::<u64>::empty());
    } else {
        let j = (k - 1) as nat;
        lemma_join_history_state(s, c, ts, j);
        let prev = after_joins(s, c, ts, j);
        let n = ts[j as int];
        let last: u64 = if j == 0 { 0 } else { ts[j - 1] };
        assert(last <= n);
        assert(ordered_until(prev.joins, n));
        lemma_pruned_is_recent(prev.joins, n, w);
        lemma_recent_narrows(ts.take(j as int), last, n, w);
        assert(ts.take(k as int) == ts.take(j as int).push(n));
        lemma_recent_push(ts.take(j as int), n, w);
        lemma_window_stays_ordered(prev.joins, last, n, w);
        let st = after_joins(s, c, ts, k);
        assert(st.joins == recent(ts.take(k as int), n, w));
        assert(threshold_reached(prev, c, n) == reaches_threshold(ts, j as int, c));
        assert forall|t: u64|
            t >= n implies (raid_active_at(st.raid_until, t) <==> exists|i: int|
                0 <= i < k && #[trigger] reaches_threshold(ts, i, c) && ts[i] + mode > t) by {
            if reaches_threshold(ts, j as int, c) {
                if exists|i: int| 0 <= i < k && #[trigger] reaches_threshold(ts, i, c) && ts[i] + mode > t {
                    let i = choose|i: int| 0 <= i < k && #[trigger] reaches_threshold(ts, i, c) && ts[i] + mode > t;
                    assert(ts[i] <= n);
                }
            } else if !raid_active_at(prev.raid_until, n) {
                if exists|i: int| 0 <= i < k && #[trigger] reaches_threshold(ts, i, c) && ts[i] + mode > t {
                    let i = choose|i: int| 0 <= i < k && #[trigger] reaches_threshold(ts, i, c) && ts[i] + mode > t;
                    assert(i < j);
                    assert(ts[i] + mode > n);
                }
            } else {
                if exists|i: int| 0 <= i < j && #[trigger] reaches_threshold(ts, i, c) && ts[i] + mode > t {
                    let i = choose|i: int| 0 <= i < j && #[trigger] reaches_threshold(ts, i, c) && ts[i] + mode > t;
                    assert(0 <= i < k);
                }
            }
        }
    }
}

/// Raid rule over a history of joins. From a fresh state, after joins at the
/// times `ts[0..k]` in clock order, the join at `ts[k]` counts every join of
/// the history inside the join window, itself included. Raid mode is on when
/// this join reaches the threshold or a raid started by an earlier
/// threshold-reaching join still runs; the raid is reported as new exactly
/// when this join reaches the threshold and no earlier raid still runs.
pub proof fn lemma_join_history(s: StateView, c: Config, ts: Seq<u64>, k: nat, now_unix: i64, account_created_unix: i64)
    requires
        c.raids.enabled,
        c.raids.raid_mode_seconds > 0,
        s.joins.len() == 0,
        s.raid_until is None,
        in_clock_order(ts),
        k < ts.len(),
        k < usize::MAX,
    ensures
        ({
            let d = join_decision(after_joins(s, c, ts, k), c, ts[k as int], now_unix, account_created_unix);
            &&& d.join_count == joins_in_window(ts, k as int, c)
            &&& d.raid_active == (reaches_threshold(ts, k as int, c) || raid_still_running(ts, k as int, c))
            &&& d.raid_activated == (reaches_threshold(ts, k as int, c) && !raid_still_running(ts, k as int, c))
        }),
{
    broadcast use vstd::seq_lib::group_seq_properties;

    lemma_join_history_state(s, c, ts, k);
    lemma_join_history_state(s, c, ts, k + 1);
    let st = after_joins(s, c, ts, k);
    let n = ts[k as int];
    assert(after_joins(s, c, ts, k + 1) == state_after_join(st, c, n));
    assert(joins_after(st, c, n) == recent(ts.take(k + 1int), n, c.raids.join_window_seconds));
    assert(recent(ts.take(k + 1int), n, c.raids.join_window_seconds).len() <= ts.take(k + 1int).len());
    let last: u64 = if k == 0 { 0 } else { ts[k - 1] };
    assert(last <= n);
    assert(raid_active_at(st.raid_until, n) == raid_still_running(ts, k as int, c));
}

/// Raid mode ends on its own: a join that does not reach the threshold after
/// raid mode has run out finds raid mode off and clears it.
pub proof fn lemma_raid_mode_expires(s: StateView, c: Config, now: u64, now_unix: i64, account_created_unix: i64)
    requires
        c.raids.enabled,
        !threshold_reached(s, c, now),
        !raid_active_at(s.raid_until, now),
    ensures
        state_after_join(s, c, now).raid_until is None,
        !join_decision(s, c, now, now_unix, account_created_unix).raid_active,
        !join_decision(s, c, now, now_unix, account_created_unix).raid_activated,
{
}

/// With every message guard disabled, no message is ever flagged.
pub proof fn lemma_disabled_guards_flag_nothing(
    a: ActivityView,
    content: Seq<char>,
    normalized: Seq<char>,
    total_mentions: usize,
    everyone_mentions: usize,
    roles: Seq<u64>,
    c: Config,
    now: u64,
)
    requires
        !c.mentions.enabled,
        !c.spam.enabled,
        !c.invites.enabled,
    ensures
        message_violations(a, content, normalized, total_mentions, everyone_mentions, roles, c, now).len() == 0,
{
    assert(message_violations(a, content, normalized, total_mentions, everyone_mentions, roles, c, now) =~= Seq::<Violation>::empty());
}

/// A message is judged only by its own content and the sender's own history:
/// another user's activity does not change the verdict.
pub proof fn lemma_users_are_judged_separately(
    s: StateView,
    other: u64,
    activity: ActivityView,
    user_id: u64,
    content: Seq<char>,
    normalized: Seq<char>,
    total_mentions: usize,
    everyone_mentions: usize,
    roles: Seq<u64>,
    c: Config,
    now: u64,
)
    requires
        other != user_id,
        keeps_user(activity, now, s.retention_seconds),
    ensures
        violations_of_message(StateView { users: s.users.insert(other, activity), ..s }, user_id, content, normalized,
            total_mentions, everyone_mentions, roles, c, now)
            == violations_of_message(s, user_id, content, normalized, total_mentions, everyone_mentions, roles, c, now),
{
    let s2 = StateView { users: s.users.insert(other, activity), ..s };
    let u1 = counted(s, now).users;
    let u2 = counted(s2, now).users;
    assert(u2.contains_key(user_id) == u1.contains_key(user_id));
    if u1.contains_key(user_id) {
        assert(u2[user_id] == u1[user_id]);
    }
    assert(seen_activity(u2, user_id, now) == seen_activity(u1, user_id, now));
}


/// Every entry that `a` remembers is no later than `t`.
pub open spec fn remembered_before(a: ActivityView, t: u64) -> bool {
    &&& forall|i: int| 0 <= i < a.messages.len() ==> #[trigger] a.messages[i] <= t
    &&& forall|i: int| 0 <= i < a.protected_pings.len() ==> #[trigger] a.protected_pings[i] <= t
    &&& forall|h: u64, i: int| #[trigger] a.duplicates.contains_key(h) && 0 <= i < a.duplicates[h].len() ==> #[trigger] a.duplicates[h][i] <= t
}

proof fn lemma_all_stale_pruned_empty(q: Seq<u64>, now: u64, w: u64)
    requires
        forall|i: int| 0 <= i < q.len() ==> is_stale(#[trigger] q[i], now, w),
    ensures
        pruned(q, now, w).len() == 0,
    decreases q.len(),
{
    if q.len() > 0 {
        assert(is_stale(q[0], now, w));
        assert forall|i: int| 0 <= i < q.drop_first().len() implies is_stale(#[trigger] q.drop_first()[i], now, w) by {
            assert(q.drop_first()[i] == q[i + 1]);
        }
        lemma_all_stale_pruned_empty(q.drop_first(), now, w);
    }
}

/// The retention period is at least as long as every rolling window.
pub proof fn lemma_retention_covers_windows(c: Config)
    ensures
        retention_for(c) >= c.spam.window_seconds,
        retention_for(c) >= c.spam.duplicate_window_seconds,
        retention_for(c) >= c.mentions.protected_role_window_seconds,
{
}

/// Forgetting an inactive user does not change how their next message is
/// judged: when they were last seen longer ago than a retention period that
/// covers every window, and nothing remembered of them is later than that,
/// the message is judged as the first message of an unknown user is.
pub proof fn lemma_eviction_is_unobservable(
    a: ActivityView,
    seen: u64,
    retention_seconds: u64,
    content: Seq<char>,
    normalized: Seq<char>,
    total_mentions: usize,
    everyone_mentions: usize,
    roles: Seq<u64>,
    c: Config,
    now: u64,
)
    requires
        remembered_before(a, seen),
        is_stale(seen, now, retention_seconds),
        retention_seconds >= c.spam.window_seconds,
        retention_seconds >= c.spam.duplicate_window_seconds,
        retention_seconds >= c.mentions.protected_role_window_seconds,
    ensures
        message_violations(ActivityView { last_seen: Some(now), ..a }, content, normalized, total_mentions,
            everyone_mentions, roles, c, now)
            == message_violations(ActivityView { last_seen: Some(now), ..fresh_activity() }, content, normalized,
            total_mentions, everyone_mentions, roles, c, now),
{
    let old_a = ActivityView { last_seen: Some(now), ..a };
    let new_a = ActivityView { last_seen: Some(now), ..fresh_activity() };
    assert forall|i: int| 0 <= i < a.messages.len() implies is_stale(#[trigger] a.messages[i], now, c.spam.window_seconds) by {
        assert(a.messages[i] <= seen);
    }
    lemma_all_stale_pruned_empty(a.messages, now, c.spam.window_seconds);
    assert forall|i: int| 0 <= i < a.protected_pings.len() implies is_stale(#[trigger] a.protected_pings[i], now, c.mentions.protected_role_window_seconds) by {
        assert(a.protected_pings[i] <= seen);
    }
    lemma_all_stale_pruned_empty(a.protected_pings, now, c.mentions.protected_role_window_seconds);
    let h = message_hash(normalized);
    let b = bucket(old_a, normalized);
    assert forall|i: int| 0 <= i < b.len() implies is_stale(#[trigger] b[i], now, c.spam.duplicate_window_seconds) by {
        assert(a.duplicates.contains_key(h));
        assert(b[i] == a.duplicates[h][i]);
        assert(a.duplicates[h][i] <= seen);
    }
    lemma_all_stale_pruned_empty(b, now, c.spam.duplicate_window_seconds);
    assert(pruned(Seq::<u64>::empty(), now, c.spam.window_seconds).len() == 0);
    let after_old = activity_after(old_a, roles, normalized, c, now);
    let after_new = activity_after(new_a, roles, normalized, c, now);
    if c.spam.enabled {
        assert(after_old.messages.len() == after_new.messages.len());
    }
    if c.mentions.enabled && pings_protected_role(roles, c) {
        assert(after_old.protected_pings.len() == after_new.protected_pings.len());
    }
    if tracks_repeats(normalized, c) {
        assert(after_old.duplicates[h].len() == after_new.duplicates[h].len());
    }
}


/// What a user's activity keeps under a monotonic clock, last seen at `seen`:
/// every window is ordered up to `seen`, and no repeat bucket is empty.
pub open spec fn activity_consistent(a: ActivityView, seen: u64) -> bool {
    &&& a.last_seen == Some(seen)
    &&& ordered_until(a.messages, seen)
    &&& ordered_until(a.protected_pings, seen)
    &&& forall|h: u64| #[trigger] a.duplicates.contains_key(h) ==> ordered_until(a.duplicates[h], seen) && a.duplicates[h].len() > 0
}

/// The state that a monotonic clock leaves behind by time `now`: every
/// remembered user is consistent and was last seen no later than `now`.
pub open spec fn state_consistent(s: StateView, now: u64) -> bool {
    forall|u: u64| #[trigger] s.users.contains_key(u) ==> {
        &&& s.users[u].last_seen is Some
        &&& s.users[u].last_seen->0 <= now
        &&& activity_consistent(s.users[u], s.users[u].last_seen->0)
    }
}

proof fn lemma_ordered_later(q: Seq<u64>, t: u64, later: u64)
    requires
        ordered_until(q, t),
        t <= later,
    ensures
        ordered_until(q, later),
{
}

/// A consistent activity remembers nothing later than when it was last seen,
/// as the eviction rule needs.
pub proof fn lemma_consistent_remembers_before(a: ActivityView, seen: u64)
    requires
        activity_consistent(a, seen),
    ensures
        remembered_before(a, seen),
{
}

/// Every message keeps the state consistent when the clock does not go back.
pub proof fn lemma_message_keeps_state_consistent(
    s: StateView,
    earlier: u64,
    user_id: u64,
    normalized: Seq<char>,
    roles: Seq<u64>,
    c: Config,
    now: u64,
)
    requires
        state_consistent(s, earlier),
        earlier <= now,
    ensures
        state_consistent(state_after_message(s, user_id, normalized, roles, c, now), now),
{
    let s1 = counted(s, now);
    assert(state_consistent(s1, now)) by {
        assert forall|u: u64| #[trigger] s1.users.contains_key(u) implies {
            &&& s1.users[u].last_seen is Some
            &&& s1.users[u].last_seen->0 <= now
            &&& activity_consistent(s1.users[u], s1.users[u].last_seen->0)
        } by {
            assert(s.users.contains_key(u));
            assert(s1.users[u] == s.users[u]);
        }
    }
    let a = seen_activity(s1.users, user_id, now);
    let old_seen = if s1.users.contains_key(user_id) { s1.users[user_id].last_seen->0 } else { now };
    if s1.users.contains_key(user_id) {
        let b = s1.users[user_id];
        lemma_ordered_later(b.messages, old_seen, now);
        lemma_ordered_later(b.protected_pings, old_seen, now);
    }
    assert(ordered_until(a.messages, now));
    assert(ordered_until(a.protected_pings, now));
    assert forall|h: u64| #[trigger] a.duplicates.contains_key(h) implies ordered_until(a.duplicates[h], now) && a.duplicates[h].len() > 0 by {
        lemma_ordered_later(a.duplicates[h], old_seen, now);
    }
    let after = activity_after(a, roles, normalized, c, now);
    lemma_window_stays_ordered(a.messages, now, now, c.spam.window_seconds);
    lemma_window_stays_ordered(a.protected_pings, now, now, c.mentions.protected_role_window_seconds);
    assert(ordered_until(bucket(a, normalized), now));
    lemma_window_stays_ordered(bucket(a, normalized), now, now, c.spam.duplicate_window_seconds);
    assert(activity_consistent(after, now));
    let s2 = state_after_message(s, user_id, normalized, roles, c, now);
    assert forall|u: u64| #[trigger] s2.users.contains_key(u) implies {
        &&& s2.users[u].last_seen is Some
        &&& s2.users[u].last_seen->0 <= now
        &&& activity_consistent(s2.users[u], s2.users[u].last_seen->0)
    } by {
        if u != user_id {
            assert(s1.users.contains_key(u));
        }
    }
}

/// One message as the state sees it: sender, content, mention counts,
/// mentioned roles, and the time it arrives.
pub struct MessageCall {
    pub user_id: u64,
    pub content: Seq<char>,
    pub total_mentions: usize,
    pub everyone_mentions: usize,
    pub roles: Seq<u64>,
    pub now: u64,
}

/// The state after `m`, as `inspect_message` leaves it.
pub open spec fn after_call(s: StateView, c: Config, m: MessageCall) -> StateView {
    state_after_message(s, m.user_id, normalized_content(m.content), m.roles, c, m.now)
}

/// The violations of `m`, as `inspect_message` reports them.
pub open spec fn verdict(s: StateView, c: Config, m: MessageCall) -> Seq<Violation> {
    violations_of_message(
        s,
        m.user_id,
        m.content,
        normalized_content(m.content),
        m.total_mentions,
        m.everyone_mentions,
        m.roles,
        c,
        m.now,
    )
}

/// The state after the first `k` messages of `calls`.
pub open spec fn after_calls(s: StateView, c: Config, calls: Seq<MessageCall>, k: nat) -> StateView
    decreases k,
{
    if k == 0 || k > calls.len() {
        s
    } else {
        after_call(after_calls(s, c, calls, (k - 1) as nat), c, calls[k - 1])
    }
}

/// The state that sees only `u`'s messages among the first `k` of `calls`.
pub open spec fn after_calls_of(s: StateView, c: Config, calls: Seq<MessageCall>, u: u64, k: nat) -> StateView
    decreases k,
{
    if k == 0 || k > calls.len() {
        s
    } else if calls[k - 1].user_id == u {
        after_call(after_calls_of(s, c, calls, u, (k - 1) as nat), c, calls[k - 1])
    } else {
        after_calls_of(s, c, calls, u, (k - 1) as nat)
    }
}

/// The messages arrive in clock order.
pub open spec fn calls_in_clock_order(calls: Seq<MessageCall>) -> bool {
    forall|i: int, j: int| 0 <= i <= j < calls.len() ==> calls[i].now <= calls[j].now
}

/// What is remembered of `u`, an unknown user counting as fresh.
pub open spec fn activity_of(users: Map<u64, ActivityView>, u: u64) -> ActivityView {
    if users.contains_key(u) { users[u] } else { fresh_activity() }
}

/// The repeat window kept for hash `h`, empty when there is none.
pub open spec fn dup_bucket(a: ActivityView, h: u64) -> Seq<u64> {
    if a.duplicates.contains_key(h) { a.duplicates[h] } else { Seq::empty() }
}

/// From time `t` on, two rolling windows hold the same entries inside every
/// window of at most `ret` seconds.
pub open spec fn windows_agree(q1: Seq<u64>, q2: Seq<u64>, t: u64, ret: u64) -> bool {
    forall|now: u64, w: u64| now >= t && w <= ret ==> #[trigger] recent(q1, now, w) == recent(q2, now, w)
}

/// Two remembered activities that no message from time `t` on can tell apart.
pub open spec fn activities_agree(a1: ActivityView, a2: ActivityView, t: u64, ret: u64) -> bool {
    &&& windows_agree(a1.messages, a2.messages, t, ret)
    &&& windows_agree(a1.protected_pings, a2.protected_pings, t, ret)
    &&& forall|h: u64| #[trigger] windows_agree(dup_bucket(a1, h), dup_bucket(a2, h), t, ret)
}

/// Every window of `a` is ordered up to `now`.
pub open spec fn activity_ordered(a: ActivityView, now: u64) -> bool {
    &&& ordered_until(a.messages, now)
    &&& ordered_until(a.protected_pings, now)
    &&& forall|h: u64| #[trigger] a.duplicates.contains_key(h) ==> ordered_until(a.duplicates[h], now)
}

proof fn lemma_windows_agree_trans(q1: Seq<u64>, q2: Seq<u64>, q3: Seq<u64>, t: u64, ret: u64)
    requires
        windows_agree(q1, q2, t, ret),
        windows_agree(q2, q3, t, ret),
    ensures
        windows_agree(q1, q3, t, ret),
{
    assert forall|now: u64, w: u64| now >= t && w <= ret implies #[trigger] recent(q1, now, w) == recent(q3, now, w) by {
        assert(recent(q1, now, w) == recent(q2, now, w));
        assert(recent(q2, now, w) == recent(q3, now, w));
    }
}

proof fn lemma_windows_agree_later(q1: Seq<u64>, q2: Seq<u64>, t: u64, later: u64, ret: u64)
    requires
        windows_agree(q1, q2, t, ret),
        t <= later,
    ensures
        windows_agree(q1, q2, later, ret),
{
    assert forall|now: u64, w: u64| now >= later && w <= ret implies #[trigger] recent(q1, now, w) == recent(q2, now, w) by {
        assert(recent(q1, now, w) == recent(q2, now, w));
    }
}

proof fn lemma_agree_trans(a1: ActivityView, a2: ActivityView, a3: ActivityView, t: u64, ret: u64)
    requires
        activities_agree(a1, a2, t, ret),
        activities_agree(a2, a3, t, ret),
    ensures
        activities_agree(a1, a3, t, ret),
{
    lemma_windows_agree_trans(a1.messages, a2.messages, a3.messages, t, ret);
    lemma_windows_agree_trans(a1.protected_pings, a2.protected_pings, a3.protected_pings, t, ret);
    assert forall|h: u64| #[trigger] windows_agree(dup_bucket(a1, h), dup_bucket(a3, h), t, ret) by {
        assert(windows_agree(dup_bucket(a1, h), dup_bucket(a2, h), t, ret));
        assert(windows_agree(dup_bucket(a2, h), dup_bucket(a3, h), t, ret));
        lemma_windows_agree_trans(dup_bucket(a1, h), dup_bucket(a2, h), dup_bucket(a3, h), t, ret);
    }
}

proof fn lemma_agree_sym(a1: ActivityView, a2: ActivityView, t: u64, ret: u64)
    requires
        activities_agree(a1, a2, t, ret),
    ensures
        activities_agree(a2, a1, t, ret),
{
    assert forall|now: u64, w: u64| now >= t && w <= ret implies #[trigger] recent(a2.messages, now, w) == recent(a1.messages, now, w) by {
        assert(recent(a1.messages, now, w) == recent(a2.messages, now, w));
    }
    assert forall|now: u64, w: u64| now >= t && w <= ret implies #[trigger] recent(a2.protected_pings, now, w) == recent(a1.protected_pings, now, w) by {
        assert(recent(a1.protected_pings, now, w) == recent(a2.protected_pings, now, w));
    }
    assert forall|h: u64| #[trigger] windows_agree(dup_bucket(a2, h), dup_bucket(a1, h), t, ret) by {
        assert(windows_agree(dup_bucket(a1, h), dup_bucket(a2, h), t, ret));
        assert forall|now: u64, w: u64| now >= t && w <= ret implies #[trigger] recent(dup_bucket(a2, h), now, w) == recent(dup_bucket(a1, h), now, w) by {
            assert(recent(dup_bucket(a1, h), now, w) == recent(dup_bucket(a2, h), now, w));
        }
    }
}

proof fn lemma_agree_later(a1: ActivityView, a2: ActivityView, t: u64, later: u64, ret: u64)
    requires
        activities_agree(a1, a2, t, ret),
        t <= later,
    ensures
        activities_agree(a1, a2, later, ret),
{
    lemma_windows_agree_later(a1.messages, a2.messages, t, later, ret);
    lemma_windows_agree_later(a1.protected_pings, a2.protected_pings, t, later, ret);
    assert forall|h: u64| #[trigger] windows_agree(dup_bucket(a1, h), dup_bucket(a2, h), later, ret) by {
        assert(windows_agree(dup_bucket(a1, h), dup_bucket(a2, h), t, ret));
        lemma_windows_agree_later(dup_bucket(a1, h), dup_bucket(a2, h), t, later, ret);
    }
}

proof fn lemma_recent_of_stale(q: Seq<u64>, now: u64, w: u64)
    requires
        forall|i: int| 0 <= i < q.len() ==> is_stale(#[trigger] q[i], now, w),
    ensures
        recent(q, now, w) == Seq::<u64>::empty(),
    decreases q.len(),
{
    reveal(Seq::filter);
    if q.len() > 0 {
        let d = q.drop_last();
        assert forall|i: int| 0 <= i < d.len() implies is_stale(#[trigger] d[i], now, w) by {
            assert(d[i] == q[i]);
        }
        lemma_recent_of_stale(d, now, w);
        assert(is_stale(q[q.len() - 1], now, w));
    }
}

proof fn lemma_dormant_window(q: Seq<u64>, seen: u64, t: u64, ret: u64)
    requires
        forall|i: int| 0 <= i < q.len() ==> #[trigger] q[i] <= seen,
        is_stale(seen, t, ret),
    ensures
        windows_agree(q, Seq::<u64>::empty(), t, ret),
{
    assert forall|now: u64, w: u64| now >= t && w <= ret implies #[trigger] recent(q, now, w) == recent(Seq::<u64>::empty(), now, w) by {
        assert forall|i: int| 0 <= i < q.len() implies is_stale(#[trigger] q[i], now, w) by {
            assert(q[i] <= seen);
        }
        lemma_recent_of_stale(q, now, w);
        lemma_recent_of_stale(Seq::<u64>::empty(), now, w);
    }
}

/// An activity last seen longer ago than the retention period agrees with a
/// fresh one from then on.
proof fn lemma_dormant_agrees_with_fresh(a: ActivityView, seen: u64, t: u64, ret: u64)
    requires
        remembered_before(a, seen),
        is_stale(seen, t, ret),
    ensures
        activities_agree(a, fresh_activity(), t, ret),
{
    let f = fresh_activity();
    lemma_dormant_window(a.messages, seen, t, ret);
    lemma_dormant_window(a.protected_pings, seen, t, ret);
    assert forall|h: u64| #[trigger] windows_agree(dup_bucket(a, h), dup_bucket(f, h), t, ret) by {
        assert(dup_bucket(f, h) == Seq::<u64>::empty());
        if a.duplicates.contains_key(h) {
            assert forall|i: int| 0 <= i < dup_bucket(a, h).len() implies #[trigger] dup_bucket(a, h)[i] <= seen by {
                assert(a.duplicates[h][i] <= seen);
            }
        }
        lemma_dormant_window(dup_bucket(a, h), seen, t, ret);
    }
}

/// Counting a message, with its periodic eviction, keeps what is remembered
/// of `u` in agreement from the message's time on.
proof fn lemma_counting_keeps_agreement(s: StateView, u: u64, earlier: u64, now: u64)
    requires
        state_consistent(s, earlier),
        earlier <= now,
    ensures
        activities_agree(activity_of(counted(s, now).users, u), activity_of(s.users, u), now, s.retention_seconds),
        activity_ordered(activity_of(counted(s, now).users, u), now),
        counted(s, now).retention_seconds == s.retention_seconds,
{
    let ret = s.retention_seconds;
    let a = activity_of(s.users, u);
    let b = activity_of(counted(s, now).users, u);
    if s.users.contains_key(u) {
        let seen = a.last_seen->0;
        lemma_consistent_remembers_before(a, seen);
        assert(activity_ordered(a, now)) by {
            lemma_ordered_later(a.messages, seen, now);
            lemma_ordered_later(a.protected_pings, seen, now);
            assert forall|h: u64| #[trigger] a.duplicates.contains_key(h) implies ordered_until(a.duplicates[h], now) by {
                lemma_ordered_later(a.duplicates[h], seen, now);
            }
        }
        if b == a {
            lemma_agree_refl(a, now, ret);
        } else {
            assert(!keeps_user(a, now, ret));
            lemma_dormant_agrees_with_fresh(a, seen, now, ret);
            lemma_agree_sym(a, fresh_activity(), now, ret);
            assert(b == fresh_activity());
        }
    } else {
        assert(b == fresh_activity());
        lemma_agree_refl(b, now, ret);
    }
}

proof fn lemma_agree_refl(a: ActivityView, t: u64, ret: u64)
    ensures
        activities_agree(a, a, t, ret),
{
}

/// One message from `u` seen by two states whose memories of `u` agree: the
/// verdicts are equal and the memories still agree afterwards.
proof fn lemma_agreeing_message(
    a1: ActivityView,
    a2: ActivityView,
    t: u64,
    ret: u64,
    content: Seq<char>,
    normalized: Seq<char>,
    total_mentions: usize,
    everyone_mentions: usize,
    roles: Seq<u64>,
    c: Config,
    now: u64,
)
    requires
        activities_agree(a1, a2, t, ret),
        activity_ordered(a1, now),
        activity_ordered(a2, now),
        t <= now,
        ret >= c.spam.window_seconds,
        ret >= c.spam.duplicate_window_seconds,
        ret >= c.mentions.protected_role_window_seconds,
    ensures
        message_violations(ActivityView { last_seen: Some(now), ..a1 }, content, normalized, total_mentions,
            everyone_mentions, roles, c, now)
            == message_violations(ActivityView { last_seen: Some(now), ..a2 }, content, normalized, total_mentions,
            everyone_mentions, roles, c, now),
        activities_agree(
            activity_after(ActivityView { last_seen: Some(now), ..a1 }, roles, normalized, c, now),
            activity_after(ActivityView { last_seen: Some(now), ..a2 }, roles, normalized, c, now),
            now,
            ret,
        ),
{
    let s1 = ActivityView { last_seen: Some(now), ..a1 };
    let s2 = ActivityView { last_seen: Some(now), ..a2 };
    let n1 = activity_after(s1, roles, normalized, c, now);
    let n2 = activity_after(s2, roles, normalized, c, now);
    let h = message_hash(normalized);
    // Messages.
    lemma_pruned_is_recent(a1.messages, now, c.spam.window_seconds);
    lemma_pruned_is_recent(a2.messages, now, c.spam.window_seconds);
    assert(recent(a1.messages, now, c.spam.window_seconds) == recent(a2.messages, now, c.spam.window_seconds));
    if c.spam.enabled {
        assert(n1.messages == n2.messages);
    } else {
        lemma_windows_agree_later(a1.messages, a2.messages, t, now, ret);
    }
    // Protected pings.
    lemma_pruned_is_recent(a1.protected_pings, now, c.mentions.protected_role_window_seconds);
    lemma_pruned_is_recent(a2.protected_pings, now, c.mentions.protected_role_window_seconds);
    assert(recent(a1.protected_pings, now, c.mentions.protected_role_window_seconds) == recent(
        a2.protected_pings,
        now,
        c.mentions.protected_role_window_seconds,
    ));
    if c.mentions.enabled && pings_protected_role(roles, c) {
        assert(n1.protected_pings == n2.protected_pings);
    } else {
        lemma_windows_agree_later(a1.protected_pings, a2.protected_pings, t, now, ret);
    }
    // Repeat buckets.
    assert(bucket(s1, normalized) == dup_bucket(a1, h));
    assert(bucket(s2, normalized) == dup_bucket(a2, h));
    assert(ordered_until(dup_bucket(a1, h), now));
    assert(ordered_until(dup_bucket(a2, h), now));
    lemma_pruned_is_recent(dup_bucket(a1, h), now, c.spam.duplicate_window_seconds);
    lemma_pruned_is_recent(dup_bucket(a2, h), now, c.spam.duplicate_window_seconds);
    assert(windows_agree(dup_bucket(a1, h), dup_bucket(a2, h), t, ret));
    assert(recent(dup_bucket(a1, h), now, c.spam.duplicate_window_seconds) == recent(
        dup_bucket(a2, h),
        now,
        c.spam.duplicate_window_seconds,
    ));
    assert forall|g: u64| #[trigger] windows_agree(dup_bucket(n1, g), dup_bucket(n2, g), now, ret) by {
        if tracks_repeats(normalized, c) && g == h {
            assert(dup_bucket(n1, g) == dup_bucket(n2, g));
        } else {
            assert(dup_bucket(n1, g) == dup_bucket(a1, g));
            assert(dup_bucket(n2, g) == dup_bucket(a2, g));
            assert(windows_agree(dup_bucket(a1, g), dup_bucket(a2, g), t, ret));
            lemma_windows_agree_later(dup_bucket(a1, g), dup_bucket(a2, g), t, now, ret);
        }
    }
    if tracks_repeats(normalized, c) {
        assert(n1.duplicates[h] == n2.duplicates[h]);
    }
}

/// What two runs keep about `u`: both states are consistent at `t`, their
/// retention is the configured one, and they remember `u` alike.
pub open spec fn runs_agree_on(r1: StateView, r2: StateView, c: Config, u: u64, t: u64) -> bool {
    &&& state_consistent(r1, t)
    &&& state_consistent(r2, t)
    &&& r1.retention_seconds == retention_for(c)
    &&& r2.retention_seconds == retention_for(c)
    &&& activities_agree(activity_of(r1.users, u), activity_of(r2.users, u), t, retention_for(c))
}

proof fn lemma_state_consistent_later(s: StateView, t: u64, later: u64)
    requires
        state_consistent(s, t),
        t <= later,
    ensures
        state_consistent(s, later),
{
}

proof fn lemma_runs_step(r1: StateView, r2: StateView, c: Config, u: u64, t: u64, m: MessageCall)
    requires
        runs_agree_on(r1, r2, c, u, t),
        t <= m.now,
    ensures
        m.user_id == u ==> verdict(r1, c, m) == verdict(r2, c, m),
        m.user_id == u ==> runs_agree_on(after_call(r1, c, m), after_call(r2, c, m), c, u, m.now),
        m.user_id != u ==> runs_agree_on(r1, after_call(r2, c, m), c, u, m.now),
{
    let ret = retention_for(c);
    let n = m.now;
    let norm = normalized_content(m.content);
    lemma_retention_covers_windows(c);
    lemma_counting_keeps_agreement(r1, u, t, n);
    lemma_counting_keeps_agreement(r2, u, t, n);
    let c1 = activity_of(counted(r1, n).users, u);
    let c2 = activity_of(counted(r2, n).users, u);
    let x1 = activity_of(r1.users, u);
    let x2 = activity_of(r2.users, u);
    lemma_agree_later(x1, x2, t, n, ret);
    lemma_agree_sym(c2, x2, n, ret);
    lemma_agree_trans(x1, x2, c2, n, ret);
    lemma_agree_trans(c1, x1, c2, n, ret);
    lemma_message_keeps_state_consistent(r2, t, m.user_id, norm, m.roles, c, n);
    if m.user_id == u {
        lemma_message_keeps_state_consistent(r1, t, m.user_id, norm, m.roles, c, n);
        assert(seen_activity(counted(r1, n).users, u, n) == ActivityView { last_seen: Some(n), ..c1 });
        assert(seen_activity(counted(r2, n).users, u, n) == ActivityView { last_seen: Some(n), ..c2 });
        lemma_agreeing_message(c1, c2, n, ret, m.content, norm, m.total_mentions, m.everyone_mentions, m.roles, c, n);
        assert(activity_of(after_call(r1, c, m).users, u) == activity_after(
            ActivityView { last_seen: Some(n), ..c1 },
            m.roles,
            norm,
            c,
            n,
        ));
        assert(activity_of(after_call(r2, c, m).users, u) == activity_after(
            ActivityView { last_seen: Some(n), ..c2 },
            m.roles,
            norm,
            c,
            n,
        ));
    } else {
        lemma_state_consistent_later(r1, t, n);
        lemma_agree_sym(c1, x1, n, ret);
        lemma_agree_trans(x1, c1, c2, n, ret);
        assert(activity_of(after_call(r2, c, m).users, u) == c2);
    }
}

proof fn lemma_runs_agree(s1: StateView, s2: StateView, c: Config, calls: Seq<MessageCall>, u: u64, k: nat)
    requires
        s1.users == Map::<u64, ActivityView>::empty(),
        s2.users == Map::<u64, ActivityView>::empty(),
        s1.retention_seconds == retention_for(c),
        s2.retention_seconds == retention_for(c),
        calls_in_clock_order(calls),
        k <= calls.len(),
    ensures
        runs_agree_on(
            after_calls_of(s1, c, calls, u, k),
            after_calls(s2, c, calls, k),
            c,
            u,
            if k == 0 { 0 } else { calls[k - 1].now },
        ),
    decreases k,
{
    if k == 0 {
        lemma_agree_refl(fresh_activity(), 0, retention_for(c));
    } else {
        let j = (k - 1) as nat;
        lemma_runs_agree(s1, s2, c, calls, u, j);
        let t: u64 = if j == 0 { 0 } else { calls[j - 1].now };
        assert(t <= calls[j as int].now);
        lemma_runs_step(after_calls_of(s1, c, calls, u, j), after_calls(s2, c, calls, j), c, u, t, calls[j as int]);
    }
}

/// A user's verdicts depend neither on other users' messages nor on the
/// periodic eviction of idle users. Two fresh states with the configured
/// retention see messages in clock order: one sees every message of
/// `calls`, the other only those from `u`. Each message from `u` gets the
/// same verdict in both.
pub proof fn lemma_users_are_judged_separately_over_time(
    s1: StateView,
    s2: StateView,
    c: Config,
    calls: Seq<MessageCall>,
    u: u64,
    k: nat,
)
    requires
        s1.users == Map::<u64, ActivityView>::empty(),
        s2.users == Map::<u64, ActivityView>::empty(),
        s1.retention_seconds == retention_for(c),
        s2.retention_seconds == retention_for(c),
        calls_in_clock_order(calls),
        k < calls.len(),
        calls[k as int].user_id == u,
    ensures
        verdict(after_calls_of(s1, c, calls, u, k), c, calls[k as int]) == verdict(after_calls(s2, c, calls, k), c, calls[k as int]),
{
    lemma_runs_agree(s1, s2, c, calls, u, k);
    let t: u64 = if k == 0 { 0 } else { calls[k - 1].now };
    assert(t <= calls[k as int].now);
    lemma_runs_step(after_calls_of(s1, c, calls, u, k), after_calls(s2, c, calls, k), c, u, t, calls[k as int]);
}

} // verus!
