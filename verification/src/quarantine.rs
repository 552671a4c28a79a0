use std::collections::{BTreeMap, HashMap};

use vstd::prelude::*;

use crate::config::Config;
use crate::ids::{decimal, format_id, lemma_parse_formatted_id, parse_id, parsed_id};
use crate::text::same_text;

verus! {

broadcast use {vstd::std_specs::btree::group_btree_axioms, vstd::laws_cmp::group_laws_cmp, vstd::std_specs::hash::group_hash_axioms};

/// One line of the quarantine journal. IDs are written as decimal strings.
#[derive(Debug, Clone)]
pub enum StoreEvent {
    Snapshot { user_id: String, role_ids: Vec<String> },
    Cleared { user_id: String },
}

/// Why a journal line could not be replayed.
#[derive(Debug, Clone, Copy, PartialEq, Eq, Structural)]
pub enum RecordError {
    InvalidUserId,
    InvalidRoleId,
}

impl RecordError {
    /// The operator-facing text of this error.
    pub fn message(&self) -> (r: &'static str)
        ensures
            r@ == (match *self {
                RecordError::InvalidUserId => "invalid user ID"@,
                RecordError::InvalidRoleId => "invalid role ID"@,
            }),
    {
        match self {
            RecordError::InvalidUserId => "invalid user ID",
            RecordError::InvalidRoleId => "invalid role ID",
        }
    }
}

/// The IDs that a list of decimal strings denotes, if every one parses.
pub open spec fn parsed_ids(ids: Seq<String>) -> Option<Seq<u64>> {
    if forall|i: int| 0 <= i < ids.len() ==> (#[trigger] parsed_id(ids[i]@)) is Some {
        Some(Seq::new(ids.len(), |i: int| parsed_id(ids[i]@)->0))
    } else {
        None
    }
}

/// The records after replaying one journal line, or why it cannot be replayed.
pub open spec fn replayed(records: Map<u64, Seq<u64>>, e: StoreEvent) -> Result<Map<u64, Seq<u64>>, RecordError> {
    match e {
        StoreEvent::Snapshot { user_id, role_ids } => match parsed_id(user_id@) {
            None => Err(RecordError::InvalidUserId),
            Some(u) => match parsed_ids(role_ids@) {
                None => Err(RecordError::InvalidRoleId),
                Some(roles) => Ok(records.insert(u, roles)),
            },
        },
        StoreEvent::Cleared { user_id } => match parsed_id(user_id@) {
            None => Err(RecordError::InvalidUserId),
            Some(u) => Ok(records.remove(u)),
        },
    }
}

/// The journal line that stores `roles` for `user_id`.
pub open spec fn is_snapshot_of(e: StoreEvent, user_id: u64, roles: Seq<u64>) -> bool {
    match e {
        StoreEvent::Snapshot { user_id: u, role_ids } => {
            &&& u@ == decimal(user_id as nat)
            &&& role_ids@.len() == roles.len()
            &&& forall|i: int| 0 <= i < roles.len() ==> #[trigger] role_ids@[i]@ == decimal(roles[i] as nat)
        },
        StoreEvent::Cleared { .. } => false,
    }
}

/// The journal line that releases `user_id`.
pub open spec fn is_clearing_of(e: StoreEvent, user_id: u64) -> bool {
    match e {
        StoreEvent::Cleared { user_id: u } => u@ == decimal(user_id as nat),
        StoreEvent::Snapshot { .. } => false,
    }
}

/// Replaying the line written for a snapshot stores exactly the snapshotted
/// roles, and replaying the line written for a release removes the user:
/// what is journaled is what comes back after a restart.
pub proof fn lemma_journal_round_trip(records: Map<u64, Seq<u64>>, e: StoreEvent, user_id: u64, roles: Seq<u64>)
    ensures
        is_snapshot_of(e, user_id, roles) ==> replayed(records, e) == Ok::<Map<u64, Seq<u64>>, RecordError>(records.insert(user_id, roles)),
        is_clearing_of(e, user_id) ==> replayed(records, e) == Ok::<Map<u64, Seq<u64>>, RecordError>(records.remove(user_id)),
{
    lemma_parse_formatted_id(user_id);
    if is_snapshot_of(e, user_id, roles) {
        match e {
            StoreEvent::Snapshot { user_id: u, role_ids } => {
                assert forall|i: int| 0 <= i < role_ids@.len() implies (#[trigger] parsed_id(role_ids@[i]@)) == Some(roles[i]) by {
                    lemma_parse_formatted_id(roles[i]);
                }
                assert(parsed_ids(role_ids@) is Some);
                assert(parsed_ids(role_ids@)->0 =~= roles);
            },
            _ => {},
        }
    }
}

/// Every user's stored roles, with the journal lines they were replayed
/// from. The records are always what replaying that journal gives, so a
/// restart that replays the same lines gives back the same records.
pub struct QuarantineRecords {
    records: BTreeMap<u64, Vec<u64>>,
    journal: Ghost<Seq<StoreEvent>>,
}

/// Each user's stored roles, as sequences.
pub closed spec fn records_view(m: Map<u64, Vec<u64>>) -> Map<u64, Seq<u64>> {
    Map::new(|u: u64| m.contains_key(u), |u: u64| m[u]@)
}

/// Replaying `journal` from no records succeeds and gives `records`.
pub open spec fn journal_replays_to(journal: Seq<StoreEvent>, records: Map<u64, Seq<u64>>) -> bool {
    replay_from(Map::empty(), journal, 0) == Ok::<Map<u64, Seq<u64>>, (nat, RecordError)>(records)
}

impl View for QuarantineRecords {
    type V = Map<u64, Seq<u64>>;

    closed spec fn view(&self) -> Map<u64, Seq<u64>> {
        records_view(self.records@)
    }
}

fn format_ids(ids: &[u64]) -> (r: Vec<String>)
    ensures
        r@.len() == ids@.len(),
        forall|i: int| 0 <= i < ids@.len() ==> #[trigger] r@[i]@ == decimal(ids@[i] as nat),
{
    let mut r: Vec<String> = Vec::new();
    for i in 0..ids.len()
        invariant
            r@.len() == i,
            forall|j: int| 0 <= j < i ==> #[trigger] r@[j]@ == decimal(ids@[j] as nat),
    {
        r.push(format_id(ids[i]));
    }
    r
}

fn parse_ids(ids: &Vec<String>) -> (r: Option<Vec<u64>>)
    ensures
        match r {
            Some(v) => parsed_ids(ids@) == Some(v@),
            None => parsed_ids(ids@) is None,
        },
{
    let mut v: Vec<u64> = Vec::new();
    for i in 0..ids.len()
        invariant
            v@.len() == i,
            forall|j: int| 0 <= j < i ==> #[trigger] parsed_id(ids@[j]@) == Some(v@[j]),
    {
        match parse_id(ids[i].as_str()) {
            Some(id) => v.push(id),
            None => {
                return None;
            },
        }
    }
    assert(v@ =~= Seq::new(ids@.len(), |i: int| parsed_id(ids@[i]@)->0));
    Some(v)
}

/// The journal line that stores `roles` for `user_id`.
pub fn snapshot_event(user_id: u64, roles: &[u64]) -> (e: StoreEvent)
    ensures
        is_snapshot_of(e, user_id, roles@),
{
    StoreEvent::Snapshot { user_id: format_id(user_id), role_ids: format_ids(roles) }
}

/// The journal line that releases `user_id`.
pub fn cleared_event(user_id: u64) -> (e: StoreEvent)
    ensures
        is_clearing_of(e, user_id),
{
    StoreEvent::Cleared { user_id: format_id(user_id) }
}

impl QuarantineRecords {
    #[verifier::type_invariant]
    spec fn replays_its_journal(self) -> bool {
        journal_replays_to(self.journal@, self@)
    }

    /// The journal lines these records were replayed from, oldest first.
    pub closed spec fn journal(&self) -> Seq<StoreEvent> {
        self.journal@
    }

    /// No stored snapshots.
    pub fn new() -> (r: Self)
        ensures
            r@ == Map::<u64, Seq<u64>>::empty(),
            r.journal() == Seq::<StoreEvent>::empty(),
            journal_replays_to(r.journal(), r@),
    {
        let map: BTreeMap<u64, Vec<u64>> = BTreeMap::new();
        assert(records_view(map@) =~= Map::<u64, Seq<u64>>::empty());
        QuarantineRecords { records: map, journal: Ghost(Seq::empty()) }
    }

    /// A snapshot is stored for `user_id`.
    pub fn contains(&self, user_id: u64) -> (r: bool)
        ensures
            r == self@.contains_key(user_id),
    {
        self.records.contains_key(&user_id)
    }

    /// The roles stored for `user_id`.
    pub fn get(&self, user_id: u64) -> (r: Option<Vec<u64>>)
        ensures
            match r {
                Some(v) => self@.contains_key(user_id) && v@ == self@[user_id],
                None => !self@.contains_key(user_id),
            },
    {
        match self.records.get(&user_id) {
            Some(v) => Some(v.clone()),
            None => None,
        }
    }

    /// Replays one journal line.
    pub fn apply_event(&mut self, event: &StoreEvent) -> (r: Result<(), RecordError>)
        ensures
            match replayed(old(self)@, *event) {
                Ok(m) => r is Ok && final(self)@ == m && final(self).journal() == old(self).journal().push(*event),
                Err(e) => r == Err::<(), RecordError>(e) && final(self)@ == old(self)@ && final(self).journal()
                    == old(self).journal(),
            },
            journal_replays_to(final(self).journal(), final(self)@),
    {
        proof {
            use_type_invariant(&*self);
            lemma_replay_push(Map::empty(), self.journal@, *event, 0);
        }
        let ghost before = self.records@;
        match event {
            StoreEvent::Snapshot { user_id, role_ids } => {
                let u = match parse_id(user_id.as_str()) {
                    Some(u) => u,
                    None => {
                        return Err(RecordError::InvalidUserId);
                    },
                };
                let roles = match parse_ids(role_ids) {
                    Some(roles) => roles,
                    None => {
                        return Err(RecordError::InvalidRoleId);
                    },
                };
                let ghost rv = roles@;
                let mut taken = QuarantineRecords::new();
                std::mem::swap(self, &mut taken);
                let QuarantineRecords { records: mut map, journal } = taken;
                let _ = map.insert(u, roles);
                assert(map@ == before.insert(u, map@[u]));
                assert(records_view(map@) =~= old(self)@.insert(u, rv));
                *self = QuarantineRecords { records: map, journal: Ghost(journal@.push(*event)) };
                Ok(())
            },
            StoreEvent::Cleared { user_id } => {
                let u = match parse_id(user_id.as_str()) {
                    Some(u) => u,
                    None => {
                        return Err(RecordError::InvalidUserId);
                    },
                };
                let mut taken = QuarantineRecords::new();
                std::mem::swap(self, &mut taken);
                let QuarantineRecords { records: mut map, journal } = taken;
                let _ = map.remove(&u);
                assert(records_view(map@) =~= old(self)@.remove(u));
                *self = QuarantineRecords { records: map, journal: Ghost(journal@.push(*event)) };
                Ok(())
            },
        }
    }

    /// The journal line to write before storing `roles` for `user_id`, or
    /// `None` when a snapshot is already stored: a repeated banish never
    /// overwrites the recovery data.
    pub fn prepare_snapshot(&self, user_id: u64, roles: &[u64]) -> (r: Option<StoreEvent>)
        ensures
            match r {
                Some(e) => !self@.contains_key(user_id) && is_snapshot_of(e, user_id, roles@),
                None => self@.contains_key(user_id),
            },
    {
        if self.records.contains_key(&user_id) {
            None
        } else {
            Some(snapshot_event(user_id, roles))
        }
    }

    /// The journal line to write before releasing `user_id`, or `None` when no
    /// snapshot is stored.
    pub fn prepare_clear(&self, user_id: u64) -> (r: Option<StoreEvent>)
        ensures
            match r {
                Some(e) => self@.contains_key(user_id) && is_clearing_of(e, user_id),
                None => !self@.contains_key(user_id),
            },
    {
        if self.records.contains_key(&user_id) {
            Some(cleared_event(user_id))
        } else {
            None
        }
    }
}

/// A snapshot is taken once: after the roles `first` are journaled and stored
/// for a user, a second snapshot is refused and the stored roles stay `first`.
pub proof fn lemma_snapshot_taken_once(records: Map<u64, Seq<u64>>, e: StoreEvent, user_id: u64, first: Seq<u64>)
    requires
        is_snapshot_of(e, user_id, first),
    ensures
        replayed(records, e) is Ok,
        replayed(records, e)->Ok_0.contains_key(user_id),
        replayed(records, e)->Ok_0[user_id] == first,
{
    lemma_journal_round_trip(records, e, user_id, first);
}

/// Replays a journal from line `i` on, starting from `records`: the final
/// records, or the first line that cannot be replayed and why.
pub open spec fn replay_from(records: Map<u64, Seq<u64>>, events: Seq<StoreEvent>, i: nat) -> Result<
    Map<u64, Seq<u64>>,
    (nat, RecordError),
>
    decreases events.len() - i,
{
    if i >= events.len() {
        Ok(records)
    } else {
        match replayed(records, events[i as int]) {
            Ok(next) => replay_from(next, events, i + 1),
            Err(e) => Err((i, e)),
        }
    }
}

proof fn lemma_replay_push(records: Map<u64, Seq<u64>>, events: Seq<StoreEvent>, e: StoreEvent, i: nat)
    requires
        i <= events.len(),
    ensures
        match replay_from(records, events, i) {
            Ok(m) => replay_from(records, events.push(e), i) == match replayed(m, e) {
                Ok(n) => Ok::<Map<u64, Seq<u64>>, (nat, RecordError)>(n),
                Err(x) => Err((events.len(), x)),
            },
            Err(x) => replay_from(records, events.push(e), i) == Err::<Map<u64, Seq<u64>>, (nat, RecordError)>(x),
        },
    decreases events.len() - i,
{
    assert(events.push(e)[events.len() as int] == e);
    if i < events.len() {
        assert(events.push(e)[i as int] == events[i as int]);
        match replayed(records, events[i as int]) {
            Ok(next) => lemma_replay_push(next, events, e, i + 1),
            Err(_) => {},
        }
    } else {
        match replayed(records, e) {
            Ok(n) => {
                assert(replay_from(n, events.push(e), i + 1) == Ok::<Map<u64, Seq<u64>>, (nat, RecordError)>(n));
            },
            Err(_) => {},
        }
    }
}

/// Rebuilds the records from a whole journal, as at start-up. On failure it
/// gives the index of the first line that cannot be replayed.
pub fn replay(events: &[StoreEvent]) -> (r: Result<QuarantineRecords, (usize, RecordError)>)
    ensures
        match r {
            Ok(records) => replay_from(Map::empty(), events@, 0) == Ok::<Map<u64, Seq<u64>>, (nat, RecordError)>(records@)
                && records.journal() == events@,
            Err((i, e)) => replay_from(Map::empty(), events@, 0) == Err::<Map<u64, Seq<u64>>, (nat, RecordError)>((i as nat, e)),
        },
{
    let mut records = QuarantineRecords::new();
    let mut i: usize = 0;
    while i < events.len()
        invariant
            i <= events@.len(),
            replay_from(Map::empty(), events@, 0) == replay_from(records@, events@, i as nat),
            records.journal() == events@.take(i as int),
        decreases events.len() - i,
    {
        assert(events@.take(i + 1) == events@.take(i as int).push(events@[i as int]));
        match records.apply_event(&events[i]) {
            Ok(()) => {},
            Err(e) => {
                return Err((i, e));
            },
        }
        i = i + 1;
    }
    Ok(records)
}

/// One change to the stored snapshots: storing roles for a user, or
/// releasing the user (`None`).
pub open spec fn apply_change(records: Map<u64, Seq<u64>>, change: (u64, Option<Seq<u64>>)) -> Map<u64, Seq<u64>> {
    match change.1 {
        Some(roles) => records.insert(change.0, roles),
        None => records.remove(change.0),
    }
}

/// The records after the changes from index `i` on.
pub open spec fn records_after(records: Map<u64, Seq<u64>>, changes: Seq<(u64, Option<Seq<u64>>)>, i: nat) -> Map<
    u64,
    Seq<u64>,
>
    decreases changes.len() - i,
{
    if i >= changes.len() {
        records
    } else {
        records_after(apply_change(records, changes[i as int]), changes, i + 1)
    }
}

/// `e` is the journal line written for `change`.
pub open spec fn journals(e: StoreEvent, change: (u64, Option<Seq<u64>>)) -> bool {
    match change.1 {
        Some(roles) => is_snapshot_of(e, change.0, roles),
        None => is_clearing_of(e, change.0),
    }
}

/// Replaying a whole journal rebuilds the records: when each line is the one
/// written for a change, replaying the lines from `i` on succeeds and gives
/// the records those changes make.
pub proof fn lemma_journal_rebuilds_records(
    records: Map<u64, Seq<u64>>,
    events: Seq<StoreEvent>,
    changes: Seq<(u64, Option<Seq<u64>>)>,
    i: nat,
)
    requires
        events.len() == changes.len(),
        forall|j: int| 0 <= j < events.len() ==> journals(#[trigger] events[j], changes[j]),
    ensures
        replay_from(records, events, i) == Ok::<Map<u64, Seq<u64>>, (nat, RecordError)>(records_after(records, changes, i)),
    decreases events.len() - i,
{
    if i < events.len() {
        let change = changes[i as int];
        assert(journals(events[i as int], change));
        match change.1 {
            Some(roles) => lemma_journal_round_trip(records, events[i as int], change.0, roles),
            None => lemma_journal_round_trip(records, events[i as int], change.0, Seq::empty()),
        }
        lemma_journal_rebuilds_records(apply_change(records, change), events, changes, i + 1);
    }
}

/// The roles that a banish takes away: every role of the member except the
/// quarantine role, that still exists and is not managed by an integration.
pub open spec fn removable(member_roles: Seq<u64>, quarantine_role: u64, guild_roles: Map<u64, bool>) -> Seq<u64> {
    member_roles.filter(|r: u64| is_removable(r, quarantine_role, guild_roles))
}

/// A role that a banish takes away.
pub open spec fn is_removable(r: u64, quarantine_role: u64, guild_roles: Map<u64, bool>) -> bool {
    r != quarantine_role && guild_roles.contains_key(r) && !guild_roles[r]
}

/// A stored role that an unbanish gives back.
pub open spec fn is_restorable(r: u64, quarantine_role: u64, guild_roles: Map<u64, bool>) -> bool {
    guild_roles.contains_key(r) && !guild_roles[r] && r != quarantine_role
}

/// Lists the roles that a banish removes; `guild_roles` maps each role of the
/// server to whether an integration manages it.
pub fn removable_roles(member_roles: &[u64], quarantine_role: u64, guild_roles: &HashMap<u64, bool>) -> (r: Vec<u64>)
    ensures
        r@ == removable(member_roles@, quarantine_role, guild_roles@),
{
    let ghost pred = |r: u64| is_removable(r, quarantine_role, guild_roles@);
    let mut out: Vec<u64> = Vec::new();
    for i in 0..member_roles.len()
        invariant
            pred == (|r: u64| is_removable(r, quarantine_role, guild_roles@)),
            out@ == member_roles@.take(i as int).filter(pred),
    {
        let role = member_roles[i];
        let keep = role != quarantine_role && match guild_roles.get(&role) {
            Some(managed) => !*managed,
            None => false,
        };
        if keep {
            out.push(role);
        }
        proof {
            reveal(Seq::filter);
            assert(member_roles@.take(i + 1).drop_last() == member_roles@.take(i as int));
        }
    }
    assert(member_roles@.take(member_roles@.len() as int) == member_roles@);
    out
}

/// How an unbanish treats the stored roles.
#[derive(Debug)]
pub struct RestorePlan {
    pub restore: Vec<u64>,
    pub missing: Vec<u64>,
}

/// The stored roles to give back: those that still exist, are not managed
/// by an integration and are not the quarantine role.
pub open spec fn restorable(stored: Seq<u64>, quarantine_role: u64, guild_roles: Map<u64, bool>) -> Seq<u64> {
    stored.filter(|r: u64| is_restorable(r, quarantine_role, guild_roles))
}

/// The stored roles that no longer exist.
pub open spec fn deleted(stored: Seq<u64>, guild_roles: Map<u64, bool>) -> Seq<u64> {
    stored.filter(|r: u64| !guild_roles.contains_key(r))
}

/// Sorts the stored roles into those to give back and those that were deleted.
pub fn plan_restore(stored: &[u64], quarantine_role: u64, guild_roles: &HashMap<u64, bool>) -> (r: RestorePlan)
    ensures
        r.restore@ == restorable(stored@, quarantine_role, guild_roles@),
        r.missing@ == deleted(stored@, guild_roles@),
{
    let ghost keep = |r: u64| is_restorable(r, quarantine_role, guild_roles@);
    let ghost gone = |r: u64| !guild_roles@.contains_key(r);
    let mut restore: Vec<u64> = Vec::new();
    let mut missing: Vec<u64> = Vec::new();
    for i in 0..stored.len()
        invariant
            keep == (|r: u64| is_restorable(r, quarantine_role, guild_roles@)),
            gone == (|r: u64| !guild_roles@.contains_key(r)),
            restore@ == stored@.take(i as int).filter(keep),
            missing@ == stored@.take(i as int).filter(gone),
    {
        let role = stored[i];
        match guild_roles.get(&role) {
            None => missing.push(role),
            Some(managed) => {
                if !*managed && role != quarantine_role {
                    restore.push(role);
                }
            },
        }
        proof {
            reveal(Seq::filter);
            assert(stored@.take(i + 1).drop_last() == stored@.take(i as int));
        }
    }
    assert(stored@.take(stored@.len() as int) == stored@);
    RestorePlan { restore, missing }
}

/// The member's roles after a banish: the removable roles are taken away
/// and the quarantine role is added.
pub open spec fn roles_after_banish(held: Set<u64>, removed: Seq<u64>, quarantine_role: u64) -> Set<u64> {
    held.difference(removed.to_set()).insert(quarantine_role)
}

/// The member's roles after an unbanish: the restored roles are given back
/// and the quarantine role is taken away.
pub open spec fn roles_after_unbanish(current: Set<u64>, restored: Seq<u64>, quarantine_role: u64) -> Set<u64> {
    current.union(restored.to_set()).remove(quarantine_role)
}

proof fn lemma_filter_members(s: Seq<u64>, pred: spec_fn(u64) -> bool, r: u64)
    ensures
        s.filter(pred).contains(r) <==> (s.contains(r) && pred(r)),
{
    broadcast use vstd::seq_lib::group_seq_properties;

    if s.filter(pred).contains(r) {
        let i = choose|i: int| 0 <= i < s.filter(pred).len() && s.filter(pred)[i] == r;
        s.lemma_filter_pred(pred, i);
        s.lemma_filter_contains_rev(pred, r);
    }
    if s.contains(r) && pred(r) {
        let i = choose|i: int| 0 <= i < s.len() && s[i] == r;
        s.lemma_filter_contains(pred, i);
    }
}

/// Unbanish undoes banish. The member holds `held`, without the quarantine
/// role, and the server's roles do not change in between. The snapshot line
/// stores `held` and reads back as `held`. Giving back the restorable
/// stored roles and taking the quarantine role away again leaves the member
/// with exactly `held`. After the release line the user has no snapshot.
pub proof fn lemma_unbanish_undoes_banish(
    records: Map<u64, Seq<u64>>,
    held: Seq<u64>,
    user_id: u64,
    quarantine_role: u64,
    guild_roles: Map<u64, bool>,
    snapshot: StoreEvent,
    release: StoreEvent,
)
    requires
        !held.contains(quarantine_role),
        is_snapshot_of(snapshot, user_id, held),
        is_clearing_of(release, user_id),
    ensures
        ({
            let stored = replayed(records, snapshot);
            &&& stored is Ok
            &&& stored->Ok_0.contains_key(user_id)
            &&& stored->Ok_0[user_id] == held
            &&& roles_after_unbanish(
                roles_after_banish(held.to_set(), removable(held, quarantine_role, guild_roles), quarantine_role),
                restorable(stored->Ok_0[user_id], quarantine_role, guild_roles),
                quarantine_role,
            ) == held.to_set()
            &&& replayed(stored->Ok_0, release) is Ok
            &&& !replayed(stored->Ok_0, release)->Ok_0.contains_key(user_id)
        }),
{
    lemma_journal_round_trip(records, snapshot, user_id, held);
    let stored = records.insert(user_id, held);
    lemma_journal_round_trip(stored, release, user_id, held);
    let rem = |r: u64| is_removable(r, quarantine_role, guild_roles);
    let res = |r: u64| is_restorable(r, quarantine_role, guild_roles);
    let after = roles_after_unbanish(
        roles_after_banish(held.to_set(), removable(held, quarantine_role, guild_roles), quarantine_role),
        restorable(held, quarantine_role, guild_roles),
        quarantine_role,
    );
    assert forall|r: u64| after.contains(r) <==> held.to_set().contains(r) by {
        lemma_filter_members(held, rem, r);
        lemma_filter_members(held, res, r);
    }
    assert(after =~= held.to_set());
}

/// A role of the server, as quarantine setup sees it.
#[derive(Debug, Clone)]
pub struct RoleEntry {
    pub id: u64,
    pub name: String,
}

/// A channel of the server, as quarantine setup sees it.
#[derive(Debug, Clone)]
pub struct ChannelEntry {
    pub id: u64,
    pub name: String,
    pub is_text: bool,
}

/// Which quarantine role or channel to use: one that exists, or a new one
/// to be created under the configured name.
#[derive(Debug, Clone, Copy, PartialEq, Eq, Structural)]
pub enum ResourceChoice {
    Existing(u64),
    Create,
}

/// Why the quarantine role or channel could not be settled.
#[derive(Debug, Clone, Copy, PartialEq, Eq, Structural)]
pub enum ResourceError {
    RoleMissing,
    RoleNotAllowed,
    ChannelMissing,
    ChannelNotText,
}

impl ResourceError {
    /// The operator-facing text of this error.
    pub fn message(&self) -> (r: &'static str)
        ensures
            r@ == resource_error_text(*self),
    {
        match self {
            ResourceError::RoleMissing => "the configured quarantine role does not exist in this server",
            ResourceError::RoleNotAllowed => "the resolved quarantine role cannot be trusted or protected",
            ResourceError::ChannelMissing => "the configured quarantine channel does not exist in this server",
            ResourceError::ChannelNotText => "the configured quarantine channel must be a text channel",
        }
    }
}

/// The text of each resource error.
pub open spec fn resource_error_text(e: ResourceError) -> Seq<char> {
    match e {
        ResourceError::RoleMissing => "the configured quarantine role does not exist in this server"@,
        ResourceError::RoleNotAllowed => "the resolved quarantine role cannot be trusted or protected"@,
        ResourceError::ChannelMissing => "the configured quarantine channel does not exist in this server"@,
        ResourceError::ChannelNotText => "the configured quarantine channel must be a text channel"@,
    }
}

/// Whether `id` belongs to the lowest-numbered role called `name`.
pub open spec fn lowest_role_named(roles: Seq<RoleEntry>, name: Seq<char>, id: u64) -> bool {
    &&& exists|i: int| 0 <= i < roles.len() && roles[i].name@ == name && roles[i].id == id
    &&& forall|j: int| 0 <= j < roles.len() && roles[j].name@ == name ==> id <= roles[j].id
}

/// Whether `r` is the role that quarantine setup settles on: the configured
/// one, which must exist; else the lowest-numbered role with the configured
/// name; else a new role.
pub open spec fn is_role_choice(
    configured: Option<u64>,
    name: Seq<char>,
    roles: Seq<RoleEntry>,
    r: Result<ResourceChoice, ResourceError>,
) -> bool {
    match configured {
        Some(id) => r == if (exists|i: int| 0 <= i < roles.len() && roles[i].id == id) {
            Ok::<ResourceChoice, ResourceError>(ResourceChoice::Existing(id))
        } else {
            Err(ResourceError::RoleMissing)
        },
        None => match r {
            Ok(ResourceChoice::Existing(id)) => lowest_role_named(roles, name, id),
            Ok(ResourceChoice::Create) => forall|j: int| 0 <= j < roles.len() ==> roles[j].name@ != name,
            Err(_) => false,
        },
    }
}

/// Settles the quarantine role among the server's `roles`.
pub fn choose_role(configured: Option<u64>, name: &str, roles: &[RoleEntry]) -> (r: Result<ResourceChoice, ResourceError>)
    ensures
        is_role_choice(configured, name@, roles@, r),
{
    match configured {
        Some(id) => {
            let mut i: usize = 0;
            while i < roles.len()
                invariant
                    configured == Some(id),
                    i <= roles@.len(),
                    forall|j: int| 0 <= j < i ==> roles@[j].id != id,
                decreases roles.len() - i,
            {
                if roles[i].id == id {
                    assert(roles@[i as int].id == id);
                    return Ok(ResourceChoice::Existing(id));
                }
                i = i + 1;
            }
            Err(ResourceError::RoleMissing)
        },
        None => {
            let mut best: Option<usize> = None;
            let mut i: usize = 0;
            while i < roles.len()
                invariant
                    i <= roles@.len(),
                    match best {
                        Some(b) => {
                            &&& b < i
                            &&& roles@[b as int].name@ == name@
                            &&& forall|j: int| 0 <= j < i && roles@[j].name@ == name@ ==> roles@[b as int].id <= roles@[j].id
                        },
                        None => forall|j: int| 0 <= j < i ==> roles@[j].name@ != name@,
                    },
                decreases roles.len() - i,
            {
                if same_text(roles[i].name.as_str(), name) {
                    match best {
                        Some(b) => {
                            if roles[i].id < roles[b].id {
                                best = Some(i);
                            }
                        },
                        None => {
                            best = Some(i);
                        },
                    }
                }
                i = i + 1;
            }
            match best {
                Some(b) => Ok(ResourceChoice::Existing(roles[b].id)),
                None => Ok(ResourceChoice::Create),
            }
        },
    }
}

/// Whether `id` belongs to the lowest-numbered text channel called `name`.
pub open spec fn lowest_text_channel_named(channels: Seq<ChannelEntry>, name: Seq<char>, id: u64) -> bool {
    &&& exists|i: int| 0 <= i < channels.len() && channels[i].name@ == name && channels[i].is_text && channels[i].id == id
    &&& forall|j: int|
        0 <= j < channels.len() && channels[j].name@ == name && channels[j].is_text ==> id <= channels[j].id
}

/// Whether `r` is the channel that quarantine setup settles on: the
/// configured one, which must exist and be a text channel; else the
/// lowest-numbered text channel with the configured name; else a new one.
pub open spec fn is_channel_choice(
    configured: Option<u64>,
    name: Seq<char>,
    channels: Seq<ChannelEntry>,
    r: Result<ResourceChoice, ResourceError>,
) -> bool {
    match configured {
        Some(id) => r == if !(exists|i: int| 0 <= i < channels.len() && channels[i].id == id) {
            Err::<ResourceChoice, ResourceError>(ResourceError::ChannelMissing)
        } else if (exists|i: int| 0 <= i < channels.len() && channels[i].id == id && channels[i].is_text) {
            Ok(ResourceChoice::Existing(id))
        } else {
            Err(ResourceError::ChannelNotText)
        },
        None => match r {
            Ok(ResourceChoice::Existing(id)) => lowest_text_channel_named(channels, name, id),
            Ok(ResourceChoice::Create) => forall|j: int|
                0 <= j < channels.len() ==> !(channels[j].name@ == name && channels[j].is_text),
            Err(_) => false,
        },
    }
}

/// Settles the quarantine channel among the server's `channels`. The server
/// lists each channel once; where an ID is listed twice, one text entry for
/// it is enough.
pub fn choose_channel(configured: Option<u64>, name: &str, channels: &[ChannelEntry]) -> (r: Result<ResourceChoice, ResourceError>)
    ensures
        is_channel_choice(configured, name@, channels@, r),
{
    match configured {
        Some(id) => {
            let mut found = false;
            let mut i: usize = 0;
            while i < channels.len()
                invariant
                    configured == Some(id),
                    i <= channels@.len(),
                    found == exists|j: int| 0 <= j < i && channels@[j].id == id,
                    forall|j: int| 0 <= j < i && channels@[j].id == id ==> !channels@[j].is_text,
                decreases channels.len() - i,
            {
                if channels[i].id == id {
                    if channels[i].is_text {
                        assert(channels@[i as int].id == id && channels@[i as int].is_text);
                        return Ok(ResourceChoice::Existing(id));
                    }
                    found = true;
                }
                i = i + 1;
            }
            if found {
                Err(ResourceError::ChannelNotText)
            } else {
                Err(ResourceError::ChannelMissing)
            }
        },
        None => {
            let mut best: Option<usize> = None;
            let mut i: usize = 0;
            while i < channels.len()
                invariant
                    i <= channels@.len(),
                    match best {
                        Some(b) => {
                            &&& b < i
                            &&& channels@[b as int].name@ == name@
                            &&& channels@[b as int].is_text
                            &&& forall|j: int|
                                0 <= j < i && channels@[j].name@ == name@ && channels@[j].is_text
                                    ==> channels@[b as int].id <= channels@[j].id
                        },
                        None => forall|j: int| 0 <= j < i ==> !(channels@[j].name@ == name@ && channels@[j].is_text),
                    },
                decreases channels.len() - i,
            {
                if channels[i].is_text && same_text(channels[i].name.as_str(), name) {
                    match best {
                        Some(b) => {
                            if channels[i].id < channels[b].id {
                                best = Some(i);
                            }
                        },
                        None => {
                            best = Some(i);
                        },
                    }
                }
                i = i + 1;
            }
            match best {
                Some(b) => Ok(ResourceChoice::Existing(channels[b].id)),
                None => Ok(ResourceChoice::Create),
            }
        },
    }
}

/// Whether the quarantine role may be `role_id`: it must be neither trusted
/// nor protected, or quarantine would lift the restrictions it is meant to
/// impose.
pub open spec fn role_may_quarantine(config: Config, role_id: u64) -> bool {
    !config.trusted_role_ids@.contains(role_id) && !config.role_guard.protected_role_ids@.contains(role_id)
}

/// Checks the settled quarantine role against the trusted and protected roles.
pub fn check_quarantine_role(config: &Config, role_id: u64) -> (r: Result<u64, ResourceError>)
    ensures
        r == if role_may_quarantine(*config, role_id) {
            Ok::<u64, ResourceError>(role_id)
        } else {
            Err(ResourceError::RoleNotAllowed)
        },
{
    if config.trusted_role_ids.contains(&role_id) || config.role_guard.protected_role_ids.contains(&role_id) {
        Err(ResourceError::RoleNotAllowed)
    } else {
        Ok(role_id)
    }
}

/// The quarantine role and channel that setup settled on.
#[derive(Debug, Clone, Copy, PartialEq, Eq, Structural)]
pub struct QuarantineIds {
    pub role_id: u64,
    pub channel_id: u64,
}

/// Remembers the quarantine role and channel once they are settled, so that
/// later lookups need no server call.
#[derive(Debug)]
pub struct QuarantineResolver {
    settled: Option<QuarantineIds>,
}

impl QuarantineResolver {
    /// What has been settled so far.
    pub closed spec fn settled(&self) -> Option<QuarantineIds> {
        self.settled
    }

    /// Nothing settled yet.
    pub fn new() -> (r: Self)
        ensures
            r.settled() is None,
    {
        QuarantineResolver { settled: None }
    }

    /// The settled role and channel, if any: a lookup that needs no server
    /// call.
    pub fn cached(&self) -> (r: Option<QuarantineIds>)
        ensures
            r == self.settled(),
    {
        self.settled
    }

    /// Settles the role and channel. The first settlement stands: once
    /// something is settled, every later call returns it and changes
    /// nothing. A role that is trusted or protected is refused and nothing
    /// is settled.
    pub fn settle(&mut self, config: &Config, role_id: u64, channel_id: u64) -> (r: Result<QuarantineIds, ResourceError>)
        ensures
            match old(self).settled() {
                Some(ids) => r == Ok::<QuarantineIds, ResourceError>(ids) && final(self).settled() == Some(ids),
                None => if role_may_quarantine(*config, role_id) {
                    r == Ok::<QuarantineIds, ResourceError>(QuarantineIds { role_id, channel_id })
                        && final(self).settled() == Some(QuarantineIds { role_id, channel_id })
                } else {
                    r == Err::<QuarantineIds, ResourceError>(ResourceError::RoleNotAllowed) && final(self).settled() is None
                },
            },
    {
        match self.settled {
            Some(ids) => Ok(ids),
            None => match check_quarantine_role(config, role_id) {
                Ok(_) => {
                    let ids = QuarantineIds { role_id, channel_id };
                    self.settled = Some(ids);
                    Ok(ids)
                },
                Err(e) => Err(e),
            },
        }
    }
}

/// Whether quarantine isolation applies to a channel of server
/// `channel_guild_id`: quarantine is on and the channel is in the configured
/// server.
pub fn quarantine_channel_in_scope(config: &Config, channel_guild_id: u64) -> (r: bool)
    ensures
        r == (config.quarantine.enabled && channel_guild_id == config.guild_id),
{
    config.quarantine.enabled && channel_guild_id == config.guild_id
}

/// Checks that the configured quarantine channel is among the server's
/// channels `channel_ids`.
pub fn check_configured_channel(channel_id: u64, channel_ids: &[u64]) -> (r: Result<(), ResourceError>)
    ensures
        r == if channel_ids@.contains(channel_id) {
            Ok::<(), ResourceError>(())
        } else {
            Err(ResourceError::ChannelMissing)
        },
{
    let mut i: usize = 0;
    while i < channel_ids.len()
        invariant
            i <= channel_ids@.len(),
            forall|j: int| 0 <= j < i ==> channel_ids@[j] != channel_id,
        decreases channel_ids.len() - i,
    {
        if channel_ids[i] == channel_id {
            assert(channel_ids@[i as int] == channel_id);
            return Ok(());
        }
        i = i + 1;
    }
    Err(ResourceError::ChannelMissing)
}

/// Checks that the configured quarantine role is among the server's roles
/// `role_ids`.
pub fn check_configured_role(role_id: u64, role_ids: &[u64]) -> (r: Result<(), ResourceError>)
    ensures
        r == if role_ids@.contains(role_id) {
            Ok::<(), ResourceError>(())
        } else {
            Err(ResourceError::RoleMissing)
        },
{
    let mut i: usize = 0;
    while i < role_ids.len()
        invariant
            i <= role_ids@.len(),
            forall|j: int| 0 <= j < i ==> role_ids@[j] != role_id,
        decreases role_ids.len() - i,
    {
        if role_ids[i] == role_id {
            assert(role_ids@[i as int] == role_id);
            return Ok(());
        }
        i = i + 1;
    }
    Err(ResourceError::RoleMissing)
}

} // verus!
