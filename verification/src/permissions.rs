use vstd::prelude::*;

use crate::config::Config;

verus! {

broadcast use vstd::std_specs::hash::group_hash_axioms;

/// Discord permission bits, as the Discord API numbers them.
pub const ADMINISTRATOR: u64 = 0x8;
pub const MANAGE_CHANNELS: u64 = 0x10;
pub const ADD_REACTIONS: u64 = 0x40;
pub const VIEW_CHANNEL: u64 = 0x400;
pub const SEND_MESSAGES: u64 = 0x800;
pub const MANAGE_MESSAGES: u64 = 0x2000;
pub const ATTACH_FILES: u64 = 0x8000;
pub const READ_MESSAGE_HISTORY: u64 = 0x1_0000;
pub const MANAGE_ROLES: u64 = 0x1000_0000;
pub const CREATE_PUBLIC_THREADS: u64 = 0x8_0000_0000;
pub const CREATE_PRIVATE_THREADS: u64 = 0x10_0000_0000;
pub const SEND_MESSAGES_IN_THREADS: u64 = 0x40_0000_0000;
pub const MODERATE_MEMBERS: u64 = 0x100_0000_0000;

/// What a channel permission overwrite applies to.
#[derive(Debug, Clone, Copy, PartialEq, Eq, Structural)]
pub enum OverwriteTarget {
    Role(u64),
    Member(u64),
}

/// A channel permission overwrite: the permissions it grants and denies.
#[derive(Debug, Clone, Copy, PartialEq, Eq, Structural)]
pub struct Overwrite {
    pub allow: u64,
    pub deny: u64,
    pub target: OverwriteTarget,
}

/// Every bit of `flags` is set in `bits`.
pub open spec fn has_all(bits: u64, flags: u64) -> bool {
    bits & flags == flags
}

/// Bit `i` of `x`.
pub open spec fn bit(x: u64, i: u64) -> bool {
    (x >> i) & 1 == 1
}

/// An overwrite for `target` that keeps what `existing` allowed and denied,
/// then allows `add_allow` and denies `add_deny`.
pub open spec fn merge(existing: Option<Overwrite>, target: OverwriteTarget, add_allow: u64, add_deny: u64) -> Overwrite {
    let allow = match existing { Some(e) => e.allow, None => 0 };
    let deny = match existing { Some(e) => e.deny, None => 0 };
    Overwrite {
        allow: (allow & !add_deny) | add_allow,
        deny: (deny & !add_allow) | add_deny,
        target,
    }
}

/// Builds the overwrite that adds `add_allow` and `add_deny` to an existing
/// overwrite without disturbing its other permissions.
pub fn merged_overwrite(existing: Option<&Overwrite>, target: OverwriteTarget, add_allow: u64, add_deny: u64) -> (r: Overwrite)
    ensures
        r == merge(
            match existing { Some(e) => Some(*e), None => None },
            target,
            add_allow,
            add_deny,
        ),
{
    let mut allow: u64 = match existing { Some(e) => e.allow, None => 0 };
    let mut deny: u64 = match existing { Some(e) => e.deny, None => 0 };
    allow = allow & !add_deny;
    deny = deny & !add_allow;
    allow = allow | add_allow;
    deny = deny | add_deny;
    Overwrite { allow, deny, target }
}

/// Merging an overwrite decides each permission on its own: the added
/// permissions take effect (an allow wins in the allow set and a deny in the
/// deny set), and every other permission keeps its earlier state.
pub proof fn lemma_merge_preserves_unrelated(a: u64, d: u64, add_allow: u64, add_deny: u64, i: u64)
    requires
        i < 64,
    ensures
        bit((a & !add_deny) | add_allow, i) == (bit(add_allow, i) || (!bit(add_deny, i) && bit(a, i))),
        bit((d & !add_allow) | add_deny, i) == (bit(add_deny, i) || (!bit(add_allow, i) && bit(d, i))),
{
    assert(bit((a & !add_deny) | add_allow, i) == (bit(add_allow, i) || (!bit(add_deny, i) && bit(a, i))))
        by (bit_vector)
        requires i < 64;
    assert(bit((d & !add_allow) | add_deny, i) == (bit(add_deny, i) || (!bit(add_allow, i) && bit(d, i))))
        by (bit_vector)
        requires i < 64;
}

/// What a merged overwrite holds, permission by permission: a permission is
/// allowed when it is added to the allow set, or was allowed before and is
/// not added to the deny set; it is denied when it is added to the deny set,
/// or was denied before and is not added to the allow set. So a newly allowed
/// permission is never left denied, and a newly denied one is never left
/// allowed, whatever else is added. The merged overwrite is for `target`.
pub proof fn lemma_merge_decides_each_permission(
    existing: Option<Overwrite>,
    target: OverwriteTarget,
    add_allow: u64,
    add_deny: u64,
    i: u64,
)
    requires
        i < 64,
    ensures
        ({
            let m = merge(existing, target, add_allow, add_deny);
            let old_allow: u64 = match existing { Some(e) => e.allow, None => 0 };
            let old_deny: u64 = match existing { Some(e) => e.deny, None => 0 };
            &&& m.target == target
            &&& ((m.allow >> i) & 1 == 1) == (((add_allow >> i) & 1 == 1) || (((add_deny >> i) & 1 != 1) && ((old_allow >> i) & 1 == 1)))
            &&& ((m.deny >> i) & 1 == 1) == (((add_deny >> i) & 1 == 1) || (((add_allow >> i) & 1 != 1) && ((old_deny >> i) & 1 == 1)))
        }),
{
    let m = merge(existing, target, add_allow, add_deny);
    let a: u64 = match existing { Some(e) => e.allow, None => 0 };
    let d: u64 = match existing { Some(e) => e.deny, None => 0 };
    let ma = m.allow;
    let md = m.deny;
    assert(ma == (a & !add_deny) | add_allow && md == (d & !add_allow) | add_deny);
    assert(((ma >> i) & 1 == 1) == (((add_allow >> i) & 1 == 1) || (((add_deny >> i) & 1 != 1) && ((a >> i) & 1 == 1))))
        by (bit_vector)
        requires
            i < 64,
            ma == (a & !add_deny) | add_allow,
    ;
    assert(((md >> i) & 1 == 1) == (((add_deny >> i) & 1 == 1) || (((add_allow >> i) & 1 != 1) && ((d >> i) & 1 == 1))))
        by (bit_vector)
        requires
            i < 64,
            md == (d & !add_allow) | add_deny,
    ;
}

/// The index of the first overwrite for `target`.
pub open spec fn first_for(overwrites: Seq<Overwrite>, target: OverwriteTarget) -> Option<int> {
    if exists|i: int| 0 <= i < overwrites.len() && overwrites[i].target == target {
        Some(choose|i: int| 0 <= i < overwrites.len() && overwrites[i].target == target
            && forall|j: int| 0 <= j < i ==> overwrites[j].target != target)
    } else {
        None
    }
}

proof fn lemma_first_for(overwrites: Seq<Overwrite>, target: OverwriteTarget, k: int)
    requires
        0 <= k < overwrites.len(),
        overwrites[k].target == target,
        forall|j: int| 0 <= j < k ==> overwrites[j].target != target,
    ensures
        first_for(overwrites, target) == Some(k),
{
    let i = choose|i: int| 0 <= i < overwrites.len() && overwrites[i].target == target
        && forall|j: int| 0 <= j < i ==> overwrites[j].target != target;
    assert(overwrites[k].target == target);
    if i < k {
        assert(overwrites[i].target != target);
    }
    if k < i {
        assert(overwrites[k].target != target);
    }
}

/// Finds the first overwrite for `target`.
pub fn find_overwrite(overwrites: &[Overwrite], target: OverwriteTarget) -> (r: Option<usize>)
    ensures
        match r {
            Some(i) => i < overwrites@.len() && first_for(overwrites@, target) == Some(i as int),
            None => first_for(overwrites@, target) is None,
        },
{
    let mut i: usize = 0;
    while i < overwrites.len()
        invariant
            i <= overwrites@.len(),
            forall|j: int| 0 <= j < i ==> overwrites@[j].target != target,
        decreases overwrites.len() - i,
    {
        if overwrites[i].target == target {
            proof {
                lemma_first_for(overwrites@, target, i as int);
            }
            return Some(i);
        }
        i = i + 1;
    }
    None
}

/// The overwrite that `apply_overwrite` writes for `target` on a channel with
/// these overwrites.
pub open spec fn overwrite_update(overwrites: Seq<Overwrite>, target: OverwriteTarget, add_allow: u64, add_deny: u64) -> Overwrite {
    merge(
        match first_for(overwrites, target) { Some(i) => Some(overwrites[i]), None => None },
        target,
        add_allow,
        add_deny,
    )
}

/// The overwrite to write for `target` so that `add_allow` and `add_deny` take
/// effect while the channel's other settings for `target` are kept.
pub fn overwrite_for(overwrites: &[Overwrite], target: OverwriteTarget, add_allow: u64, add_deny: u64) -> (r: Overwrite)
    ensures
        r == overwrite_update(overwrites@, target, add_allow, add_deny),
{
    match find_overwrite(overwrites, target) {
        Some(i) => merged_overwrite(Some(&overwrites[i]), target, add_allow, add_deny),
        None => merged_overwrite(None, target, add_allow, add_deny),
    }
}

/// The channel is already hidden from the quarantine role: the role's own
/// overwrite does not allow viewing and either denies it or leaves it to an
/// `@everyone` overwrite that denies viewing without allowing it.
pub open spec fn already_hidden(overwrites: Seq<Overwrite>, guild_id: u64, quarantine_role_id: u64) -> bool {
    let q = first_for(overwrites, OverwriteTarget::Role(quarantine_role_id));
    let e = first_for(overwrites, OverwriteTarget::Role(guild_id));
    if q is Some && has_all(overwrites[q->0].allow, VIEW_CHANNEL) {
        false
    } else if q is Some && has_all(overwrites[q->0].deny, VIEW_CHANNEL) {
        true
    } else {
        e is Some && has_all(overwrites[e->0].deny, VIEW_CHANNEL) && !has_all(overwrites[e->0].allow, VIEW_CHANNEL)
    }
}

/// Whether the quarantine role already cannot see a channel, so that no
/// overwrite has to be written.
pub fn quarantine_is_already_hidden(overwrites: &[Overwrite], guild_id: u64, quarantine_role_id: u64) -> (r: bool)
    ensures
        r == already_hidden(overwrites@, guild_id, quarantine_role_id),
{
    let quarantine = find_overwrite(overwrites, OverwriteTarget::Role(quarantine_role_id));
    match quarantine {
        Some(i) => {
            if overwrites[i].allow & VIEW_CHANNEL == VIEW_CHANNEL {
                return false;
            }
            if overwrites[i].deny & VIEW_CHANNEL == VIEW_CHANNEL {
                return true;
            }
        },
        None => {},
    }
    match find_overwrite(overwrites, OverwriteTarget::Role(guild_id)) {
        Some(i) => overwrites[i].deny & VIEW_CHANNEL == VIEW_CHANNEL && !(overwrites[i].allow & VIEW_CHANNEL
            == VIEW_CHANNEL),
        None => false,
    }
}

/// A command may run for a trusted user, an administrator, or a member who
/// holds every required permission.
pub open spec fn may_run_command(config: Config, user_id: u64, member_permissions: Option<u64>, required: u64) -> bool {
    let p = match member_permissions { Some(p) => p, None => 0 };
    config.trusted_user_ids@.contains(user_id) || has_all(p, ADMINISTRATOR) || has_all(p, required)
}

/// Trusted users bypass the permission check: a user listed in
/// `trusted_user_ids` may run every command, whatever server permissions
/// they hold and whether or not they hold any.
pub proof fn lemma_trusted_users_may_run_every_command(
    config: Config,
    user_id: u64,
    member_permissions: Option<u64>,
    required: u64,
)
    requires
        config.trusted_user_ids@.contains(user_id),
    ensures
        may_run_command(config, user_id, member_permissions, required),
{
}

/// Without trust, a member may run a command exactly when their server
/// permissions include administrator or every required permission; outside
/// a server only a command that needs nothing may run.
pub proof fn lemma_untrusted_users_need_the_permissions(
    config: Config,
    user_id: u64,
    member_permissions: Option<u64>,
    required: u64,
)
    requires
        !config.trusted_user_ids@.contains(user_id),
    ensures
        may_run_command(config, user_id, member_permissions, required) == match member_permissions {
            Some(p) => p & 8 == 8 || p & required == required,
            None => required == 0,
        },
{
    assert(0u64 & 8 != 8) by (bit_vector);
    assert(0u64 & required == required <==> required == 0) by (bit_vector);
}

/// Decides whether `user_id`, whose server permissions are
/// `member_permissions` (absent outside a server), may run a command that
/// needs `required`.
pub fn permits_command(config: &Config, user_id: u64, member_permissions: Option<u64>, required: u64) -> (r: bool)
    ensures
        r == may_run_command(*config, user_id, member_permissions, required),
{
    if config.trusted_user_ids.contains(&user_id) {
        return true;
    }
    let p: u64 = match member_permissions {
        Some(p) => p,
        None => 0,
    };
    p & ADMINISTRATOR == ADMINISTRATOR || p & required == required
}

/// One overwrite to write on a channel: the target, and the permissions to
/// add to its allow and deny sets.
#[derive(Debug, Clone, Copy, PartialEq, Eq, Structural)]
pub struct OverwriteEdit {
    pub target: OverwriteTarget,
    pub allow: u64,
    pub deny: u64,
}

/// What the quarantine role and the bot may do in the quarantine channel.
pub open spec fn quarantine_access() -> u64 {
    VIEW_CHANNEL | SEND_MESSAGES | READ_MESSAGE_HISTORY
}

/// The edits that isolate quarantine when a channel is checked: the
/// quarantine channel gets the bot's maintenance access first, then is hidden
/// from `@everyone` and opened to the quarantine role; every other channel is
/// hidden from the quarantine role unless it already is.
pub open spec fn isolation_plan(
    overwrites: Seq<Overwrite>,
    channel_id: u64,
    quarantine_channel_id: u64,
    guild_id: u64,
    quarantine_role_id: u64,
    bot_user_id: u64,
) -> Seq<OverwriteEdit> {
    if channel_id == quarantine_channel_id {
        seq![
            OverwriteEdit { target: OverwriteTarget::Member(bot_user_id), allow: quarantine_access() | MANAGE_CHANNELS | MANAGE_ROLES, deny: 0 },
            OverwriteEdit { target: OverwriteTarget::Role(guild_id), allow: 0, deny: VIEW_CHANNEL },
            OverwriteEdit { target: OverwriteTarget::Role(quarantine_role_id), allow: quarantine_access(), deny: 0 },
        ]
    } else if already_hidden(overwrites, guild_id, quarantine_role_id) {
        Seq::empty()
    } else {
        seq![OverwriteEdit { target: OverwriteTarget::Role(quarantine_role_id), allow: 0, deny: VIEW_CHANNEL }]
    }
}

/// Lists the overwrites that isolate quarantine on one channel.
pub fn isolation_edits(
    overwrites: &[Overwrite],
    channel_id: u64,
    quarantine_channel_id: u64,
    guild_id: u64,
    quarantine_role_id: u64,
    bot_user_id: u64,
) -> (r: Vec<OverwriteEdit>)
    ensures
        r@ == isolation_plan(overwrites@, channel_id, quarantine_channel_id, guild_id, quarantine_role_id, bot_user_id),
{
    let access = VIEW_CHANNEL | SEND_MESSAGES | READ_MESSAGE_HISTORY;
    let mut r: Vec<OverwriteEdit> = Vec::new();
    if channel_id == quarantine_channel_id {
        r.push(OverwriteEdit { target: OverwriteTarget::Member(bot_user_id), allow: access | MANAGE_CHANNELS | MANAGE_ROLES, deny: 0 });
        r.push(OverwriteEdit { target: OverwriteTarget::Role(guild_id), allow: 0, deny: VIEW_CHANNEL });
        r.push(OverwriteEdit { target: OverwriteTarget::Role(quarantine_role_id), allow: access, deny: 0 });
    } else if !quarantine_is_already_hidden(overwrites, guild_id, quarantine_role_id) {
        r.push(OverwriteEdit { target: OverwriteTarget::Role(quarantine_role_id), allow: 0, deny: VIEW_CHANNEL });
    }
    assert(r@ =~= isolation_plan(overwrites@, channel_id, quarantine_channel_id, guild_id, quarantine_role_id, bot_user_id));
    r
}

/// The edits that the `/banish` command makes to enforce isolation on a
/// channel: the quarantine channel is hidden from `@everyone` and opened to
/// the quarantine role and the bot; every other channel is hidden from the
/// quarantine role.
pub open spec fn banish_isolation_plan(
    channel_id: u64,
    quarantine_channel_id: u64,
    guild_id: u64,
    quarantine_role_id: u64,
    bot_user_id: u64,
) -> Seq<OverwriteEdit> {
    if channel_id == quarantine_channel_id {
        seq![
            OverwriteEdit { target: OverwriteTarget::Role(guild_id), allow: 0, deny: VIEW_CHANNEL },
            OverwriteEdit { target: OverwriteTarget::Role(quarantine_role_id), allow: quarantine_access(), deny: 0 },
            OverwriteEdit { target: OverwriteTarget::Member(bot_user_id), allow: quarantine_access(), deny: 0 },
        ]
    } else {
        seq![OverwriteEdit { target: OverwriteTarget::Role(quarantine_role_id), allow: 0, deny: VIEW_CHANNEL }]
    }
}

/// Lists the overwrites that `/banish` writes on one channel.
pub fn banish_isolation_edits(
    channel_id: u64,
    quarantine_channel_id: u64,
    guild_id: u64,
    quarantine_role_id: u64,
    bot_user_id: u64,
) -> (r: Vec<OverwriteEdit>)
    ensures
        r@ == banish_isolation_plan(channel_id, quarantine_channel_id, guild_id, quarantine_role_id, bot_user_id),
{
    let access = VIEW_CHANNEL | SEND_MESSAGES | READ_MESSAGE_HISTORY;
    let mut r: Vec<OverwriteEdit> = Vec::new();
    if channel_id == quarantine_channel_id {
        r.push(OverwriteEdit { target: OverwriteTarget::Role(guild_id), allow: 0, deny: VIEW_CHANNEL });
        r.push(OverwriteEdit { target: OverwriteTarget::Role(quarantine_role_id), allow: access, deny: 0 });
        r.push(OverwriteEdit { target: OverwriteTarget::Member(bot_user_id), allow: access, deny: 0 });
    } else {
        r.push(OverwriteEdit { target: OverwriteTarget::Role(quarantine_role_id), allow: 0, deny: VIEW_CHANNEL });
    }
    assert(r@ =~= banish_isolation_plan(channel_id, quarantine_channel_id, guild_id, quarantine_role_id, bot_user_id));
    r
}

/// After the isolation edits of a non-quarantine channel are written, the
/// quarantine role cannot view it: either it was already hidden, or the
/// overwrite written for the quarantine role denies viewing and does not
/// allow it.
pub proof fn lemma_isolation_hides_other_channels(
    overwrites: Seq<Overwrite>,
    channel_id: u64,
    quarantine_channel_id: u64,
    guild_id: u64,
    quarantine_role_id: u64,
    bot_user_id: u64,
)
    requires
        channel_id != quarantine_channel_id,
    ensures
        ({
            let plan = isolation_plan(overwrites, channel_id, quarantine_channel_id, guild_id, quarantine_role_id, bot_user_id);
            ||| plan.len() == 0 && already_hidden(overwrites, guild_id, quarantine_role_id)
            ||| plan.len() == 1 && ({
                let written = overwrite_update(overwrites, plan[0].target, plan[0].allow, plan[0].deny);
                &&& written.target == OverwriteTarget::Role(quarantine_role_id)
                &&& has_all(written.deny, VIEW_CHANNEL)
                &&& !has_all(written.allow, VIEW_CHANNEL)
            })
        }),
{
    let plan = isolation_plan(overwrites, channel_id, quarantine_channel_id, guild_id, quarantine_role_id, bot_user_id);
    if plan.len() == 1 {
        let e = match first_for(overwrites, OverwriteTarget::Role(quarantine_role_id)) {
            Some(i) => Some(overwrites[i]),
            None => None,
        };
        let a: u64 = match e { Some(o) => o.allow, None => 0 };
        let d: u64 = match e { Some(o) => o.deny, None => 0 };
        assert(((d & !0u64) | 0x400u64) & 0x400u64 == 0x400u64) by (bit_vector);
        assert(((a & !0x400u64) | 0u64) & 0x400u64 != 0x400u64) by (bit_vector);
    }
}

} // verus!
