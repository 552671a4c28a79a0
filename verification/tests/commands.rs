use hugh::commands::{
    banish_step, banish_target_allowed, refuse_owner_target, refuse_self_target, unbanish_step,
    BanishAction, BanishStage, CommandError, UnbanishAction, UnbanishStage,
};

fn banish_trace(outcomes: &[bool]) -> Vec<BanishAction> {
    let mut stage = BanishStage::Begin;
    let mut actions = Vec::new();
    for &ok in outcomes {
        let (next, action) = banish_step(stage, ok);
        stage = next;
        actions.push(action);
    }
    actions
}

fn unbanish_trace(outcomes: &[bool]) -> Vec<UnbanishAction> {
    let mut stage = UnbanishStage::Begin;
    let mut actions = Vec::new();
    for &ok in outcomes {
        let (next, action) = unbanish_step(stage, ok);
        stage = next;
        actions.push(action);
    }
    actions
}

#[test]
fn banish_refuses_the_bot_before_the_owner() {
    assert_eq!(refuse_self_target(5, 5), Err(CommandError::SelfTarget));
    assert_eq!(refuse_self_target(6, 5), Ok(()));
    assert_eq!(refuse_owner_target(7, 7), Err(CommandError::OwnerTarget));
    assert_eq!(refuse_owner_target(6, 7), Ok(()));
    assert_eq!(banish_target_allowed(5, 5, 5), Err(CommandError::SelfTarget));
    assert_eq!(banish_target_allowed(7, 5, 7), Err(CommandError::OwnerTarget));
    assert_eq!(banish_target_allowed(6, 5, 7), Ok(()));
}

#[test]
fn a_failed_quarantine_role_discards_the_snapshot() {
    assert_eq!(
        banish_trace(&[true, true, true, true, true]),
        vec![BanishAction::TakeSnapshot, BanishAction::AddQuarantineRole, BanishAction::StripRoles, BanishAction::Report, BanishAction::Finished]
    );
    assert_eq!(
        banish_trace(&[true, true, false, true, true]),
        vec![BanishAction::TakeSnapshot, BanishAction::AddQuarantineRole, BanishAction::DiscardSnapshot, BanishAction::FailRoleAdd, BanishAction::Finished]
    );
    assert_eq!(banish_trace(&[true, false, true]), vec![BanishAction::TakeSnapshot, BanishAction::RefuseSnapshotted, BanishAction::Finished]);
}

#[test]
fn an_incomplete_restore_keeps_the_member_quarantined() {
    assert_eq!(
        unbanish_trace(&[true, true, true, true, true]),
        vec![UnbanishAction::RestoreRoles, UnbanishAction::RemoveQuarantineRole, UnbanishAction::ClearSnapshot, UnbanishAction::Report, UnbanishAction::Finished]
    );
    assert_eq!(unbanish_trace(&[true, false, true]), vec![UnbanishAction::RestoreRoles, UnbanishAction::KeepQuarantined, UnbanishAction::Finished]);
    assert_eq!(
        unbanish_trace(&[true, true, false, true]),
        vec![UnbanishAction::RestoreRoles, UnbanishAction::RemoveQuarantineRole, UnbanishAction::FailRoleRemoval, UnbanishAction::Finished]
    );
}
