use ksa64_host::mission::{
    gnss_missing_after, release_plan, MissionMilestone, MissionSessionError, SessionControl,
    SessionEvent, SessionLifecycle, SessionPace,
};

#[test]
fn session_pauses_resumes_and_refuses_when_finished() {
    let mut s = SessionControl::new();
    assert_eq!(s.lifecycle, SessionLifecycle::Compiled);
    assert_eq!(s.pause(), Err(MissionSessionError::Lifecycle));
    assert_eq!(s.prepare(), Ok(SessionEvent::Prepared));
    assert_eq!(s.prepare(), Err(MissionSessionError::Lifecycle));
    assert_eq!(s.set_pace(SessionPace::Fast), Ok(SessionEvent::PaceChanged(SessionPace::Fast)));
    assert_eq!(s.pause(), Ok(SessionEvent::Paused));
    assert_eq!((s.lifecycle, s.pace, s.resume_pace), (SessionLifecycle::Paused, SessionPace::Paused, SessionPace::Fast));
    assert_eq!(s.resume(), Ok(SessionEvent::Resumed(SessionPace::Fast)));
    assert_eq!((s.lifecycle, s.pace), (SessionLifecycle::Running, SessionPace::Fast));
    assert_eq!(s.resume(), Err(MissionSessionError::Lifecycle));
    assert_eq!(s.set_pace(SessionPace::SingleStep), Ok(SessionEvent::PaceChanged(SessionPace::SingleStep)));
    assert_eq!(s.resume_pace, SessionPace::Realtime);
    assert_eq!(s.set_pace(SessionPace::Paused), Ok(SessionEvent::Paused));
    assert_eq!(s.resume_pace, SessionPace::SingleStep);
    assert_eq!(s.abort(7), Ok(SessionEvent::Aborted(7)));
    let before = s;
    assert_eq!(s.set_pace(SessionPace::Fast), Err(MissionSessionError::Lifecycle));
    assert_eq!(s.abort(8), Err(MissionSessionError::Lifecycle));
    assert_eq!(s, before);
}

#[test]
fn releases_run_step_and_complete() {
    let mut s = SessionControl::new();
    assert_eq!(s.begin_release(0), Err(MissionSessionError::Lifecycle));
    s.prepare().unwrap();
    assert_eq!(s.begin_release(24_000), Err(MissionSessionError::Lifecycle));
    assert_eq!(s.begin_release(0), Ok(()));
    assert_eq!(s.lifecycle, SessionLifecycle::Running);
    s.end_release(false, true);
    assert_eq!(s.lifecycle, SessionLifecycle::Paused);
    assert_eq!(s.hold_after_step(), Some(SessionEvent::Paused));
    assert_eq!(s.pace, SessionPace::Paused);
    assert_eq!(s.release_budget(10), 0);
    s.resume().unwrap();
    assert_eq!(s.release_budget(10), 1);
    s.set_pace(SessionPace::Fast).unwrap();
    assert_eq!(s.release_budget(1_000), 256);
    assert_eq!(s.release_budget(10), 10);
    assert_eq!(s.release_budget(0), 0);
    s.begin_release(1).unwrap();
    s.end_release(true, false);
    assert_eq!(s.lifecycle, SessionLifecycle::Completed);
    assert_eq!(s.hold_after_step(), None);
}

#[test]
fn release_bookkeeping_follows_the_strides_and_milestones() {
    let first = release_plan(0, 0, false, false, false);
    assert!(first.observe_ground && first.project_predictions && first.keep_predictions);
    assert!(first.important && first.sampled);
    let quiet = release_plan(5, 0, false, false, false);
    assert!(!quiet.observe_ground && !quiet.important && !quiet.sampled);
    assert!(release_plan(31, 0, false, false, false).important);
    assert!(release_plan(40, 0, false, false, false).sampled);
    assert!(release_plan(41, 0, true, false, false).important);
    assert_eq!(release_plan(5_760, 0, false, false, false).milestone, Some(MissionMilestone::GnssObservationsMissing));
    assert_eq!(release_plan(5_824, 2, false, false, false).milestone, None);
    let qualified = release_plan(5_824, 3, false, false, false);
    assert_eq!(qualified.milestone, Some(MissionMilestone::GnssLossQualified));
    assert!(qualified.keep_predictions);
    assert_eq!(release_plan(5_920, 0, false, false, false).milestone, Some(MissionMilestone::ResponseWindowOpen));
}

#[test]
fn missing_gnss_fixes_count_on_fix_boundaries_after_the_loss() {
    assert_eq!(gnss_missing_after(0, 5_760, Some(false)), 1);
    assert_eq!(gnss_missing_after(1, 5_761, Some(false)), 1);
    assert_eq!(gnss_missing_after(1, 5_792, None), 1);
    assert_eq!(gnss_missing_after(2, 5_792, Some(true)), 0);
    assert_eq!(gnss_missing_after(2, 5_728, Some(false)), 0);
    assert_eq!(gnss_missing_after(255, 6_016, Some(false)), 255);
}

use ksa64_host::disposition::UplinkState;
use ksa64_host::mission::{
    branch_declared, check_navigation_update, classify_receipt, commit_allowed,
    GroundEstimateFacts, NavigationUpdateLoad, ReferenceFrame, StagedLoad, UplinkControlKind,
    UplinkLedger, UplinkLoadType, UplinkReceipt,
};

fn ground() -> GroundEstimateFacts {
    GroundEstimateFacts {
        estimator_checksum: 77,
        frame: ReferenceFrame::EarthFixedEcefV1,
        position_q12_km: [1, 2, 3],
        velocity_q24_km_s: [4, 5, 6],
    }
}

#[test]
fn navigation_updates_must_carry_the_latest_ground_estimate() {
    let load = NavigationUpdateLoad {
        source_estimator_identity: 9,
        source_estimator_checksum: 77,
        frame: ReferenceFrame::EarthFixedEcefV1,
        position_q12_km: [1, 2, 3],
        velocity_q24_km_s: [4, 5, 6],
    };
    assert_eq!(check_navigation_update(&load, Some(ground()), 9), Ok(()));
    assert_eq!(check_navigation_update(&load, None, 9), Err(MissionSessionError::ActionRejected));
    assert_eq!(check_navigation_update(&load, Some(ground()), 8), Err(MissionSessionError::ActionRejected));
    let moved = NavigationUpdateLoad { velocity_q24_km_s: [4, 5, 7], ..load };
    assert_eq!(check_navigation_update(&moved, Some(ground()), 9), Err(MissionSessionError::ActionRejected));
    let other_frame = NavigationUpdateLoad { frame: ReferenceFrame::LocalEnuV1, ..load };
    assert_eq!(check_navigation_update(&other_frame, Some(ground()), 9), Err(MissionSessionError::ActionRejected));
    assert!(branch_declared(&[1, 2], 2));
    assert!(!branch_declared(&[1, 2], 3));
    assert!(!branch_declared(&[1, 2], 258));
}

fn receipt(kind: UplinkControlKind, id: u32, state: UplinkState, ok: bool) -> UplinkReceipt {
    UplinkReceipt { kind, load_identity: id, state, reason_accepted: ok }
}

#[test]
fn uplink_ledger_follows_the_package_answers() {
    let branch = StagedLoad { load_identity: 5, load_type: UplinkLoadType::ContingencyBranch, first_argument: 2, expires_epoch: 70 };
    let mut ledger = UplinkLedger { staged: None, rejected_loads: 0, selected_branch: 1 };
    assert_eq!(commit_allowed(None, true, Some(UplinkLoadType::ContingencyBranch)), Err(MissionSessionError::ActionUnavailable));
    assert_eq!(ledger.commit_answered(receipt(UplinkControlKind::CommitReceipt, 5, UplinkState::Committed, true)), Err(MissionSessionError::ActionUnavailable));
    ledger.stage_answered(branch, receipt(UplinkControlKind::StageReceipt, 5, UplinkState::Rejected, false));
    assert_eq!((ledger.staged, ledger.rejected_loads), (None, 1));
    ledger.stage_answered(branch, receipt(UplinkControlKind::StageReceipt, 5, UplinkState::Staged, true));
    assert_eq!(ledger.staged, Some(branch));
    assert_eq!(commit_allowed(ledger.staged, true, Some(UplinkLoadType::ContingencyBranch)), Ok(()));
    assert_eq!(commit_allowed(ledger.staged, true, Some(UplinkLoadType::GroundNavigationUpdate)), Err(MissionSessionError::ActionRejected));
    assert_eq!(commit_allowed(ledger.staged, false, Some(UplinkLoadType::ContingencyBranch)), Err(MissionSessionError::ActionRejected));
    assert_eq!(ledger.commit_answered(receipt(UplinkControlKind::CommitReceipt, 5, UplinkState::Committed, true)), Ok(()));
    assert_eq!((ledger.staged, ledger.selected_branch, ledger.rejected_loads), (None, 2, 1));
    ledger.cancel_answered(6, receipt(UplinkControlKind::Cancellation, 6, UplinkState::Cancelled, true));
    assert_eq!(ledger.rejected_loads, 1);
    ledger.cancel_answered(6, receipt(UplinkControlKind::Cancellation, 7, UplinkState::Cancelled, true));
    assert_eq!(ledger.rejected_loads, 2);
}

#[test]
fn receipts_are_recorded_by_what_they_did() {
    assert_eq!(
        classify_receipt(receipt(UplinkControlKind::StageReceipt, 3, UplinkState::Staged, true)),
        (true, SessionEvent::ActionStaged(3))
    );
    assert_eq!(
        classify_receipt(receipt(UplinkControlKind::CommitReceipt, 3, UplinkState::Committed, true)),
        (true, SessionEvent::ActionCommitted(3))
    );
    assert_eq!(
        classify_receipt(receipt(UplinkControlKind::Cancellation, 3, UplinkState::Cancelled, true)),
        (true, SessionEvent::ActionCancelled(3))
    );
    assert_eq!(
        classify_receipt(receipt(UplinkControlKind::CommitReceipt, 3, UplinkState::Staged, true)),
        (false, SessionEvent::ActionRejected(3))
    );
    assert_eq!(
        classify_receipt(receipt(UplinkControlKind::StageReceipt, 3, UplinkState::Staged, false)),
        (false, SessionEvent::ActionRejected(3))
    );
}

#[test]
fn a_staged_load_expires_after_its_last_epoch() {
    let load = StagedLoad { load_identity: 9, load_type: UplinkLoadType::GroundNavigationUpdate, first_argument: 0, expires_epoch: 70 };
    let mut ledger = UplinkLedger { staged: Some(load), rejected_loads: 0, selected_branch: 1 };
    assert_eq!(ledger.expire_after_release(70), None);
    assert_eq!(ledger.staged, Some(load));
    let event = ledger.expire_after_release(71).unwrap();
    assert_eq!(event.epoch, 71);
    assert_eq!(event.source, ksa64_host::disposition::TimelineSource::Operator);
    assert_eq!(event.severity, 1);
    assert_eq!(event.event_identity, 9);
    assert_eq!(event.label, "Staged command load expired without commit");
    assert_eq!(ledger.staged, None);
    assert_eq!(ledger.expire_after_release(72), None);
    assert_eq!(
        commit_allowed(ledger.staged, true, Some(UplinkLoadType::GroundNavigationUpdate)),
        Err(MissionSessionError::ActionUnavailable)
    );
}

use ksa64_host::mission::{admit_operator_action, ActionRequest};

#[test]
fn operator_actions_are_admitted_in_check_order() {
    let staged = Some(StagedLoad { load_identity: 3, load_type: UplinkLoadType::ContingencyBranch, first_argument: 2, expires_epoch: 9 });
    let ask = |life, role, req: ActionRequest, runner| {
        admit_operator_action(life, role, &req, Some(ground()), 9, &[1, 2], staged, true, Some(UplinkLoadType::ContingencyBranch), runner)
    };
    assert_eq!(ask(SessionLifecycle::Completed, false, ActionRequest::StageBranch(7), true), Err(MissionSessionError::Lifecycle));
    assert_eq!(ask(SessionLifecycle::Compiled, true, ActionRequest::Cancel, true), Err(MissionSessionError::Lifecycle));
    assert_eq!(ask(SessionLifecycle::Running, false, ActionRequest::Cancel, true), Err(MissionSessionError::ActionRejected));
    assert_eq!(ask(SessionLifecycle::Paused, true, ActionRequest::StageBranch(7), false), Err(MissionSessionError::ActionRejected));
    assert_eq!(ask(SessionLifecycle::Ready, true, ActionRequest::StageBranch(2), true), Ok(()));
    assert_eq!(ask(SessionLifecycle::Running, true, ActionRequest::Commit, false), Err(MissionSessionError::Lifecycle));
    assert_eq!(ask(SessionLifecycle::Running, true, ActionRequest::StageOther, true), Ok(()));
    assert_eq!(
        admit_operator_action(SessionLifecycle::Running, true, &ActionRequest::Commit, None, 9, &[], None, true, None, true),
        Err(MissionSessionError::ActionUnavailable)
    );
}

#[test]
fn only_the_full_gnss_loss_scenario_compiles() {
    let s = SessionControl::compile_for(ksa64_host::disposition::FULL_GNSS_LOSS_SCENARIO_ID).unwrap();
    assert_eq!(s.lifecycle, SessionLifecycle::Compiled);
    assert_eq!(
        SessionControl::compile_for(0x1100_0001).err(),
        Some(MissionSessionError::Unsupported)
    );
}
