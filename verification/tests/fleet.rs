use core_nft::fleet::{
    created_canister, init_args_failure, CanisterState, FleetKind, PlacementEvent, PlacementOp,
    SubCanisterManager, UpgradeOp, UpgradeRun, UploadPlacement,
};
use core_nft::principal::PrincipalId;
use core_nft::storage_fleet::{is_at_threshold, new_storage_cycles};

fn pid(b: u8) -> PrincipalId {
    PrincipalId::from_bytes(vec![b, 1, 2]).unwrap()
}

fn text(b: u8) -> String {
    candid::Principal::from_slice(&[b, 1, 2]).to_text()
}

fn bytes_of(op: &UpgradeOp) -> (&'static str, Vec<u8>) {
    match op {
        UpgradeOp::Stop(p) => ("stop", p.as_bytes().to_vec()),
        UpgradeOp::Install(p) => ("install", p.as_bytes().to_vec()),
        UpgradeOp::Start(p) => ("start", p.as_bytes().to_vec()),
        UpgradeOp::Done(_) => ("done", vec![]),
    }
}

#[test]
fn upgrade_of_every_canister_succeeds() {
    let (mut run, op) = UpgradeRun::start(FleetKind::Storage, vec![pid(1), pid(2)]);
    assert_eq!(bytes_of(&op), ("stop", vec![1, 1, 2]));
    let a = run.advance(Ok(()));
    let (p, s) = a.record.unwrap();
    assert_eq!(p.as_bytes(), &[1, 1, 2]);
    assert_eq!(s, CanisterState::Stopped);
    assert_eq!(bytes_of(&a.next), ("install", vec![1, 1, 2]));
    let a = run.advance(Ok(()));
    assert!(a.record.is_none());
    assert_eq!(bytes_of(&a.next), ("start", vec![1, 1, 2]));
    let a = run.advance(Ok(()));
    assert_eq!(a.record.unwrap().1, CanisterState::Installed);
    assert_eq!(bytes_of(&a.next), ("stop", vec![2, 1, 2]));
    run.advance(Ok(()));
    run.advance(Ok(()));
    let a = run.advance(Ok(()));
    assert!(matches!(a.next, UpgradeOp::Done(Ok(()))));
}

#[test]
fn upgrade_failures_are_collected_and_run_goes_on() {
    let (mut run, _) = UpgradeRun::start(FleetKind::Archive, vec![pid(3), pid(4)]);
    let a = run.advance(Err("CanisterNotFound".to_string()));
    assert!(a.record.is_none());
    assert_eq!(bytes_of(&a.next), ("stop", vec![4, 1, 2]));
    let a = run.advance(Ok(()));
    assert!(a.record.is_none());
    let a = run.advance(Err("bad wasm".to_string()));
    match a.next {
        UpgradeOp::Done(Err(errors)) => {
            assert_eq!(errors.len(), 2);
            assert_eq!(
                errors[0],
                format!(
                    "ERROR: archive upgrade :: archive with principal : {} failed to stop with error CanisterNotFound",
                    text(3)
                )
            );
            assert_eq!(
                errors[1],
                format!(
                    "ERROR: archive upgrade :: archive with principal : {} failed to install upgrade bad wasm",
                    text(4)
                )
            );
        }
        _ => panic!("expected the run to finish with errors"),
    }
}

#[test]
fn upgrade_start_failure_names_storage_canister() {
    let (mut run, _) = UpgradeRun::start(FleetKind::Storage, vec![pid(5)]);
    run.advance(Ok(()));
    run.advance(Ok(()));
    let a = run.advance(Err("out of cycles".to_string()));
    assert!(a.record.is_none());
    match a.next {
        UpgradeOp::Done(Err(errors)) => assert_eq!(
            errors,
            vec![format!(
                "ERROR: storage upgrade :: storage with principal : {} failed to start with error out of cycles",
                text(5)
            )]
        ),
        _ => panic!("expected errors"),
    }
}

#[test]
fn upgrade_of_empty_fleet_is_done_at_once() {
    let (_, op) = UpgradeRun::start(FleetKind::Storage, vec![]);
    assert!(matches!(op, UpgradeOp::Done(Ok(()))));
}

#[test]
fn init_args_failure_message() {
    let r = init_args_failure(&"boom".to_string());
    assert_eq!(r, vec!["ERROR : failed to create init args with error - boom".to_string()]);
}

#[test]
fn created_canister_is_reused_first() {
    let c = vec![
        (pid(1), CanisterState::Installed),
        (pid(2), CanisterState::Created),
        (pid(3), CanisterState::Created),
    ];
    assert_eq!(created_canister(&c), Some(1));
    assert_eq!(created_canister(&vec![(pid(1), CanisterState::Stopped)]), None);
}

fn target(op: &PlacementOp) -> (&'static str, Vec<u8>) {
    match op {
        PlacementOp::QuerySizes(p) => ("sizes", p.as_bytes().to_vec()),
        PlacementOp::InitUpload(p) => ("init", p.as_bytes().to_vec()),
        PlacementOp::CreateCanister => ("create", vec![]),
        PlacementOp::InitUploadOnNew(p) => ("init_new", p.as_bytes().to_vec()),
        PlacementOp::Done(Ok(p)) => ("done", p.as_bytes().to_vec()),
        PlacementOp::Done(Err(_)) => ("failed", vec![]),
    }
}

#[test]
fn placement_refuses_file_over_two_gib() {
    let (_, op) = UploadPlacement::start(vec![pid(1)], 2 * 1024 * 1024 * 1024 + 1);
    match op {
        PlacementOp::Done(Err(m)) => assert_eq!(m, "File size exceeds the maximum limit of 2GB"),
        _ => panic!("expected refusal"),
    }
}

#[test]
fn placement_skips_full_and_refusing_canisters() {
    let gib: u128 = 1024 * 1024 * 1024;
    let (mut pl, op) = UploadPlacement::start(vec![pid(1), pid(2), pid(3)], 1024);
    assert_eq!(target(&op), ("sizes", vec![1, 1, 2]));
    let op = pl.advance(PlacementEvent::Sizes(Some((500 * gib + 1, 0))));
    assert_eq!(target(&op), ("sizes", vec![2, 1, 2]));
    let op = pl.advance(PlacementEvent::Sizes(Some((10, 20))));
    assert_eq!(target(&op), ("init", vec![2, 1, 2]));
    let op = pl.advance(PlacementEvent::Accepted(false));
    assert_eq!(target(&op), ("sizes", vec![3, 1, 2]));
    let op = pl.advance(PlacementEvent::Sizes(None));
    assert_eq!(target(&op), ("create", vec![]));
    let op = pl.advance(PlacementEvent::Created(Ok(pid(9))));
    assert_eq!(target(&op), ("init_new", vec![9, 1, 2]));
    let op = pl.advance(PlacementEvent::NewAccepted(Ok(())));
    assert_eq!(target(&op), ("done", vec![9, 1, 2]));
}

#[test]
fn placement_takes_first_canister_with_room() {
    let (mut pl, _) = UploadPlacement::start(vec![pid(1)], 100);
    pl.advance(PlacementEvent::Sizes(Some((0, 0))));
    let op = pl.advance(PlacementEvent::Accepted(true));
    assert_eq!(target(&op), ("done", vec![1, 1, 2]));
}

#[test]
fn placement_reports_creation_error() {
    let (mut pl, op) = UploadPlacement::start(vec![], 100);
    assert_eq!(target(&op), ("create", vec![]));
    let op = pl.advance(PlacementEvent::Created(Err("CreateCanisterError(\"no cycles\")".to_string())));
    match op {
        PlacementOp::Done(Err(m)) => assert_eq!(m, "CreateCanisterError(\"no cycles\")"),
        _ => panic!("expected error"),
    }
}

#[test]
fn calls_need_an_installed_canister() {
    assert!(core_nft::fleet::require_installed(CanisterState::Installed).is_ok());
    assert_eq!(
        core_nft::fleet::require_installed(CanisterState::Stopped),
        Err("Canister is not installed".to_string())
    );
}

#[test]
fn placement_accepts_a_canister_filled_exactly_to_the_limit() {
    let gib: u128 = 1024 * 1024 * 1024;
    let (mut pl, _) = UploadPlacement::start(vec![pid(1)], 1024);
    let op = pl.advance(PlacementEvent::Sizes(Some((500 * gib, 0))));
    assert_eq!(target(&op), ("init", vec![1, 1, 2]));
}

#[test]
fn data_placement_checks_size_plus_value() {
    let gib: u128 = 1024 * 1024 * 1024;
    let (mut pl, op) = UploadPlacement::start_data(vec![pid(1), pid(2)], 10);
    assert_eq!(target(&op), ("sizes", vec![1, 1, 2]));
    let op = pl.advance(PlacementEvent::Sizes(Some((500 * gib - 9, 0))));
    assert_eq!(target(&op), ("sizes", vec![2, 1, 2]));
    let op = pl.advance(PlacementEvent::Sizes(Some((500 * gib - 10, u64::MAX))));
    assert_eq!(target(&op), ("init", vec![2, 1, 2]));
}

#[test]
fn storage_cycles_and_threshold() {

    assert_eq!(new_storage_cycles(true), (2_000_000_000_000, 2_000_000_000_000));
    assert_eq!(new_storage_cycles(false), (10_000_000_000_000, 4_000_000_000_000));
    assert!(is_at_threshold(Some(10), 10));
    assert!(!is_at_threshold(Some(9), 10));
    assert!(!is_at_threshold(None, 0));
}

#[test]
fn manager_adds_master_to_controllers_and_tracks_states() {

    let mut m = SubCanisterManager::new(
        (),
        (),
        pid(0),
        vec![(pid(1), CanisterState::Installed), (pid(2), CanisterState::Created)],
        vec![pid(8)],
        vec![],
        5,
        2,
        true,
        "abc".to_string(),
        vec![0, 97, 115, 109],
    );
    assert_eq!(m.controllers.len(), 2);
    assert_eq!(m.controllers[1].as_bytes(), &[0, 1, 2]);
    assert_eq!(m.authorized_principal.len(), 1);
    let ids: Vec<Vec<u8>> = m.list_canisters_ids().iter().map(|p| p.as_bytes().to_vec()).collect();
    assert_eq!(ids, vec![vec![1, 1, 2], vec![2, 1, 2]]);
    assert_eq!(m.installed_canisters().len(), 1);
    m.set_state(pid(2), CanisterState::Installed);
    m.set_state(pid(3), CanisterState::Created);
    assert_eq!(m.installed_canisters().len(), 2);
    assert_eq!(m.sub_canisters.len(), 3);
    assert_eq!(created_canister(&m.sub_canisters), Some(2));
}
