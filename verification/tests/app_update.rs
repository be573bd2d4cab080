use codeg::json::Json;
use codeg::web::app_update::busy;
use codeg::web::app_update::ensure_supported;
use codeg::web::app_update::not_supported;
use codeg::web::app_update::progress_payload;
use codeg::web::app_update::restart_impl;
use codeg::web::app_update::trial_seconds_value;
use codeg::web::app_update::AppCommandError;
use codeg::web::app_update::Build;
use codeg::web::app_update::ErrorKind;
use codeg::web::app_update::SystemOp;
use codeg::web::app_update::UpdateActionResult;
use codeg::web::app_update::UpdateCapability;
use codeg::web::app_update::UpdateRuntime;
use codeg::web::app_update::UpdateService;

fn runtime(build: Build, capability: UpdateCapability) -> UpdateRuntime {
    UpdateRuntime {
        build,
        capability,
        upgrade_trial_secs: 45,
        restart_delay_ms: 1500,
    }
}

fn server() -> UpdateRuntime {
    runtime(
        Build::Server { windows: false },
        UpdateCapability::Supervised,
    )
}

fn failure() -> AppCommandError {
    AppCommandError {
        kind: ErrorKind::Other,
        message: "checksum mismatch".to_string(),
    }
}

#[test]
fn desktop_builds_refuse_every_request() {
    let desktop = runtime(Build::Desktop, UpdateCapability::ReExec);
    let mut service = UpdateService::new();
    assert_eq!(service.begin_perform(&desktop), Err(not_supported()));
    assert_eq!(service.begin_rollback(&desktop), Err(not_supported()));
    assert_eq!(restart_impl(&mut service, &desktop), Err(not_supported()));
    assert_eq!(service.op, SystemOp::Idle);
    assert_eq!(
        not_supported().message,
        "In-place update is only available in server mode"
    );
}

#[test]
fn windows_servers_refuse_every_request() {
    let windows = runtime(Build::Server { windows: true }, UpdateCapability::ReExec);
    let mut service = UpdateService::new();
    let refusal = ensure_supported(true).unwrap_err();
    assert_eq!(refusal.kind, ErrorKind::InvalidInput);
    assert_eq!(
        refusal.message,
        "In-place server self-update is not supported on Windows yet"
    );
    assert_eq!(service.begin_perform(&windows), Err(refusal));
    assert!(restart_impl(&mut service, &windows).is_err());
    assert!(service.begin_rollback(&windows).is_err());
    assert_eq!(ensure_supported(false), Ok(()));
}

#[test]
fn an_update_holds_the_system_until_it_ends() {
    let mut service = UpdateService::new();
    assert_eq!(service.begin_perform(&server()), Ok(()));
    assert_eq!(service.begin_perform(&server()), Err(busy()));
    assert_eq!(service.begin_rollback(&server()), Err(busy()));
    assert_eq!(restart_impl(&mut service, &server()), Err(busy()));
    assert_eq!(
        busy().message,
        "An update operation is already in progress"
    );
    assert_eq!(busy().kind, ErrorKind::AlreadyExists);
    assert_eq!(
        service.finish_perform(&server(), Ok("1.4.0".to_string())),
        Ok(UpdateActionResult {
            version: Some("1.4.0".to_string()),
            need_restart: true,
            restart_delay_ms: 1500,
            trial_seconds: 45,
            capability: UpdateCapability::Supervised,
        })
    );
    assert_eq!(service.begin_perform(&server()), Ok(()));
    assert_eq!(
        service.finish_perform(&server(), Err(failure())),
        Err(failure())
    );
    assert_eq!(service.op, SystemOp::Idle);
}

#[test]
fn a_restart_is_final() {
    let mut service = UpdateService::new();
    assert_eq!(
        restart_impl(&mut service, &server()),
        Ok(UpdateActionResult {
            version: None,
            need_restart: false,
            restart_delay_ms: 1500,
            trial_seconds: 45,
            capability: UpdateCapability::Supervised,
        })
    );
    assert_eq!(service.begin_perform(&server()), Err(busy()));
    assert_eq!(service.begin_rollback(&server()), Err(busy()));
    assert_eq!(restart_impl(&mut service, &server()), Err(busy()));
    assert_eq!(service.op, SystemOp::Relaunching);
}

#[test]
fn a_rollback_goes_straight_to_the_relaunch() {
    let mut service = UpdateService::new();
    assert_eq!(service.begin_rollback(&server()), Ok(()));
    assert_eq!(service.begin_perform(&server()), Err(busy()));
    assert_eq!(
        service.finish_rollback(&server(), Ok(())),
        Ok(UpdateActionResult {
            version: None,
            need_restart: false,
            restart_delay_ms: 1500,
            trial_seconds: 0,
            capability: UpdateCapability::Supervised,
        })
    );
    assert_eq!(service.begin_perform(&server()), Err(busy()));

    let mut other = UpdateService::new();
    assert_eq!(other.begin_rollback(&server()), Ok(()));
    assert_eq!(
        other.finish_rollback(&server(), Err(failure())),
        Err(failure())
    );
    assert_eq!(other.begin_perform(&server()), Ok(()));
}

#[test]
fn only_a_supervisor_has_a_trial() {
    assert_eq!(trial_seconds_value(&server()), 45);
    let alone = runtime(Build::Server { windows: false }, UpdateCapability::ReExec);
    assert_eq!(trial_seconds_value(&alone), 0);
}

#[test]
fn progress_says_how_far_it_is() {
    assert_eq!(
        progress_payload(Json::text("downloading"), 10, Some(40)).to_text(),
        r#"{"downloaded":10,"phase":"downloading","total":40}"#
    );
    assert_eq!(
        progress_payload(Json::text("installing"), 40, None).to_text(),
        r#"{"downloaded":40,"phase":"installing","total":null}"#
    );
}
