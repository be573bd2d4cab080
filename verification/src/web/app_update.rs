//! In-place self-update of the standalone server: download and swap, relaunch,
//! and revert. One operation runs at a time; a second one is refused while the
//! first is in flight. Desktop builds update by other means and refuse all three.

use vstd::prelude::*;
use crate::json::last_wins;
use crate::json::members;
use crate::json::object_of;
use crate::json::Json;
use crate::json::JsonTree;

verus! {

// ─── what the process says of itself ─────────────────────────────────────

/// How a new version is brought up.
#[derive(Debug, Clone, Copy, PartialEq, Eq, Structural)]
pub enum UpdateCapability {
    /// A supervisor starts it, and rolls back a version that crashes early.
    Supervised,
    /// The process replaces itself.
    ReExec,
}

/// Which program is running.
#[derive(Debug, Clone, Copy, PartialEq, Eq, Structural)]
pub enum Build {
    Desktop,
    Server { windows: bool },
}

/// What the running process says of itself.
#[derive(Debug, Clone, Copy, PartialEq, Eq, Structural)]
pub struct UpdateRuntime {
    pub build: Build,
    pub capability: UpdateCapability,
    pub upgrade_trial_secs: u64,
    pub restart_delay_ms: u64,
}

// ─── errors ──────────────────────────────────────────────────────────────

/// What kind of error a command met.
#[derive(Debug, Clone, Copy, PartialEq, Eq, Structural)]
pub enum ErrorKind {
    InvalidInput,
    AlreadyExists,
    Other,
}

/// Why a command failed.
#[derive(Debug, PartialEq)]
pub struct AppCommandError {
    pub kind: ErrorKind,
    pub message: String,
}

impl AppCommandError {
    /// Whether this is the error of that kind with that message.
    pub open spec fn says(self, kind: ErrorKind, message: Seq<char>) -> bool {
        self.kind == kind && self.message@ == message
    }

    fn invalid_input(message: &str) -> (r: Self)
        ensures
            r.says(ErrorKind::InvalidInput, message@),
    {
        AppCommandError { kind: ErrorKind::InvalidInput, message: message.to_owned() }
    }

    fn already_exists(message: &str) -> (r: Self)
        ensures
            r.says(ErrorKind::AlreadyExists, message@),
    {
        AppCommandError { kind: ErrorKind::AlreadyExists, message: message.to_owned() }
    }
}

/// Whether `e` says that in-place updates belong to the server.
pub open spec fn is_not_supported(e: AppCommandError) -> bool {
    e.says(ErrorKind::InvalidInput, "In-place update is only available in server mode"@)
}

/// Whether `e` says that in-place updates are off on Windows.
pub open spec fn is_windows_refusal(e: AppCommandError) -> bool {
    e.says(
        ErrorKind::InvalidInput,
        "In-place server self-update is not supported on Windows yet"@,
    )
}

/// Whether `e` says that an operation is in flight.
pub open spec fn is_busy(e: AppCommandError) -> bool {
    e.says(ErrorKind::AlreadyExists, "An update operation is already in progress"@)
}

/// The answer of a desktop build.
pub fn not_supported() -> (r: AppCommandError)
    ensures
        is_not_supported(r),
{
    AppCommandError::invalid_input("In-place update is only available in server mode")
}

/// The answer while an operation is in flight.
pub fn busy() -> (r: AppCommandError)
    ensures
        is_busy(r),
{
    AppCommandError::already_exists("An update operation is already in progress")
}

/// Refuses on platforms where replacing the running program is not validated.
pub fn ensure_supported(windows: bool) -> (r: Result<(), AppCommandError>)
    ensures
        r is Ok <==> !windows,
        r matches Err(e) ==> is_windows_refusal(e),
{
    if windows {
        return Err(
            AppCommandError::invalid_input(
                "In-place server self-update is not supported on Windows yet",
            ),
        );
    }
    Ok(())
}

/// How long a new version is on trial: as long as the supervisor watches it.
pub open spec fn trial_seconds(runtime: UpdateRuntime) -> u64 {
    match runtime.capability {
        UpdateCapability::Supervised => runtime.upgrade_trial_secs,
        UpdateCapability::ReExec => 0,
    }
}

/// The seconds a caller should wait before it takes an upgrade for good.
pub fn trial_seconds_value(runtime: &UpdateRuntime) -> (r: u64)
    ensures
        r == trial_seconds(*runtime),
{
    match runtime.capability {
        UpdateCapability::Supervised => runtime.upgrade_trial_secs,
        UpdateCapability::ReExec => 0,
    }
}

// ─── operations ──────────────────────────────────────────────────────────

/// What came of an update operation.
#[derive(Debug, PartialEq)]
pub struct UpdateActionResult {
    /// The version that was installed; absent for a restart or a rollback.
    pub version: Option<String>,
    /// Whether the caller should follow up with a restart.
    pub need_restart: bool,
    /// How long the relaunch is put off.
    pub restart_delay_ms: u64,
    /// How long the new version is on trial.
    pub trial_seconds: u64,
    pub capability: UpdateCapability,
}

/// What an update that was installed comes to.
pub open spec fn installed(runtime: UpdateRuntime, version: String) -> UpdateActionResult {
    UpdateActionResult {
        version: Some(version),
        need_restart: true,
        restart_delay_ms: runtime.restart_delay_ms,
        trial_seconds: trial_seconds(runtime),
        capability: runtime.capability,
    }
}

/// What a rollback that worked comes to.
pub open spec fn reverted(runtime: UpdateRuntime) -> UpdateActionResult {
    UpdateActionResult {
        version: None,
        need_restart: false,
        restart_delay_ms: runtime.restart_delay_ms,
        trial_seconds: 0,
        capability: runtime.capability,
    }
}

/// What a restart that was granted comes to.
pub open spec fn restarting(runtime: UpdateRuntime) -> UpdateActionResult {
    UpdateActionResult {
        version: None,
        need_restart: false,
        restart_delay_ms: runtime.restart_delay_ms,
        trial_seconds: trial_seconds(runtime),
        capability: runtime.capability,
    }
}

/// What is reported while an update is downloaded and installed.
pub open spec fn progress_tree(phase: JsonTree, downloaded: u64, total: Option<u64>) -> JsonTree {
    object_of(
        seq![
            ("phase"@, phase),
            ("downloaded"@, JsonTree::Unsigned(downloaded)),
            (
                "total"@,
                match total {
                    Some(n) => JsonTree::Unsigned(n),
                    None => JsonTree::Null,
                },
            ),
        ],
    )
}

/// What is reported while an update is downloaded and installed.
pub fn progress_payload(phase: Json, downloaded: u64, total: Option<u64>) -> (r: Json)
    ensures
        r@ == progress_tree(phase@, downloaded, total),
{
    let whole = match total {
        Some(n) => Json::Unsigned(n),
        None => Json::Null,
    };
    let fields: Vec<(String, Json)> = vec![
        ("phase".to_owned(), phase),
        ("downloaded".to_owned(), Json::Unsigned(downloaded)),
        ("total".to_owned(), whole),
    ];
    assert(members(fields@) =~= seq![
        ("phase"@, phase@),
        ("downloaded"@, JsonTree::Unsigned(downloaded)),
        (
            "total"@,
            match total {
                Some(n) => JsonTree::Unsigned(n),
                None => JsonTree::Null,
            },
        ),
    ]);
    Json::object(fields)
}

/// Which operation holds the system.
#[derive(Debug, Clone, Copy, PartialEq, Eq, Structural)]
pub enum SystemOp {
    Idle,
    Performing,
    RollingBack,
    /// The process is about to be replaced, and nothing starts any more.
    Relaunching,
}

/// What may happen to the system.
pub enum UpdateEvent {
    /// An update is asked for.
    Perform,
    /// The update that was running came to its end.
    PerformDone,
    /// A restart is asked for.
    Restart,
    /// A rollback is asked for.
    Rollback,
    /// The rollback that was running came to its end.
    RollbackDone { reverted: bool },
}

/// The state after an event. A request takes effect on an idle system alone.
pub open spec fn next(op: SystemOp, event: UpdateEvent) -> SystemOp {
    match (op, event) {
        (SystemOp::Idle, UpdateEvent::Perform) => SystemOp::Performing,
        (SystemOp::Idle, UpdateEvent::Restart) => SystemOp::Relaunching,
        (SystemOp::Idle, UpdateEvent::Rollback) => SystemOp::RollingBack,
        (SystemOp::Performing, UpdateEvent::PerformDone) => SystemOp::Idle,
        (SystemOp::RollingBack, UpdateEvent::RollbackDone { reverted }) => if reverted {
            SystemOp::Relaunching
        } else {
            SystemOp::Idle
        },
        _ => op,
    }
}

/// The state after events.
pub open spec fn after(op: SystemOp, events: Seq<UpdateEvent>) -> SystemOp
    decreases events.len(),
{
    if events.len() == 0 {
        op
    } else {
        next(after(op, events.drop_last()), events.last())
    }
}

/// Whether this build takes update requests at all.
pub open spec fn takes_updates(runtime: UpdateRuntime) -> bool {
    runtime.build == Build::Server { windows: false }
}

/// Why a request is refused, where it is: by the build first, by the platform
/// next, and last because an operation is in flight.
pub open spec fn refused_with(op: SystemOp, runtime: UpdateRuntime, e: AppCommandError) -> bool {
    match runtime.build {
        Build::Desktop => is_not_supported(e),
        Build::Server { windows } => if windows {
            is_windows_refusal(e)
        } else {
            op != SystemOp::Idle && is_busy(e)
        },
    }
}

/// The update operations of one process.
#[derive(Debug, PartialEq)]
pub struct UpdateService {
    pub op: SystemOp,
}

impl UpdateService {
    /// Nothing is in flight.
    pub fn new() -> (r: Self)
        ensures
            r.op == SystemOp::Idle,
    {
        UpdateService { op: SystemOp::Idle }
    }

    fn check_request(&self, runtime: &UpdateRuntime) -> (r: Result<(), AppCommandError>)
        ensures
            match r {
                Ok(_) => takes_updates(*runtime) && self.op == SystemOp::Idle,
                Err(e) => refused_with(self.op, *runtime, e),
            },
    {
        match runtime.build {
            Build::Desktop => Err(not_supported()),
            Build::Server { windows } => match ensure_supported(windows) {
                Err(e) => Err(e),
                Ok(_) => match self.op {
                    SystemOp::Idle => Ok(()),
                    _ => Err(busy()),
                },
            },
        }
    }

    /// Asks for an update. From then on until `finish_perform`, every other
    /// request is refused.
    pub fn begin_perform(&mut self, runtime: &UpdateRuntime) -> (r: Result<(), AppCommandError>)
        ensures
            match r {
                Ok(_) => takes_updates(*runtime) && old(self).op == SystemOp::Idle && final(self).op
                    == next(old(self).op, UpdateEvent::Perform),
                Err(e) => refused_with(old(self).op, *runtime, e) && *final(self) == *old(self),
            },
    {
        match self.check_request(runtime) {
            Ok(_) => {
                self.op = SystemOp::Performing;
                Ok(())
            },
            Err(e) => Err(e),
        }
    }

    /// The update ended: with the version it installed, or with an error.
    /// Either way other requests are taken again.
    pub fn finish_perform(
        &mut self,
        runtime: &UpdateRuntime,
        outcome: Result<String, AppCommandError>,
    ) -> (r: Result<UpdateActionResult, AppCommandError>)
        requires
            old(self).op == SystemOp::Performing,
        ensures
            final(self).op == next(old(self).op, UpdateEvent::PerformDone),
            match outcome {
                Ok(version) => r == Ok::<UpdateActionResult, AppCommandError>(
                    installed(*runtime, version),
                ),
                Err(e) => r == Err::<UpdateActionResult, AppCommandError>(e),
            },
    {
        self.op = SystemOp::Idle;
        match outcome {
            Ok(version) => Ok(
                UpdateActionResult {
                    version: Some(version),
                    need_restart: true,
                    restart_delay_ms: runtime.restart_delay_ms,
                    trial_seconds: trial_seconds_value(runtime),
                    capability: runtime.capability,
                },
            ),
            Err(e) => Err(e),
        }
    }

    /// Asks for a rollback. From then on every other request is refused, until
    /// the process is gone or the rollback failed.
    pub fn begin_rollback(&mut self, runtime: &UpdateRuntime) -> (r: Result<(), AppCommandError>)
        ensures
            match r {
                Ok(_) => takes_updates(*runtime) && old(self).op == SystemOp::Idle && final(self).op
                    == next(old(self).op, UpdateEvent::Rollback),
                Err(e) => refused_with(old(self).op, *runtime, e) && *final(self) == *old(self),
            },
    {
        match self.check_request(runtime) {
            Ok(_) => {
                self.op = SystemOp::RollingBack;
                Ok(())
            },
            Err(e) => Err(e),
        }
    }

    /// The rollback ended. Where the old version is back the relaunch is to be
    /// scheduled, without a gap in which another request could be taken.
    pub fn finish_rollback(
        &mut self,
        runtime: &UpdateRuntime,
        outcome: Result<(), AppCommandError>,
    ) -> (r: Result<UpdateActionResult, AppCommandError>)
        requires
            old(self).op == SystemOp::RollingBack,
        ensures
            final(self).op == next(
                old(self).op,
                UpdateEvent::RollbackDone { reverted: outcome is Ok },
            ),
            match outcome {
                Ok(_) => r == Ok::<UpdateActionResult, AppCommandError>(reverted(*runtime)),
                Err(e) => r == Err::<UpdateActionResult, AppCommandError>(e),
            },
    {
        match outcome {
            Ok(_) => {
                self.op = SystemOp::Relaunching;
                Ok(
                    UpdateActionResult {
                        version: None,
                        need_restart: false,
                        restart_delay_ms: runtime.restart_delay_ms,
                        trial_seconds: 0,
                        capability: runtime.capability,
                    },
                )
            },
            Err(e) => {
                self.op = SystemOp::Idle;
                Err(e)
            },
        }
    }
}

/// Asks for a restart. Where it is granted the relaunch is to be scheduled,
/// and nothing else is taken until the process is gone.
pub fn restart_impl(service: &mut UpdateService, runtime: &UpdateRuntime) -> (r: Result<
    UpdateActionResult,
    AppCommandError,
>)
    ensures
        match r {
            Ok(result) => takes_updates(*runtime) && old(service).op == SystemOp::Idle && final(service).op == next(old(service).op, UpdateEvent::Restart) && result == restarting(*runtime),
            Err(e) => refused_with(old(service).op, *runtime, e) && *final(service) == *old(service),
        },
{
    match service.check_request(runtime) {
        Ok(_) => {
            service.op = SystemOp::Relaunching;
            Ok(
                UpdateActionResult {
                    version: None,
                    need_restart: false,
                    restart_delay_ms: runtime.restart_delay_ms,
                    trial_seconds: trial_seconds_value(runtime),
                    capability: runtime.capability,
                },
            )
        },
        Err(e) => Err(e),
    }
}

// ─── what holds of every run ─────────────────────────────────────────────

/// Once a relaunch is decided nothing that happens takes it back.
pub proof fn lemma_relaunch_is_final(events: Seq<UpdateEvent>)
    ensures
        after(SystemOp::Relaunching, events) == SystemOp::Relaunching,
    decreases events.len(),
{
    if events.len() > 0 {
        lemma_relaunch_is_final(events.drop_last());
    }
}

/// While an operation holds the system no request changes anything: only the
/// end of that very operation does.
pub proof fn lemma_one_operation_at_a_time(op: SystemOp, event: UpdateEvent)
    requires
        op != SystemOp::Idle,
        next(op, event) != op,
    ensures
        op == SystemOp::Performing && event == UpdateEvent::PerformDone || op
            == SystemOp::RollingBack && event is RollbackDone,
{
}

/// Between a rollback that was granted and the relaunch no other operation gets
/// in: whatever is asked meanwhile, the system goes from reverting straight to
/// relaunching.
pub proof fn lemma_rollback_leaves_no_gap(requests: Seq<UpdateEvent>)
    requires
        forall|i: int|
            0 <= i < requests.len() ==> #[trigger] requests[i] is Perform || requests[i] is Restart
                || requests[i] is Rollback,
    ensures
        after(SystemOp::RollingBack, requests) == SystemOp::RollingBack,
        next(
            after(SystemOp::RollingBack, requests),
            UpdateEvent::RollbackDone { reverted: true },
        ) == SystemOp::Relaunching,
    decreases requests.len(),
{
    if requests.len() > 0 {
        let front = requests.drop_last();
        assert forall|i: int| 0 <= i < front.len() implies #[trigger] front[i] is Perform
            || front[i] is Restart || front[i] is Rollback by {
            assert(front[i] == requests[i]);
        }
        lemma_rollback_leaves_no_gap(front);
        assert(requests[requests.len() - 1] == requests.last());
    }
}

/// On an idle system each request starts its own operation, which the end of that
/// operation gives free again, but for a rollback that worked, which ends in the
/// relaunch.
pub proof fn lemma_operations_begin_and_end(reverted: bool)
    ensures
        next(SystemOp::Idle, UpdateEvent::Perform) == SystemOp::Performing,
        next(SystemOp::Idle, UpdateEvent::Rollback) == SystemOp::RollingBack,
        next(SystemOp::Idle, UpdateEvent::Restart) == SystemOp::Relaunching,
        next(SystemOp::Performing, UpdateEvent::PerformDone) == SystemOp::Idle,
        next(SystemOp::RollingBack, UpdateEvent::RollbackDone { reverted }) == if reverted {
            SystemOp::Relaunching
        } else {
            SystemOp::Idle
        },
        next(SystemOp::Idle, UpdateEvent::PerformDone) == SystemOp::Idle,
        next(SystemOp::Idle, UpdateEvent::RollbackDone { reverted }) == SystemOp::Idle,
{
}

/// A request is refused for one reason: on a desktop because updates belong to the
/// server, on Windows because they are off there, and elsewhere only while an
/// operation is in flight. An idle server that is not on Windows refuses nothing.
pub proof fn lemma_refusals_have_reasons(op: SystemOp, runtime: UpdateRuntime, e: AppCommandError)
    requires
        refused_with(op, runtime, e),
    ensures
        !(takes_updates(runtime) && op == SystemOp::Idle),
        runtime.build == Build::Desktop ==> e.kind == ErrorKind::InvalidInput && e.message@
            == "In-place update is only available in server mode"@,
        runtime.build == (Build::Server { windows: true }) ==> e.kind == ErrorKind::InvalidInput
            && e.message@ == "In-place server self-update is not supported on Windows yet"@,
        runtime.build == (Build::Server { windows: false }) ==> op != SystemOp::Idle && e.kind
            == ErrorKind::AlreadyExists && e.message@
            == "An update operation is already in progress"@,
{
}

/// A new version is on trial for as long as its supervisor watches it, and not at
/// all where there is none.
pub proof fn lemma_trial(runtime: UpdateRuntime)
    ensures
        runtime.capability == UpdateCapability::Supervised ==> trial_seconds(runtime)
            == runtime.upgrade_trial_secs,
        runtime.capability == UpdateCapability::ReExec ==> trial_seconds(runtime) == 0,
        takes_updates(runtime) <==> runtime.build == (Build::Server { windows: false }),
{
}

/// A report of progress has the phase, how much was downloaded, and of how much
/// where that is known.
pub proof fn lemma_progress_report(phase: JsonTree, downloaded: u64, total: u64)
    ensures
        progress_tree(phase, downloaded, Some(total)).get("phase"@) == Some(phase),
        progress_tree(phase, downloaded, Some(total)).get("downloaded"@) == Some(
            JsonTree::Unsigned(downloaded),
        ),
        progress_tree(phase, downloaded, Some(total)).get("total"@) == Some(
            JsonTree::Unsigned(total),
        ),
        progress_tree(phase, downloaded, None).get("phase"@) == Some(phase),
        progress_tree(phase, downloaded, None).get("downloaded"@) == Some(
            JsonTree::Unsigned(downloaded),
        ),
        progress_tree(phase, downloaded, None).get("total"@) == Some(JsonTree::Null),
{
    reveal_strlit("phase");
    reveal_strlit("downloaded");
    reveal_strlit("total");
    assert("downloaded"@.len() == 10);
    assert("phase"@[0] != "total"@[0]);
    reveal_with_fuel(last_wins, 4);
}

/// An update names the version that it installed and asks for a restart, which the
/// other two do not; a new version is on trial where it is supervised, the old one
/// that a rollback brings back is not.
pub proof fn lemma_results(runtime: UpdateRuntime, version: String)
    ensures
        installed(runtime, version).version == Some(version),
        installed(runtime, version).need_restart,
        !restarting(runtime).need_restart && restarting(runtime).version is None,
        !reverted(runtime).need_restart && reverted(runtime).version is None,
        reverted(runtime).trial_seconds == 0,
        runtime.capability == UpdateCapability::Supervised ==> installed(
            runtime,
            version,
        ).trial_seconds == runtime.upgrade_trial_secs && restarting(runtime).trial_seconds
            == runtime.upgrade_trial_secs,
        runtime.capability == UpdateCapability::ReExec ==> installed(runtime, version).trial_seconds
            == 0 && restarting(runtime).trial_seconds == 0,
        installed(runtime, version).restart_delay_ms == runtime.restart_delay_ms,
        restarting(runtime).restart_delay_ms == runtime.restart_delay_ms,
        reverted(runtime).restart_delay_ms == runtime.restart_delay_ms,
        installed(runtime, version).capability == runtime.capability,
        restarting(runtime).capability == runtime.capability,
        reverted(runtime).capability == runtime.capability,
{
}

} // verus!
