//! What the application knows while it runs.
use crate::config::ConfigStore;
use crate::supervisor::Supervisor;
use crate::text;
use crate::text::copy_list;
use vstd::prelude::*;

verus! {

/// How far the start of the application has come.
#[derive(Debug, Clone, Copy, PartialEq, Eq, Structural)]
pub enum BootPhase {
    NodeCheck,
    DshInstall,
    ServiceStart,
    Ready,
    Error,
}

/// What the user can do about a service that does not start.
#[derive(Debug)]
pub struct RecoveryInfo {
    pub kind: String,
    pub plugins: Vec<String>,
    pub lock_path: Option<String>,
    pub detail: String,
}

/// Recovery information with its texts as characters.
#[verifier::ext_equal]
pub struct RecoveryView {
    pub kind: Seq<char>,
    pub plugins: Seq<Seq<char>>,
    pub lock_path: Option<Seq<char>>,
    pub detail: Seq<char>,
}

impl View for RecoveryInfo {
    type V = RecoveryView;

    open spec fn view(&self) -> RecoveryView {
        RecoveryView {
            kind: self.kind@,
            plugins: text::strs(self.plugins@),
            lock_path: text::opt(self.lock_path),
            detail: self.detail@,
        }
    }
}

impl Clone for RecoveryInfo {
    fn clone(&self) -> (r: Self)
        ensures
            r@ == self@,
    {
        RecoveryInfo {
            kind: self.kind.clone(),
            plugins: copy_list(self.plugins.as_slice()),
            lock_path: self.lock_path.clone(),
            detail: self.detail.clone(),
        }
    }
}

/// What is known of an update, of DSH or of the application.
#[derive(Debug)]
pub struct DshUpdateStatus {
    pub ok: bool,
    pub update_available: bool,
    pub current: Option<String>,
    pub latest: Option<String>,
    pub prerelease: Option<String>,
    pub pre_available: bool,
    pub message: String,
}

/// An update status with its texts as characters.
#[verifier::ext_equal]
pub struct StatusView {
    pub ok: bool,
    pub update_available: bool,
    pub current: Option<Seq<char>>,
    pub latest: Option<Seq<char>>,
    pub prerelease: Option<Seq<char>>,
    pub pre_available: bool,
    pub message: Seq<char>,
}

/// A status of which nothing is known.
pub open spec fn blank_status() -> StatusView {
    StatusView {
        ok: false,
        update_available: false,
        current: None,
        latest: None,
        prerelease: None,
        pre_available: false,
        message: Seq::empty(),
    }
}

impl View for DshUpdateStatus {
    type V = StatusView;

    open spec fn view(&self) -> StatusView {
        StatusView {
            ok: self.ok,
            update_available: self.update_available,
            current: text::opt(self.current),
            latest: text::opt(self.latest),
            prerelease: text::opt(self.prerelease),
            pre_available: self.pre_available,
            message: self.message@,
        }
    }
}

impl Clone for DshUpdateStatus {
    fn clone(&self) -> (r: Self)
        ensures
            r == *self,
    {
        DshUpdateStatus {
            ok: self.ok,
            update_available: self.update_available,
            current: self.current.clone(),
            latest: self.latest.clone(),
            prerelease: self.prerelease.clone(),
            pre_available: self.pre_available,
            message: self.message.clone(),
        }
    }
}

impl Default for DshUpdateStatus {
    fn default() -> (r: Self)
        ensures
            r@ == blank_status(),
    {
        let r = DshUpdateStatus {
            ok: false,
            update_available: false,
            current: None,
            latest: None,
            prerelease: None,
            pre_available: false,
            message: String::new(),
        };
        assert(r@ =~= blank_status());
        r
    }
}

/// The status in an optional one.
pub open spec fn opt_status(o: Option<DshUpdateStatus>) -> Option<StatusView> {
    match o {
        Some(s) => Some(s@),
        None => None,
    }
}

/// The recovery information in an optional one.
pub open spec fn opt_recovery(o: Option<RecoveryInfo>) -> Option<RecoveryView> {
    match o {
        Some(s) => Some(s@),
        None => None,
    }
}

/// What an update is doing.
#[derive(Debug, Clone, Copy, PartialEq, Eq, Structural)]
pub enum UpdateStage {
    Idle,
    Checking,
    Downloading,
    Swapping,
    Installing,
    Restarting,
}

/// How far an update has come.
#[derive(Debug, Clone, Copy, PartialEq, Eq)]
pub struct UpdateProgress {
    pub stage: UpdateStage,
    pub can_cancel: bool,
    pub received: Option<u64>,
    pub total: Option<u64>,
}

impl UpdateProgress {
    /// An update that has just come to a stage.
    pub open spec fn at(stage: UpdateStage, can_cancel: bool) -> UpdateProgress {
        UpdateProgress { stage, can_cancel, received: None, total: None }
    }

    /// An update that has just come to a stage.
    pub fn entering(stage: UpdateStage, can_cancel: bool) -> (r: Self)
        ensures
            r == UpdateProgress::at(stage, can_cancel),
    {
        UpdateProgress { stage, can_cancel, received: None, total: None }
    }
}

impl Default for UpdateProgress {
    fn default() -> (r: Self)
        ensures
            r == UpdateProgress::at(UpdateStage::Idle, false),
    {
        UpdateProgress { stage: UpdateStage::Idle, can_cancel: false, received: None, total: None }
    }
}

/// How far both kinds of update have come.
#[derive(Debug)]
pub struct UpdateProgressSnapshot {
    pub dsh: UpdateProgress,
    pub app: UpdateProgress,
}

/// What the application knows while it runs. Paths are empty until they are known.
pub struct AppState {
    pub node_path: String,
    pub app_data_dir: String,
    pub runtime_dir: String,
    pub workspace_dir: String,
    pub log_file: String,
    pub port: u16,
    pub phase: BootPhase,
    pub error_message: Option<String>,
    pub supervisor: Supervisor,
    pub config: ConfigStore,
    pub dsh_extra_args: Vec<String>,
    pub dsh_update: Option<DshUpdateStatus>,
    pub app_update: Option<DshUpdateStatus>,
    pub boot_page_url: Option<String>,
    pub service_watch_active: bool,
    pub last_recovery: Option<RecoveryInfo>,
    pub pending_auth_url: Option<String>,
    pub dsh_cancel: bool,
    pub app_cancel: bool,
    pub dsh_progress: UpdateProgress,
    pub app_progress: UpdateProgress,
    pub dsh_update_active: bool,
    pub app_update_active: bool,
}

impl AppState {
    /// The state at the very start, with settings.
    pub fn new(config: ConfigStore) -> (r: Self)
        ensures
            r.phase == BootPhase::NodeCheck,
            r.port == 0,
            r.node_path@.len() == 0,
            r.app_data_dir@.len() == 0,
            r.runtime_dir@.len() == 0,
            r.workspace_dir@.len() == 0,
            r.log_file@.len() == 0,
            r.error_message is None,
            r.supervisor.is_new(),
            r.config == config,
            r.dsh_extra_args@.len() == 0,
            r.dsh_update is None,
            r.app_update is None,
            r.boot_page_url is None,
            !r.service_watch_active,
            r.last_recovery is None,
            r.pending_auth_url is None,
            !r.dsh_cancel,
            !r.app_cancel,
            r.dsh_progress == UpdateProgress::at(UpdateStage::Idle, false),
            r.app_progress == UpdateProgress::at(UpdateStage::Idle, false),
            !r.dsh_update_active,
            !r.app_update_active,
    {
        AppState {
            node_path: String::new(),
            app_data_dir: String::new(),
            runtime_dir: String::new(),
            workspace_dir: String::new(),
            log_file: String::new(),
            port: 0,
            phase: BootPhase::NodeCheck,
            error_message: None,
            supervisor: Supervisor::new(),
            config,
            dsh_extra_args: Vec::new(),
            dsh_update: None,
            app_update: None,
            boot_page_url: None,
            service_watch_active: false,
            last_recovery: None,
            pending_auth_url: None,
            dsh_cancel: false,
            app_cancel: false,
            dsh_progress: UpdateProgress::default(),
            app_progress: UpdateProgress::default(),
            dsh_update_active: false,
            app_update_active: false,
        }
    }

    pub fn set_phase(&mut self, phase: BootPhase)
        ensures
            *final(self) == (AppState { phase, ..*old(self) }),
    {
        self.phase = phase;
    }

    pub fn phase(&self) -> (r: BootPhase)
        ensures
            r == self.phase,
    {
        self.phase
    }

    /// Whether another state is this one with that error in it.
    pub open spec fn failed_as(self, message: Seq<char>, after: AppState) -> bool {
        &&& text::opt(after.error_message) == Some(message)
        &&& after == (AppState {
            phase: BootPhase::Error,
            error_message: after.error_message,
            ..self
        })
    }

    /// Records an error. The application is then in the error phase.
    pub fn set_error(&mut self, message: &str)
        ensures
            old(self).failed_as(message@, *final(self)),
    {
        self.error_message = Some(message.to_owned());
        self.set_phase(BootPhase::Error);
    }

    pub fn error(&self) -> (r: Option<String>)
        ensures
            r == self.error_message,
    {
        self.error_message.clone()
    }

    pub fn clear_error(&mut self)
        ensures
            *final(self) == (AppState { error_message: None, ..*old(self) }),
    {
        self.error_message = None;
    }

    pub fn set_port(&mut self, port: u16)
        ensures
            *final(self) == (AppState { port, ..*old(self) }),
    {
        self.port = port;
    }

    pub fn port(&self) -> (r: u16)
        ensures
            r == self.port,
    {
        self.port
    }

    pub fn set_node_path(&mut self, p: String)
        ensures
            *final(self) == (AppState { node_path: p, ..*old(self) }),
    {
        self.node_path = p;
    }

    pub fn node_path(&self) -> (r: String)
        ensures
            r == self.node_path,
    {
        self.node_path.clone()
    }

    pub fn set_app_data_dir(&mut self, p: String)
        ensures
            *final(self) == (AppState { app_data_dir: p, ..*old(self) }),
    {
        self.app_data_dir = p;
    }

    pub fn app_data_dir(&self) -> (r: String)
        ensures
            r == self.app_data_dir,
    {
        self.app_data_dir.clone()
    }

    pub fn set_runtime_dir(&mut self, p: String)
        ensures
            *final(self) == (AppState { runtime_dir: p, ..*old(self) }),
    {
        self.runtime_dir = p;
    }

    pub fn runtime_dir(&self) -> (r: String)
        ensures
            r == self.runtime_dir,
    {
        self.runtime_dir.clone()
    }

    pub fn set_workspace_dir(&mut self, p: String)
        ensures
            *final(self) == (AppState { workspace_dir: p, ..*old(self) }),
    {
        self.workspace_dir = p;
    }

    pub fn workspace_dir(&self) -> (r: String)
        ensures
            r == self.workspace_dir,
    {
        self.workspace_dir.clone()
    }

    pub fn set_log_file(&mut self, p: String)
        ensures
            *final(self) == (AppState { log_file: p, ..*old(self) }),
    {
        self.log_file = p;
    }

    pub fn log_file(&self) -> (r: String)
        ensures
            r == self.log_file,
    {
        self.log_file.clone()
    }

    pub fn set_dsh_update(&mut self, status: DshUpdateStatus)
        ensures
            *final(self) == (AppState { dsh_update: Some(status), ..*old(self) }),
    {
        self.dsh_update = Some(status);
    }

    pub fn dsh_update(&self) -> (r: Option<DshUpdateStatus>)
        ensures
            r == self.dsh_update,
    {
        match &self.dsh_update {
            Some(s) => Some(s.clone()),
            None => None,
        }
    }

    pub fn set_app_update(&mut self, status: DshUpdateStatus)
        ensures
            *final(self) == (AppState { app_update: Some(status), ..*old(self) }),
    {
        self.app_update = Some(status);
    }

    pub fn app_update(&self) -> (r: Option<DshUpdateStatus>)
        ensures
            r == self.app_update,
    {
        match &self.app_update {
            Some(s) => Some(s.clone()),
            None => None,
        }
    }

    pub fn set_boot_page_url(&mut self, url: String)
        ensures
            *final(self) == (AppState { boot_page_url: Some(url), ..*old(self) }),
    {
        self.boot_page_url = Some(url);
    }

    pub fn boot_page_url(&self) -> (r: Option<String>)
        ensures
            r == self.boot_page_url,
    {
        self.boot_page_url.clone()
    }

    pub fn set_last_recovery(&mut self, info: RecoveryInfo)
        ensures
            *final(self) == (AppState { last_recovery: Some(info), ..*old(self) }),
    {
        self.last_recovery = Some(info);
    }

    pub fn last_recovery(&self) -> (r: Option<RecoveryInfo>)
        ensures
            opt_recovery(r) == opt_recovery(self.last_recovery),
    {
        match &self.last_recovery {
            Some(s) => Some(s.clone()),
            None => None,
        }
    }

    pub fn clear_recovery(&mut self)
        ensures
            *final(self) == (AppState { last_recovery: None, ..*old(self) }),
    {
        self.last_recovery = None;
    }

    pub fn set_pending_auth_url(&mut self, url: Option<String>)
        ensures
            *final(self) == (AppState { pending_auth_url: url, ..*old(self) }),
    {
        self.pending_auth_url = url;
    }

    pub fn pending_auth_url(&self) -> (r: Option<String>)
        ensures
            r == self.pending_auth_url,
    {
        self.pending_auth_url.clone()
    }

    pub fn set_dsh_progress(&mut self, progress: UpdateProgress)
        ensures
            *final(self) == (AppState { dsh_progress: progress, ..*old(self) }),
    {
        self.dsh_progress = progress;
    }

    pub fn dsh_progress(&self) -> (r: UpdateProgress)
        ensures
            r == self.dsh_progress,
    {
        self.dsh_progress
    }

    pub fn set_app_progress(&mut self, progress: UpdateProgress)
        ensures
            *final(self) == (AppState { app_progress: progress, ..*old(self) }),
    {
        self.app_progress = progress;
    }

    pub fn app_progress(&self) -> (r: UpdateProgress)
        ensures
            r == self.app_progress,
    {
        self.app_progress
    }

    pub fn progress_snapshot(&self) -> (r: UpdateProgressSnapshot)
        ensures
            r.dsh == self.dsh_progress,
            r.app == self.app_progress,
    {
        UpdateProgressSnapshot { dsh: self.dsh_progress, app: self.app_progress }
    }
}

/// What the start page shows.
#[derive(Debug)]
pub struct StatusSnapshot {
    pub phase: BootPhase,
    pub message: String,
    pub error: Option<String>,
    pub port: u16,
    pub service_url: Option<String>,
    pub recovery: Option<RecoveryInfo>,
    pub dsh_version: Option<String>,
    pub node_version: Option<String>,
}

/// The state tells what it holds.
pub proof fn state_tells_what_it_holds(
    state: &AppState,
    phase: BootPhase,
    error: Option<String>,
    port: u16,
    node_path: String,
    app_data_dir: String,
    runtime_dir: String,
    workspace_dir: String,
    log_file: String,
    dsh_update: Option<DshUpdateStatus>,
    app_update: Option<DshUpdateStatus>,
    boot_page_url: Option<String>,
    pending_auth_url: Option<String>,
    dsh_progress: UpdateProgress,
    app_progress: UpdateProgress,
    recovery: Option<RecoveryInfo>,
    both: UpdateProgressSnapshot,
)
    requires
        call_ensures(AppState::phase, (state,), phase),
        call_ensures(AppState::error, (state,), error),
        call_ensures(AppState::port, (state,), port),
        call_ensures(AppState::node_path, (state,), node_path),
        call_ensures(AppState::app_data_dir, (state,), app_data_dir),
        call_ensures(AppState::runtime_dir, (state,), runtime_dir),
        call_ensures(AppState::workspace_dir, (state,), workspace_dir),
        call_ensures(AppState::log_file, (state,), log_file),
        call_ensures(AppState::dsh_update, (state,), dsh_update),
        call_ensures(AppState::app_update, (state,), app_update),
        call_ensures(AppState::boot_page_url, (state,), boot_page_url),
        call_ensures(AppState::pending_auth_url, (state,), pending_auth_url),
        call_ensures(AppState::dsh_progress, (state,), dsh_progress),
        call_ensures(AppState::app_progress, (state,), app_progress),
        call_ensures(AppState::last_recovery, (state,), recovery),
        call_ensures(AppState::progress_snapshot, (state,), both),
    ensures
        phase == state.phase,
        error == state.error_message,
        port == state.port,
        node_path == state.node_path,
        app_data_dir == state.app_data_dir,
        runtime_dir == state.runtime_dir,
        workspace_dir == state.workspace_dir,
        log_file == state.log_file,
        dsh_update == state.dsh_update,
        app_update == state.app_update,
        boot_page_url == state.boot_page_url,
        pending_auth_url == state.pending_auth_url,
        dsh_progress == state.dsh_progress,
        app_progress == state.app_progress,
        recovery is Some <==> state.last_recovery is Some,
        recovery is Some ==> recovery->0@ == state.last_recovery->0@,
        both.dsh == state.dsh_progress,
        both.app == state.app_progress,
{
}

/// What the state is told of its directories and files it holds, and nothing else changes.
pub proof fn state_holds_what_it_is_told(
    at_port: &mut AppState,
    port: u16,
    at_node_path: &mut AppState,
    node_path: String,
    at_app_data_dir: &mut AppState,
    app_data_dir: String,
    at_runtime_dir: &mut AppState,
    runtime_dir: String,
    at_workspace_dir: &mut AppState,
    workspace_dir: String,
    at_log_file: &mut AppState,
    log_file: String,
    at_phase: &mut AppState,
    phase: BootPhase,
    at_pending_auth_url: &mut AppState,
    pending_auth_url: Option<String>,
    at_dsh_progress: &mut AppState,
    dsh_progress: UpdateProgress,
    at_app_progress: &mut AppState,
    app_progress: UpdateProgress,
)
    requires
        call_ensures(AppState::set_port, (at_port, port), ()),
        call_ensures(AppState::set_node_path, (at_node_path, node_path), ()),
        call_ensures(AppState::set_app_data_dir, (at_app_data_dir, app_data_dir), ()),
        call_ensures(AppState::set_runtime_dir, (at_runtime_dir, runtime_dir), ()),
        call_ensures(AppState::set_workspace_dir, (at_workspace_dir, workspace_dir), ()),
        call_ensures(AppState::set_log_file, (at_log_file, log_file), ()),
        call_ensures(AppState::set_phase, (at_phase, phase), ()),
        call_ensures(AppState::set_pending_auth_url, (at_pending_auth_url, pending_auth_url), ()),
        call_ensures(AppState::set_dsh_progress, (at_dsh_progress, dsh_progress), ()),
        call_ensures(AppState::set_app_progress, (at_app_progress, app_progress), ()),
    ensures
        *final(at_port) == (AppState { port, ..*old(at_port) }),
        *final(at_node_path) == (AppState { node_path, ..*old(at_node_path) }),
        *final(at_app_data_dir) == (AppState { app_data_dir, ..*old(at_app_data_dir) }),
        *final(at_runtime_dir) == (AppState { runtime_dir, ..*old(at_runtime_dir) }),
        *final(at_workspace_dir) == (AppState { workspace_dir, ..*old(at_workspace_dir) }),
        *final(at_log_file) == (AppState { log_file, ..*old(at_log_file) }),
        *final(at_phase) == (AppState { phase, ..*old(at_phase) }),
        *final(at_pending_auth_url) == (AppState { pending_auth_url, ..*old(at_pending_auth_url) }),
        *final(at_dsh_progress) == (AppState { dsh_progress, ..*old(at_dsh_progress) }),
        *final(at_app_progress) == (AppState { app_progress, ..*old(at_app_progress) }),
{
}

} // verus!
