//! What the settings page shows, and the directories that it opens.
use crate::paths;
use crate::paths::{Os, parent};
use crate::state::{AppState, BootPhase};
use crate::text;
use crate::text::{cat, chars};
use vstd::prelude::*;

verus! {

/// What the settings page shows.
#[derive(Debug)]
pub struct SettingsData {
    pub app_version: String,
    pub node_version: Option<String>,
    pub dsh_version: Option<String>,
    pub port: u16,
    pub service_running: bool,
    pub phase: BootPhase,
    pub error: Option<String>,
    pub workspace_dir: String,
    pub log_file: String,
    pub autostart_enabled: bool,
}

/// What the settings page shows. `healthy` is whether the service answers, and `autostart`
/// whether the application starts with the system, or why that is not known.
pub fn get_settings(
    state: &AppState,
    app_version: String,
    node_version: Option<String>,
    dsh_version: Option<String>,
    healthy: bool,
    autostart: Result<bool, String>,
) -> (r: Result<SettingsData, String>)
    ensures
        match autostart {
            Err(e) => r is Err && r->Err_0@ == "读取开机启动设置失败: "@ + e@,
            Ok(on) => r is Ok && r->Ok_0 == (SettingsData {
                app_version,
                node_version,
                dsh_version,
                port: state.port,
                service_running: state.port > 0 && healthy,
                phase: state.phase,
                error: state.error_message,
                workspace_dir: state.workspace_dir,
                log_file: state.log_file,
                autostart_enabled: on,
            }),
        },
{
    match autostart {
        Err(e) => Err(cat("读取开机启动设置失败: ", e.as_str())),
        Ok(on) => Ok(
            SettingsData {
                app_version,
                node_version,
                dsh_version,
                port: state.port(),
                service_running: state.port() > 0 && healthy,
                phase: state.phase(),
                error: state.error(),
                workspace_dir: state.workspace_dir(),
                log_file: state.log_file(),
                autostart_enabled: on,
            },
        ),
    }
}

/// How the service is.
#[derive(Debug)]
pub struct ServiceState {
    pub port: u16,
    pub service_running: bool,
    pub phase: BootPhase,
    pub error: Option<String>,
}

/// How the service is. `healthy` is whether it answers.
pub fn get_service_state(state: &AppState, healthy: bool) -> (r: ServiceState)
    ensures
        r == (ServiceState {
            port: state.port,
            service_running: state.port > 0 && healthy,
            phase: state.phase,
            error: state.error_message,
        }),
{
    ServiceState {
        port: state.port(),
        service_running: state.port() > 0 && healthy,
        phase: state.phase(),
        error: state.error(),
    }
}

/// What is said of the service when its state could not be read.
pub fn unknown_service_state() -> (r: ServiceState)
    ensures
        r.port == 0,
        !r.service_running,
        r.phase == BootPhase::Error,
        text::opt(r.error) == Some("状态读取失败"@),
{
    ServiceState {
        port: 0,
        service_running: false,
        phase: BootPhase::Error,
        error: Some("状态读取失败".to_owned()),
    }
}

/// The directory of the log file.
pub fn open_log_dir(os: Os, state: &AppState) -> (r: Result<String, String>)
    ensures
        match paths::parent_of(os, state.log_file@) {
            Some(dir) => r is Ok && r->Ok_0@ == dir,
            None => r is Err && r->Err_0@ == "无法确定日志位置"@,
        },
{
    match parent(os, state.log_file.as_str()) {
        Some(dir) => Ok(dir),
        None => Err("无法确定日志位置".to_owned()),
    }
}

/// The directory that the user works in, once it is known.
pub fn open_workspace_dir(state: &AppState) -> (r: Result<String, String>)
    ensures
        if state.workspace_dir@.len() == 0 {
            r is Err && r->Err_0@ == "工作区尚未初始化"@
        } else {
            r is Ok && r->Ok_0 == state.workspace_dir
        },
{
    if chars(state.workspace_dir.as_str()).len() == 0 {
        Err("工作区尚未初始化".to_owned())
    } else {
        Ok(state.workspace_dir())
    }
}

/// What is said of an attempt to make the application start with the system, or to keep it from
/// that.
pub fn set_autostart(enabled: bool, outcome: Result<(), String>) -> (r: Result<(), String>)
    ensures
        match outcome {
            Ok(_) => r is Ok,
            Err(e) => r is Err && r->Err_0@ == (if enabled {
                "开启开机启动失败: "@ + e@
            } else {
                "关闭开机启动失败: "@ + e@
            }),
        },
{
    match outcome {
        Ok(_) => Ok(()),
        Err(e) => if enabled {
            Err(cat("开启开机启动失败: ", e.as_str()))
        } else {
            Err(cat("关闭开机启动失败: ", e.as_str()))
        },
    }
}

/// The settings show what the state holds; the service runs where it has a port and answers.
pub proof fn settings_show_the_state(
    state: &AppState,
    app_version: String,
    node_version: Option<String>,
    dsh_version: Option<String>,
    healthy: bool,
    autostart: Result<bool, String>,
    r: Result<SettingsData, String>,
)
    requires
        call_ensures(
            get_settings,
            (state, app_version, node_version, dsh_version, healthy, autostart),
            r,
        ),
    ensures
        r is Ok <==> autostart is Ok,
        r matches Ok(d) ==> {
            &&& d.app_version == app_version
            &&& d.node_version == node_version
            &&& d.dsh_version == dsh_version
            &&& d.port == state.port
            &&& d.service_running <==> state.port > 0 && healthy
            &&& d.phase == state.phase
            &&& d.error == state.error_message
            &&& d.workspace_dir == state.workspace_dir
            &&& d.log_file == state.log_file
            &&& d.autostart_enabled == autostart->Ok_0
        },
        r matches Err(e) ==> e@ == "读取开机启动设置失败: "@ + autostart->Err_0@,
{
}

/// The state of the service is what the application knows of it.
pub proof fn service_state_is_known(state: &AppState, healthy: bool, r: ServiceState)
    requires
        call_ensures(get_service_state, (state, healthy), r),
    ensures
        r.port == state.port,
        r.service_running <==> state.port > 0 && healthy,
        r.phase == state.phase,
        r.error == state.error_message,
{
}

/// The directories that are opened are that of the log file and the workspace.
pub proof fn opened_directories_are_the_known_ones(
    os: Os,
    state: &AppState,
    logs: Result<String, String>,
    workspace: Result<String, String>,
)
    requires
        call_ensures(open_log_dir, (os, state), logs),
        call_ensures(open_workspace_dir, (state,), workspace),
    ensures
        logs is Ok <==> paths::parent_of(os, state.log_file@) is Some,
        logs matches Ok(dir) ==> paths::parent_of(os, state.log_file@) == Some(dir@),
        workspace is Ok <==> state.workspace_dir@.len() > 0,
        workspace matches Ok(dir) ==> dir@ == state.workspace_dir@,
{
}

/// A change of the start with the system that fails is told as what it was to be.
pub proof fn failed_autostart_is_told(
    enabled: bool,
    outcome: Result<(), String>,
    r: Result<(), String>,
)
    requires
        call_ensures(set_autostart, (enabled, outcome), r),
    ensures
        r is Ok <==> outcome is Ok,
        r matches Err(e) ==> e@ == (if enabled {
            "开启开机启动失败: "@
        } else {
            "关闭开机启动失败: "@
        }) + outcome->Err_0@,
{
}

} // verus!
