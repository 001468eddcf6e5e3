use dsh_desktop::config::{AppConfig, ConfigStore, Saved};
use dsh_desktop::paths::Os;
use dsh_desktop::state::{
    AppState, BootPhase, DshUpdateStatus, RecoveryInfo, UpdateProgress, UpdateStage,
};

fn new_state() -> AppState {
    AppState::new(ConfigStore::new(Os::Linux, "", None))
}

#[test]
fn default_config_is_optimal_for_ordinary_users() {
    let c = AppConfig::default();
    assert!(c.auto_update_dsh, "默认自动更新 DSH");
    assert!(c.auto_update_app, "默认自动更新应用壳");
    assert_eq!(c.port, 3080, "默认端口 3080");
    assert_eq!(c.registry_source, "auto");
}

#[test]
fn missing_config_file_returns_default() {
    let store = ConfigStore::new(Os::Linux, "/data", None);
    assert_eq!(store.get().port, 3080);
    assert!(store.get().auto_update_dsh);
    assert_eq!(store.path(), "/data/config.json");
}

#[test]
fn set_and_get_roundtrip() {
    let mut store = ConfigStore::new(Os::Linux, "/data", None);
    let mut c = store.get();
    c.auto_update_dsh = false;
    c.port = 4000;
    store.set(c.clone(), Saved::Written).unwrap();
    assert_eq!(store.get().port, 4000);

    let reloaded = ConfigStore::new(Os::Linux, "/data", Some(c));
    assert_eq!(reloaded.get().auto_update_dsh, false);
    assert_eq!(reloaded.get().port, 4000);
}

#[test]
fn corrupt_config_file_falls_back_to_default() {
    let text = "{corrupt!!";
    let stored: Option<AppConfig> = match serde_json::from_str::<serde_json::Value>(text) {
        Ok(_) => panic!("this is no JSON"),
        Err(_) => None,
    };
    let store = ConfigStore::new(Os::Linux, "/data", stored);
    assert_eq!(store.get().port, 3080, "损坏配置回退默认");
}

#[test]
fn settings_that_cannot_be_saved_do_not_take_force() {
    let mut store = ConfigStore::new(Os::Windows, r"C:\data", None);
    let mut c = store.get();
    c.port = 1;
    assert_eq!(
        store.set(c.clone(), Saved::NotWritten("disk full".to_string())),
        Err("保存设置失败: disk full".to_string())
    );
    assert_eq!(store.set(c, Saved::NotPrinted("odd".to_string())), Err("odd".to_string()));
    assert_eq!(store.get().port, 3080);
    assert_eq!(store.path(), r"C:\data\config.json");
}

#[test]
fn phase_roundtrip() {
    let mut s = new_state();
    for (idx, p) in [
        BootPhase::NodeCheck,
        BootPhase::DshInstall,
        BootPhase::ServiceStart,
        BootPhase::Ready,
        BootPhase::Error,
    ]
    .iter()
    .enumerate()
    {
        s.set_phase(*p);
        assert_eq!(s.phase(), *p, "phase #{idx}");
    }
}

#[test]
fn error_sets_phase_to_error() {
    let mut s = new_state();
    s.set_error("程序出了问题");
    assert_eq!(s.phase(), BootPhase::Error);
    assert_eq!(s.error().as_deref(), Some("程序出了问题"));
    s.clear_error();
    assert_eq!(s.error(), None);
}

#[test]
fn port_roundtrip() {
    let mut s = new_state();
    s.set_port(0);
    assert_eq!(s.port(), 0);
    s.set_port(3080);
    assert_eq!(s.port(), 3080);
    s.set_port(65535);
    assert_eq!(s.port(), 65535);
}

#[test]
fn path_accessors_roundtrip() {
    let mut s = new_state();
    s.set_node_path("/tmp/node".to_string());
    s.set_runtime_dir("/tmp/runtime".to_string());
    s.set_workspace_dir("/tmp/ws".to_string());
    s.set_log_file("/tmp/app.log".to_string());
    s.set_app_data_dir("/tmp/data".to_string());
    assert_eq!(s.node_path(), "/tmp/node");
    assert_eq!(s.runtime_dir(), "/tmp/runtime");
    assert_eq!(s.workspace_dir(), "/tmp/ws");
    assert_eq!(s.log_file(), "/tmp/app.log");
    assert_eq!(s.app_data_dir(), "/tmp/data");
}

#[test]
fn other_accessors_roundtrip() {
    let mut s = new_state();
    assert!(s.dsh_update().is_none());
    s.set_dsh_update(DshUpdateStatus { ok: true, message: "m".to_string(), ..Default::default() });
    assert_eq!(s.dsh_update().unwrap().message, "m");
    s.set_app_update(DshUpdateStatus { latest: Some("2".to_string()), ..Default::default() });
    assert_eq!(s.app_update().unwrap().latest.as_deref(), Some("2"));
    s.set_boot_page_url("tauri://x".to_string());
    assert_eq!(s.boot_page_url().as_deref(), Some("tauri://x"));
    s.set_last_recovery(RecoveryInfo {
        kind: "plugins".to_string(),
        plugins: vec!["a".to_string()],
        lock_path: None,
        detail: "d".to_string(),
    });
    assert_eq!(s.last_recovery().unwrap().plugins, vec!["a".to_string()]);
    s.clear_recovery();
    assert!(s.last_recovery().is_none());
    s.set_pending_auth_url(Some("u".to_string()));
    assert_eq!(s.pending_auth_url().as_deref(), Some("u"));
    s.set_dsh_progress(UpdateProgress::entering(UpdateStage::Checking, true));
    s.set_app_progress(UpdateProgress::entering(UpdateStage::Downloading, false));
    let snap = s.progress_snapshot();
    assert_eq!(snap.dsh, s.dsh_progress());
    assert_eq!(snap.app.stage, UpdateStage::Downloading);
    assert_eq!(UpdateProgress::default().stage, UpdateStage::Idle);
}
