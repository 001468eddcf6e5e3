use dsh_desktop::app_update::{
    cancel_app_update, check_app_update, download_progress, finish_download, finish_install,
    reset_app_update, try_begin_app_update, update_app, updater_configured, AppBegun, AppStep, DownloadEnd, Found,
};
use dsh_desktop::config::ConfigStore;
use dsh_desktop::dsh_update::{
    apply_swap, apply_update_flow, auto_update_off, auto_update_once, cancel_dsh_update,
    check_update_flow, dsh_update_active, finish_swap, reset_update, try_begin_update,
    up_to_date_message, Begun, Downloaded, Ran,
};
use dsh_desktop::json::parse_json;
use dsh_desktop::node::InstallerEnd;
use dsh_desktop::paths::Os;
use dsh_desktop::state::{AppState, BootPhase, DshUpdateStatus, UpdateStage};

fn new_state() -> AppState {
    AppState::new(ConfigStore::new(Os::Linux, "", None))
}

fn printed(line: &str) -> Ran {
    Ran::Ended(InstallerEnd::Exited {
        success: true,
        stdout: line.as_bytes().to_vec(),
        stderr: Vec::new(),
    })
}

fn idle(s: &AppState) {
    assert!(!dsh_update_active(s));
    assert!(!s.dsh_cancel);
    assert_eq!(s.dsh_progress().stage, UpdateStage::Idle);
}

#[test]
fn only_one_update_of_dsh_at_a_time() {
    let mut s = new_state();
    assert!(matches!(try_begin_update(&mut s, UpdateStage::Checking), Begun::Running));
    assert!(dsh_update_active(&s));
    match try_begin_update(&mut s, UpdateStage::Downloading) {
        Begun::Busy(st) => assert_eq!(st.message, "更新正在进行中，请稍候。"),
        Begun::Running => panic!("one is under way"),
    }
    assert_eq!(s.dsh_progress().stage, UpdateStage::Checking);
}

#[test]
fn a_check_finds_versions() {
    let mut s = new_state();
    try_begin_update(&mut s, UpdateStage::Checking);
    let line = "{\"ok\":true,\"action\":\"new-version-available\",\"version\":\"1.5.0\"}";
    let (st, notice) = check_update_flow(&mut s, printed(line), Some("1.4.0".to_string()), false);
    assert!(st.ok && st.update_available);
    assert_eq!(st.message, "发现新版本 1.5.0");
    assert_eq!(st.current.as_deref(), Some("1.4.0"));
    assert_eq!(notice.unwrap().title, "New DSH version available");
    idle(&s);
    assert_eq!(s.dsh_update().unwrap().message, "发现新版本 1.5.0");

    let line = "{\"ok\":true,\"action\":\"prerelease-available\",\"prerelease\":\"2.0.0-rc.1\",\"pre_available\":true}";
    let (st, notice) = check_update_flow(&mut s, printed(line), None, true);
    assert_eq!(st.message, "发现预发布版本 2.0.0-rc.1");
    assert_eq!(notice.unwrap().title, "发现 DSH 新版本");

    let line = "{\"ok\":true,\"action\":\"up-to-date\",\"version\":\"1.5.0\"}";
    let (st, notice) = check_update_flow(&mut s, printed(line), None, true);
    assert!(st.ok && !st.update_available);
    assert_eq!(st.message, "已是最新版本（1.5.0）");
    assert!(notice.is_none());

    let (st, _) = check_update_flow(&mut s, printed("{\"ok\":false}"), None, true);
    assert_eq!(st.message, "暂时无法检查更新");
    let failed = Ran::Ended(InstallerEnd::NotStarted("x".to_string()));
    let (st, _) = check_update_flow(&mut s, failed, Some("1".to_string()), true);
    assert_eq!(st.message, "检查更新失败：cannot start installer: x");
    assert_eq!(st.current.as_deref(), Some("1"));
}

#[test]
fn a_check_that_is_called_off_keeps_what_was_known() {
    let mut s = new_state();
    s.set_dsh_update(DshUpdateStatus {
        ok: true,
        update_available: true,
        current: Some("0".to_string()),
        latest: Some("9".to_string()),
        ..Default::default()
    });
    let (st, notice) = check_update_flow(&mut s, Ran::Cancelled, None, true);
    assert!(!st.ok && st.update_available);
    assert_eq!(st.current.as_deref(), Some("0"));
    assert_eq!(st.latest.as_deref(), Some("9"));
    assert_eq!(st.message, "已取消，可稍后重试。");
    assert!(notice.is_none());
}

#[test]
fn a_download_leads_to_a_swap() {
    let mut s = new_state();
    try_begin_update(&mut s, UpdateStage::Downloading);
    let line = "{\"ok\":true,\"action\":\"downloaded\",\"version\":\"2.0.0\",\"staging\":\"/st\"}";
    let report = match apply_update_flow(&mut s, printed(line), Some("1".to_string()), false) {
        Downloaded::Swap(r) => r,
        Downloaded::Over(_, _) => panic!("there is something to put in place"),
    };
    assert_eq!(report.staging.as_deref(), Some("/st"));
    assert_eq!(s.dsh_progress().stage, UpdateStage::Swapping);
    assert_eq!(s.phase(), BootPhase::ServiceStart);
    cancel_dsh_update(&mut s);
    assert!(!s.dsh_cancel, "too late to call it off");

    let out = "{\"ok\":true,\"action\":\"updated\",\"version\":\"2.0.0\",\"current\":\"2.0.0\"}";
    let st = apply_swap(&mut s, &report, Some(Ok(out.to_string())), Some("1".to_string()));
    assert_eq!(st.message, "已更新到 2.0.0");
    assert_eq!(s.dsh_progress().stage, UpdateStage::Restarting);
    let (st, notice) = finish_swap(&mut s, st, true, false);
    assert!(st.ok);
    assert_eq!(st.message, "已更新到 2.0.0，服务已自动重启");
    assert_eq!(notice.title, "DSH update finished");
    idle(&s);

    let st = apply_swap(&mut s, &report, Some(Ok(out.to_string())), None);
    let (st, notice) = finish_swap(&mut s, st, false, true);
    assert!(!st.ok);
    assert_eq!(
        st.message,
        "已更新到 2.0.0，但服务未能自动重启，请稍后在设置页重启服务。"
    );
    assert_eq!(notice.title, "DSH 更新失败");
}

#[test]
fn a_swap_can_fail() {
    let mut s = new_state();
    let line = "{\"ok\":true,\"action\":\"downloaded\",\"version\":\"2.0.0\"}";
    let report = match apply_update_flow(&mut s, printed(line), None, false) {
        Downloaded::Swap(r) => r,
        Downloaded::Over(_, _) => panic!("there is something to put in place"),
    };
    let st = apply_swap(&mut s, &report, None, Some("1".to_string()));
    assert_eq!(st.message, "更新缺少暂存目录，已保留当前版本。");
    assert_eq!(st.current.as_deref(), Some("1"));
    let st = apply_swap(&mut s, &report, Some(Err("e".to_string())), None);
    assert!(st.message.starts_with("更新替换失败：e。若提示文件被占用"));
    assert_eq!(st.latest.as_deref(), Some("2.0.0"));
    let out = "{\"ok\":false,\"error\":{\"message\":\"坏\"}}";
    let st = apply_swap(&mut s, &report, Some(Ok(out.to_string())), Some("1".to_string()));
    assert!(st.message.starts_with("坏。若提示文件被占用"));
    let (_, notice) = finish_swap(&mut s, st, true, true);
    assert_eq!(notice.body, "坏", "the hint is left out of the notification");
    let st = apply_swap(&mut s, &report, Some(Ok("{\"ok\":true}".to_string())), None);
    assert_eq!(st.message, "更新结果未知，请查看日志");
}

#[test]
fn a_download_can_end_the_update() {
    let mut s = new_state();
    let ended = |r: Downloaded| match r {
        Downloaded::Over(st, notice) => (st, notice),
        Downloaded::Swap(_) => panic!("there is nothing to put in place"),
    };
    let (st, notice) = ended(apply_update_flow(&mut s, Ran::Cancelled, None, true));
    assert_eq!(st.message, "已取消，可稍后重试。");
    assert!(notice.is_none());
    let failed = Ran::Ended(InstallerEnd::NotWaited("x".to_string()));
    let (st, notice) = ended(apply_update_flow(&mut s, failed, None, true));
    assert_eq!(st.message, "更新失败：installer wait failed: x");
    assert_eq!(notice.unwrap().title, "DSH 更新失败");
    let (st, _) = ended(apply_update_flow(&mut s, printed("{\"ok\":false}"), None, true));
    assert_eq!(st.message, "更新失败，已保留当前版本。");
    let line = "{\"ok\":true,\"action\":\"up-to-date\"}";
    let (st, notice) = ended(apply_update_flow(&mut s, printed(line), None, true));
    assert!(st.ok);
    assert_eq!(st.message, "已是最新版本");
    assert_eq!(notice.unwrap().title, "DSH 更新完成");
    idle(&s);
    assert_eq!(up_to_date_message(&Some("  ".to_string())), "已是最新版本");
}

#[test]
fn updates_by_themselves() {
    let mut s = new_state();
    auto_update_off(&mut s, Some("1".to_string()));
    let st = s.dsh_update().unwrap();
    assert!(st.ok && !st.update_available);
    assert_eq!(st.current.as_deref(), Some("1"));
    assert!(!auto_update_once(&st));
    assert!(auto_update_once(&DshUpdateStatus { ok: true, update_available: true, ..Default::default() }));
    try_begin_update(&mut s, UpdateStage::Checking);
    cancel_dsh_update(&mut s);
    assert!(s.dsh_cancel);
}

#[test]
fn update_source_of_the_application() {
    let configured = |text: &str| match parse_json(text) {
        Ok(v) => updater_configured(Some(&v)),
        Err(e) => panic!("{}", e),
    };
    assert!(configured("{\"endpoints\":[\"https://u/latest.json\"]}"));
    assert!(configured("{\"endpoints\":[1]}"));
    assert!(!configured("{\"endpoints\":[]}"));
    assert!(!configured("{\"endpoints\":[\"https://u\",\"https://your-update-server/x\"]}"));
    assert!(!configured("{\"endpoints\":[\"https://github.com/<OWNER>/x\"]}"));
    assert!(!configured("{}"));
    assert!(!updater_configured(None));
}

#[test]
fn updates_of_the_application_begin_once() {
    let mut s = new_state();
    match try_begin_app_update(&mut s, false, true, "1.0") {
        AppBegun::Done(st) => {
            assert!(st.ok);
            assert_eq!(st.message, "未配置应用更新源");
        }
        AppBegun::Running => panic!("there is no source"),
    }
    match try_begin_app_update(&mut s, false, false, "1.0") {
        AppBegun::Done(st) => assert!(!st.ok),
        AppBegun::Running => panic!("there is no source"),
    }
    assert!(matches!(try_begin_app_update(&mut s, true, false, "1.0"), AppBegun::Running));
    match try_begin_app_update(&mut s, true, false, "1.0") {
        AppBegun::Done(st) => assert_eq!(st.message, "未配置应用更新源"),
        AppBegun::Running => panic!("one is under way"),
    }
}

#[test]
fn checks_of_the_application() {
    let mut s = new_state();
    let (st, notice) = check_app_update(&mut s, Found::New("2.0".to_string()), "1.0", false);
    assert!(st.ok && st.update_available);
    assert_eq!(st.message, "发现新版本 2.0");
    assert_eq!(st.latest.as_deref(), Some("2.0"));
    assert_eq!(notice.unwrap().title, "New app version available");
    let (st, notice) = check_app_update(&mut s, Found::Latest, "1.0", false);
    assert_eq!(st.message, "已是最新版本");
    assert!(notice.is_none());
    let (st, notice) = check_app_update(&mut s, Found::Failed("x".to_string()), "1.0", true);
    assert_eq!(st.message, "检查更新失败：x");
    assert_eq!(notice.unwrap().title, "应用更新检查失败");
    let (st, _) = check_app_update(&mut s, Found::TimedOut, "1.0", true);
    assert_eq!(st.message, "检查更新超时（已等待 60 秒），请检查网络后重试。");
    assert!(!s.app_update_active);
}

#[test]
fn an_update_of_the_application_runs_through() {
    let mut s = new_state();
    try_begin_app_update(&mut s, true, false, "1.0");
    assert_eq!(s.app_progress().stage, UpdateStage::Checking);
    match update_app(&mut s, Found::New("2.0".to_string()), "1.0", false) {
        AppStep::Download(v) => assert_eq!(v, "2.0"),
        _ => panic!("there is a new version"),
    }
    assert_eq!(s.app_update().unwrap().message, "正在下载更新 2.0");
    download_progress(&mut s, 10, Some(100));
    download_progress(&mut s, 15, None);
    assert_eq!(s.app_progress().received, Some(25));
    assert_eq!(s.app_progress().total, Some(100));
    match finish_download(&mut s, DownloadEnd::Complete, "1.0", "2.0", true) {
        AppStep::Install(n) => assert_eq!(n.title, "正在安装应用更新"),
        _ => panic!("it is to be installed"),
    }
    assert_eq!(s.app_progress().stage, UpdateStage::Installing);
    cancel_app_update(&mut s);
    assert!(!s.app_cancel);
    let (st, notice) = finish_install(&mut s, Ok(()), "1.0", "2.0", false);
    assert!(st.ok && !st.update_available);
    assert_eq!(st.current.as_deref(), Some("2.0"));
    assert_eq!(st.message, "已安装，重启应用后生效");
    assert_eq!(notice.title, "App update completed");
    assert!(!s.app_update_active);
}

#[test]
fn an_update_of_the_application_ends_early() {
    let mut s = new_state();
    let ended = |r: AppStep| match r {
        AppStep::Over(st, notice) => (st, notice),
        _ => panic!("the update is over"),
    };
    let (st, notice) = ended(update_app(&mut s, Found::Latest, "1.0", true));
    assert!(st.ok && notice.is_none());
    let (st, notice) = ended(update_app(&mut s, Found::Failed("x".to_string()), "1.0", true));
    assert_eq!(st.message, "更新失败：x");
    assert_eq!(notice.unwrap().title, "应用更新失败");
    let (st, notice) = ended(finish_download(&mut s, DownloadEnd::TimedOut, "1.0", "2.0", false));
    assert_eq!(st.message, "下载更新超时（已等待 20 分钟），请检查网络后重试。");
    assert_eq!(notice.unwrap().title, "App update failed");
    let (st, notice) = ended(finish_download(&mut s, DownloadEnd::Cancelled, "1.0", "2.0", false));
    assert_eq!(st.message, "已取消，可稍后重试。");
    assert!(notice.is_none());
    let end = DownloadEnd::Failed("y".to_string());
    let (st, _) = ended(finish_download(&mut s, end, "1.0", "2.0", false));
    assert_eq!(st.message, "更新失败：y");
    s.dsh_update_active = true;
    let (st, notice) = ended(finish_download(&mut s, DownloadEnd::Complete, "1.0", "2.0", false));
    assert_eq!(st.message, "DSH 服务正在更新，无法同时安装应用，请稍后重试。");
    assert!(notice.is_none());
    let (st, _) = finish_install(&mut s, Err("z".to_string()), "1.0", "2.0", false);
    assert!(!st.ok && st.update_available);
    assert_eq!(st.message, "更新失败：z");
}

#[test]
fn an_update_that_is_torn_off_leaves_room_for_another() {
    let mut s = new_state();
    assert!(matches!(try_begin_update(&mut s, UpdateStage::Checking), Begun::Running));
    cancel_dsh_update(&mut s);
    reset_update(&mut s);
    idle(&s);
    assert!(s.dsh_update().is_none());
    assert!(matches!(try_begin_update(&mut s, UpdateStage::Checking), Begun::Running));
    assert!(matches!(try_begin_app_update(&mut s, true, true, "1"), AppBegun::Running));
    assert!(matches!(try_begin_app_update(&mut s, true, true, "1"), AppBegun::Done(_)));
    reset_app_update(&mut s);
    assert!(!s.app_update_active && !s.app_cancel);
    assert_eq!(s.app_progress().stage, UpdateStage::Idle);
    assert!(matches!(try_begin_app_update(&mut s, true, true, "1"), AppBegun::Running));
}
