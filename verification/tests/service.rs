use dsh_desktop::boot::{baseline_dir, boot, boot_step, installer_js, Boot, BootEvent};
use dsh_desktop::config::{AppConfig, ConfigStore};
use dsh_desktop::disk::{Disk, FileState};
use dsh_desktop::paths::Os;
use dsh_desktop::service::{
    bare_service_url, boot_issue, crash_message, emit_error_options, fail_to_boot_page, heal_step,
    is_safe_lock_path, lock_removed_text, look_asks_process, menu_restart, mutation_begin,
    mutation_failure_text, mutation_inner, mutation_step, navigate_main_to_boot, on_service_page,
    preferred_port, probe_decision, recovering_text, refresh_main_after_restart, repair_complete, repair_prepared,
    repair_service,
    restart_action_allowed, restart_dsh_service, restart_service, run_exclusive_mutation,
    runtime_known, service_ready, service_url, spawn_service_watch, start_service_with_heal,
    wait_service_outcome, wait_service_url, watch_step, BootIssue, Heal, HealEvent, Mutation, MutationEvent, ProbeDecision,
    WaitOutcome, Watch, WatchEvent, PROBE_WINDOW,
};
use dsh_desktop::serviceout::{FailureKind, ServiceCapture};
use dsh_desktop::shell::{
    get_status, handle_menu_event, handle_page_load, handle_window_event, is_zh_locale, menu_words,
    parse_dsh_extra_args, phase_text, tray_action, update_tray_tooltip, MenuAction,
};
use dsh_desktop::state::{AppState, BootPhase};
use dsh_desktop::supervisor::Supervisor;

fn new_state() -> AppState {
    AppState::new(ConfigStore::new(Os::Linux, "", None))
}

fn issue(kind: FailureKind) -> BootIssue {
    BootIssue {
        kind,
        plugins: vec![],
        lock_path: None,
        detail: "detail".to_string(),
        spawn_error: false,
    }
}

fn spawn_issue(detail: &str) -> BootIssue {
    BootIssue {
        kind: FailureKind::Unknown,
        plugins: vec![],
        lock_path: None,
        detail: detail.to_string(),
        spawn_error: true,
    }
}

fn lock_issue(path: &str) -> BootIssue {
    issue(FailureKind::StaleLock { lock_path: Some(path.to_string()) })
}

#[test]
fn probe_decision_child_alive_returns_to_watch() {
    assert_eq!(probe_decision(true, true, 1_000, PROBE_WINDOW), ProbeDecision::BackToWatch);
    assert_eq!(probe_decision(true, false, 30_000, PROBE_WINDOW), ProbeDecision::BackToWatch);
}

#[test]
fn probe_decision_child_dead_healthy_port_is_takeover() {
    assert_eq!(probe_decision(false, true, 1_000, PROBE_WINDOW), ProbeDecision::Takeover);
    assert_eq!(probe_decision(false, true, 30_000, PROBE_WINDOW), ProbeDecision::Takeover);
}

#[test]
fn probe_decision_keeps_probing_inside_window() {
    assert_eq!(probe_decision(false, false, 5_000, PROBE_WINDOW), ProbeDecision::KeepProbing);
}

#[test]
fn probe_decision_times_out_at_and_after_window() {
    assert_eq!(probe_decision(false, false, PROBE_WINDOW, PROBE_WINDOW), ProbeDecision::TimedOut);
    assert_eq!(probe_decision(false, false, 25_000, PROBE_WINDOW), ProbeDecision::TimedOut);
    assert_eq!(PROBE_WINDOW, 20_000);
}

#[test]
fn crash_message_has_text_for_every_kind() {
    let kinds = [
        FailureKind::PluginTree,
        FailureKind::StaleLock { lock_path: Some("~/.dsh/x.lock".into()) },
        FailureKind::Unknown,
    ];
    for kind in kinds {
        let msg = crash_message(&kind);
        assert!(!msg.is_empty());
        assert_eq!(msg, crash_message(&kind));
    }
    assert_eq!(crash_message(&FailureKind::Unknown), "服务意外停止，请点击重试。");
}

#[test]
fn mutation_failure_text_has_text_for_every_kind() {
    let kinds = [
        FailureKind::PluginTree,
        FailureKind::StaleLock { lock_path: Some("~/.dsh/x.lock".into()) },
        FailureKind::Unknown,
    ];
    for kind in kinds {
        assert!(!mutation_failure_text(&kind, true).is_empty());
        assert!(!mutation_failure_text(&kind, false).is_empty());
    }
    assert_eq!(
        mutation_failure_text(&FailureKind::Unknown, false),
        "Service did not start. Please retry."
    );
}

#[test]
fn restart_is_allowed_when_nothing_runs() {
    assert!(restart_action_allowed(0, BootPhase::Ready));
    assert!(restart_action_allowed(0, BootPhase::Error));
    assert!(!restart_action_allowed(1, BootPhase::Ready));
    assert!(!restart_action_allowed(0, BootPhase::ServiceStart));
}

#[test]
fn bare_url_loses_its_query() {
    assert_eq!(
        bare_service_url("http://127.0.0.1:3080/a?token=x#f"),
        "http://127.0.0.1:3080/a#f"
    );
    assert_eq!(bare_service_url("http://127.0.0.1:3080"), "http://127.0.0.1:3080/");
    assert_eq!(bare_service_url("no address"), "no address");
}

#[test]
fn service_address_and_port() {
    assert_eq!(service_url(Some("u".to_string()), 3080), "u");
    assert_eq!(service_url(None, 3080), "http://127.0.0.1:3080");
    let mut c = AppConfig::default();
    c.port = 0;
    assert_eq!(preferred_port(&ConfigStore::new(Os::Linux, "", Some(c.clone()))), 3080);
    c.port = 4000;
    assert_eq!(preferred_port(&ConfigStore::new(Os::Linux, "", Some(c))), 4000);
    assert!(on_service_page(Some("127.0.0.1")));
    assert!(!on_service_page(Some("localhost")));
    assert!(!on_service_page(None));
}

#[test]
fn refresh_tells_the_address_and_moves_the_window() {
    let mut s = new_state();
    s.set_port(3080);
    let r = refresh_main_after_restart(&mut s, Some("http://127.0.0.1:3080/?token=a".to_string()), true);
    assert_eq!(r.url, "http://127.0.0.1:3080/?token=a");
    assert_eq!(r.target.as_deref(), Some("http://127.0.0.1:3080/"));
    assert_eq!(s.pending_auth_url().as_deref(), Some("http://127.0.0.1:3080/?token=a"));
    let r = refresh_main_after_restart(&mut s, None, false);
    assert_eq!(r.url, "http://127.0.0.1:3080");
    assert_eq!(r.target, None);
    s.set_boot_page_url("tauri://boot".to_string());
    assert_eq!(navigate_main_to_boot(&s, true).as_deref(), Some("tauri://boot"));
    assert_eq!(navigate_main_to_boot(&s, false), None);
}

fn printed(output: &[u8]) -> Supervisor {
    let mut sup = Supervisor::new();
    sup.capture = Some(ServiceCapture::new(1000));
    sup.take_output(0, output);
    sup
}

#[test]
fn issue_is_read_from_the_output() {
    let mut disk = Disk::new();
    disk.learn(
        "/h/profiles/web/package.json".to_string(),
        FileState::Text("{\"dependencies\":{\"b\":\"1\",\"a\":\"1\"}}".to_string()),
    );
    let mut sup = printed(b"failed to import loader entry x (a): no\nfailed to import loader entry y (zz)");
    let i = boot_issue(Os::Linux, &disk, "/h", &sup);
    assert_eq!(i.kind, FailureKind::PluginTree);
    assert_eq!(i.plugins, vec!["a".to_string()]);
    assert!(!i.spawn_error);
    sup = printed(b"unreadable: /h/x.lock; remove it manually and retry");
    let i = boot_issue(Os::Linux, &disk, "/h", &sup);
    assert_eq!(i.lock_path.as_deref(), Some("/h/x.lock"));
    let i = boot_issue(Os::Linux, &disk, "/h", &Supervisor::new());
    assert_eq!(i.kind, FailureKind::Unknown);
    assert_eq!(i.detail, "");
}

#[test]
fn failures_are_recorded_with_what_can_be_done() {
    let mut s = new_state();
    let mut i = issue(FailureKind::PluginTree);
    i.plugins = vec!["p".to_string()];
    fail_to_boot_page(&mut s, &i, "m");
    assert_eq!(s.phase(), BootPhase::Error);
    assert_eq!(s.error().as_deref(), Some("m"));
    let rec = s.last_recovery().unwrap();
    assert_eq!(rec.kind, "plugins");
    assert_eq!(rec.plugins, vec!["p".to_string()]);
    assert_eq!(rec.detail, "detail");
    service_ready(&mut s);
    assert_eq!(s.phase(), BootPhase::Ready);
    assert_eq!(s.error(), None);
    emit_error_options(&mut s, &issue(FailureKind::Unknown));
    assert_eq!(s.last_recovery().unwrap().kind, "unknown");
    assert_eq!(s.phase(), BootPhase::Ready);
}

#[test]
fn waits_end() {
    assert_eq!(wait_service_outcome(true, true, 0, 10), Some(WaitOutcome::Ready));
    assert_eq!(wait_service_outcome(false, true, 0, 10), Some(WaitOutcome::Exited));
    assert_eq!(wait_service_outcome(false, false, 10, 10), Some(WaitOutcome::Timeout));
    assert_eq!(wait_service_outcome(false, false, 9, 10), None);
    assert!(wait_service_url(false, false, 1, 2));
    assert!(!wait_service_url(true, false, 1, 2));
    assert!(!wait_service_url(false, true, 1, 2));
    assert!(!wait_service_url(false, false, 2, 2));
}

#[test]
fn lock_files_are_removed_below_the_data_directory_only() {
    assert!(is_safe_lock_path(Os::Linux, "/h/.dsh/a/x.lock", "/h/.dsh"));
    assert!(!is_safe_lock_path(Os::Linux, "/h/.dsh2/x.lock", "/h/.dsh"));
    assert!(!is_safe_lock_path(Os::Linux, "/h/.dsh/x.txt", "/h/.dsh"));
    assert!(!is_safe_lock_path(Os::Linux, "/other/x.lock", "/h/.dsh"));
    assert!(!is_safe_lock_path(Os::Linux, "/H/.dsh/x.lock", "/h/.dsh"));
    assert!(is_safe_lock_path(Os::Windows, r"C:\Users\Me\.DSH\x.lock", r"c:\users\me\.dsh"));
    let home = "/home/u/.dsh";
    assert!(is_safe_lock_path(Os::Linux, "/home/u/.dsh/task-board/ledger-v2.lock", home));
    assert!(!is_safe_lock_path(Os::Linux, "/home/u/.dsh-evil/x.lock", home));
    assert!(!is_safe_lock_path(Os::Linux, "/home/u/.dsh/../x.lock", home));
    assert!(!is_safe_lock_path(Os::Linux, "/home/u/.dsh/a/../../x.lock", home));
    assert!(is_safe_lock_path(Os::Linux, "/home/u/.dsh/a..b/..c/x.lock", home));
    assert!(!is_safe_lock_path(Os::Linux, r"/home/u/.dsh\x.lock", home));
    assert!(!is_safe_lock_path(Os::Windows, r"C:\u\.dsh\..\x.lock", r"c:\u\.dsh"));
    assert!(!is_safe_lock_path(Os::Windows, r"C:\u\.dsh/../x.lock", r"c:\u\.dsh"));
}

#[test]
fn a_start_heals_once() {
    heal_with_lock(true);
    heal_with_lock(false);
}

fn heal_with_lock(asked: bool) {
    let mut s = new_state();
    let mut h = start_service_with_heal(asked);
    let mut starts = 0;
    let mut removals = 0;
    loop {
        let event = match &h {
            Heal::Starting { first, healed } => {
                starts += 1;
                assert_eq!(*first, asked);
                assert_eq!(*healed, starts == 2);
                HealEvent::Started(Ok(3080 + starts))
            }
            Heal::Waiting { .. } => HealEvent::Waited(Err(lock_issue("/h/.dsh/x.lock"))),
            Heal::Asking { path, .. } => {
                assert_eq!(path, "/h/.dsh/x.lock");
                HealEvent::Hosts { other: false }
            }
            Heal::Removing { path, .. } => {
                removals += 1;
                assert_eq!(path, "/h/.dsh/x.lock");
                HealEvent::Removed(true)
            }
            Heal::Ready => panic!("never answers"),
            Heal::Failed { issue } => {
                assert!(!issue.spawn_error);
                break;
            }
        };
        h = heal_step(Os::Linux, "/h/.dsh", &mut s, h, event);
    }
    assert_eq!((starts, removals), (2, 1));
    assert_eq!(s.port(), 3082);
}

#[test]
fn a_start_ends_in_each_way() {
    let mut s = new_state();
    let h = start_service_with_heal(false);
    let h = heal_step(Os::Linux, "/h", &mut s, h, HealEvent::Started(Err("no port".to_string())));
    match h {
        Heal::Failed { issue } => {
            assert!(issue.spawn_error);
            assert_eq!(issue.detail, "no port");
        }
        _ => panic!("a start that fails is final"),
    }
    let waiting = |s: &mut AppState| {
        let h = start_service_with_heal(true);
        heal_step(Os::Linux, "/h", s, h, HealEvent::Started(Ok(1)))
    };
    let h = waiting(&mut s);
    assert!(matches!(
        heal_step(Os::Linux, "/h", &mut s, h, HealEvent::Waited(Ok(()))),
        Heal::Ready
    ));
    let h = waiting(&mut s);
    assert!(matches!(
        heal_step(Os::Linux, "/h", &mut s, h, HealEvent::Waited(Err(lock_issue("/x.lock")))),
        Heal::Failed { .. }
    ));
    let h = waiting(&mut s);
    let h = heal_step(Os::Linux, "/h", &mut s, h, HealEvent::Waited(Err(lock_issue("/h/x.lock"))));
    assert!(matches!(&h, Heal::Asking { .. }));
    assert!(matches!(
        heal_step(Os::Linux, "/h", &mut s, h, HealEvent::Hosts { other: true }),
        Heal::Failed { .. }
    ));
    let h = waiting(&mut s);
    let h = heal_step(Os::Linux, "/h", &mut s, h, HealEvent::Waited(Err(lock_issue("/h/x.lock"))));
    let h = heal_step(Os::Linux, "/h", &mut s, h, HealEvent::Hosts { other: false });
    assert!(matches!(&h, Heal::Removing { .. }));
    assert!(matches!(
        heal_step(Os::Linux, "/h", &mut s, h, HealEvent::Removed(false)),
        Heal::Failed { .. }
    ));
    let h = waiting(&mut s);
    assert!(matches!(
        heal_step(Os::Linux, "/h", &mut s, h, HealEvent::Removed(true)),
        Heal::Waiting { .. }
    ));
}

fn looked(healthy: bool, exited: bool) -> WatchEvent {
    WatchEvent::Looked { phase: BootPhase::Ready, healthy, exited }
}

#[test]
fn a_watch_asks_for_the_process_now_and_then() {
    let mut s = new_state();
    let mut w = spawn_service_watch(&mut s).unwrap();
    assert!(spawn_service_watch(&mut s).is_none());
    let mut looks = 0;
    loop {
        if let Watch::Watching { tick } = &w {
            assert_eq!(look_asks_process(*tick, true), (looks + 1) % 15 == 0);
            assert!(look_asks_process(*tick, false));
        }
        w = watch_step(&mut s, w, looked(true, true));
        looks += 1;
        if matches!(&w, Watch::Draining { .. }) {
            break;
        }
    }
    assert_eq!(looks, 15);
    w = watch_step(&mut s, w, WatchEvent::Drained(issue(FailureKind::PluginTree)));
    assert!(matches!(&w, Watch::Failed { .. }));
    assert!(!s.service_watch_active);
    assert_eq!(s.error().as_deref(), Some(crash_message(&FailureKind::PluginTree)));
}

#[test]
fn a_watch_recovers_or_gives_up() {
    let mut s = new_state();
    s.set_error("old");
    let w = spawn_service_watch(&mut s).unwrap();
    let w = watch_step(&mut s, w, looked(false, false));
    assert!(matches!(&w, Watch::Watching { .. }));
    let w = watch_step(&mut s, w, looked(false, true));
    let w = watch_step(&mut s, w, WatchEvent::Drained(issue(FailureKind::Unknown)));
    assert!(matches!(&w, Watch::Probing { .. }));
    let probe = |child_alive: bool, healthy: bool, elapsed: u64| WatchEvent::Probed {
        phase: BootPhase::Ready,
        child_alive,
        healthy,
        elapsed,
    };
    let w = watch_step(&mut s, w, probe(false, false, 100));
    assert!(matches!(&w, Watch::Probing { .. }));
    let w = watch_step(&mut s, w, probe(false, true, 100));
    assert!(matches!(&w, Watch::Claiming { .. }));
    let w = watch_step(&mut s, w, WatchEvent::Checked { exited: true });
    let w = watch_step(&mut s, w, WatchEvent::Restarted(Ok(())));
    assert!(matches!(&w, Watch::Recovered));
    assert_eq!(s.phase(), BootPhase::Ready);
    assert_eq!(s.error(), None);
    assert!(!s.service_watch_active);

    let probing = |s: &mut AppState| {
        let w = spawn_service_watch(s).unwrap();
        let w = watch_step(s, w, looked(false, true));
        watch_step(s, w, WatchEvent::Drained(issue(FailureKind::Unknown)))
    };
    let w = probing(&mut s);
    let w = watch_step(&mut s, w, probe(false, false, PROBE_WINDOW));
    assert!(matches!(&w, Watch::Failed { .. }));
    assert_eq!(s.phase(), BootPhase::Error);
    let w = probing(&mut s);
    let w = watch_step(&mut s, w, probe(true, false, 0));
    assert!(matches!(&w, Watch::Watching { .. }));
    let w = watch_step(
        &mut s,
        w,
        WatchEvent::Looked { phase: BootPhase::Error, healthy: true, exited: false },
    );
    assert!(matches!(&w, Watch::Ended));
    assert!(!s.service_watch_active);
}

#[test]
fn operations_tell_of_both_outcomes() {
    let mut s = new_state();
    assert_eq!(mutation_inner(&mut s, Ok::<u8, String>(7), &Ok(()), true), Ok(7));
    assert_eq!(s.phase(), BootPhase::Ready);
    let failed = || Err::<u8, String>("e".to_string());
    assert_eq!(
        mutation_inner(&mut s, failed(), &Ok(()), true),
        Err("e\n服务已自动重启。".to_string())
    );
    let down = Err(spawn_issue("boom"));
    assert_eq!(
        mutation_inner(&mut s, failed(), &down, true),
        Err("e\n服务也未能自动重启。".to_string())
    );
    assert_eq!(s.error().as_deref(), Some("boom"));
    let down = Err(issue(FailureKind::Unknown));
    assert_eq!(
        mutation_inner(&mut s, Ok::<u8, String>(7), &down, false),
        Err("操作已完成，但服务未能自动重启。".to_string())
    );
    assert_eq!(s.error().as_deref(), Some("Service did not start. Please retry."));
    service_ready(&mut s);
    assert_eq!(run_exclusive_mutation(&mut s, Some(Ok::<u8, String>(3))), Ok(3));
    assert_eq!(s.error(), None);
    assert_eq!(
        run_exclusive_mutation::<u8>(&mut s, None),
        Err("服务操作异常中断，请重试。".to_string())
    );
    assert_eq!(s.error().as_deref(), Some("服务操作异常中断，请重试。"));
}

#[test]
fn restarts_tell_how_they_went() {
    let mut s = new_state();
    assert_eq!(runtime_known(&s), Err("服务尚未初始化".to_string()));
    s.set_runtime_dir("/rt".to_string());
    assert_eq!(runtime_known(&s), Ok(()));
    assert_eq!(restart_service(&mut s, &Ok(()), true), Ok(()));
    assert_eq!(restart_service(&mut s, &Err(spawn_issue("d")), true), Err("d".to_string()));
    assert_eq!(
        restart_service(&mut s, &Err(issue(FailureKind::Unknown)), true),
        Err("服务没有正常启动，请稍后再试。".to_string())
    );
    assert_eq!(s.last_recovery().unwrap().kind, "unknown");
    menu_restart(&mut s, &Ok(()));
    assert_eq!(s.phase(), BootPhase::Ready);
    menu_restart(&mut s, &Err(spawn_issue("d")));
    assert_eq!(s.phase(), BootPhase::Ready);
    menu_restart(&mut s, &Err(issue(FailureKind::PluginTree)));
    assert_eq!(s.phase(), BootPhase::Error);
    assert!(restart_dsh_service(&mut s, &Ok(())));
    assert!(!restart_dsh_service(&mut s, &Err(issue(FailureKind::Unknown))));
    assert_eq!(s.error().as_deref(), Some("更新后服务没有正常启动，请稍后再试。"));
}

#[test]
fn repairs_tell_how_they_went() {
    assert_eq!(repair_prepared(&Ok("{\"ok\":true}".to_string())), Ok(()));
    assert_eq!(repair_prepared(&Err("x".to_string())), Err("修复失败：x".to_string()));
    assert_eq!(
        repair_prepared(&Ok("{\"ok\":false}".to_string())),
        Err("修复没有成功，请重试。".to_string())
    );
    assert_eq!(repair_complete(true), Ok(()));
    assert_eq!(repair_complete(false), Err("修复后服务仍不完整，请重新安装。".to_string()));
    let mut s = new_state();
    assert_eq!(repair_service(&mut s, &Ok(())), Ok(()));
    assert_eq!(repair_service(&mut s, &Err(spawn_issue("d"))), Err("d".to_string()));
    assert_eq!(
        repair_service(&mut s, &Err(issue(FailureKind::Unknown))),
        Err("服务未就绪".to_string())
    );
    assert_eq!(s.error().as_deref(), Some("修复后服务没有正常启动，请稍后再试。"));
}

fn boot_to_service(s: &mut AppState) -> Boot {
    let b = boot(s, Some("tauri://boot".to_string()));
    let b = boot_step(Os::Linux, s, b, BootEvent::Located(Ok("/res".to_string())));
    let b = boot_step(Os::Linux, s, b, BootEvent::Resolved(Ok("/res/node".to_string())));
    let b = boot_step(Os::Linux, s, b, BootEvent::Tested(Err("first".to_string())));
    let b = boot_step(Os::Linux, s, b, BootEvent::Tested(Ok("v22".to_string())));
    assert_eq!(s.phase(), BootPhase::DshInstall);
    let b = boot_step(Os::Linux, s, b, BootEvent::DataDir(Ok("/data".to_string())));
    assert_eq!(s.runtime_dir(), "/data/dsh-runtime");
    assert_eq!(s.workspace_dir(), "/data/workspace");
    let b = boot_step(Os::Linux, s, b, BootEvent::Prepared(Ok("{\"ok\":true}".to_string())));
    assert_eq!(s.phase(), BootPhase::ServiceStart);
    boot_step(Os::Linux, s, b, BootEvent::BinThere(true))
}

#[test]
fn the_application_starts() {
    let mut s = new_state();
    let b = boot_to_service(&mut s);
    assert!(matches!(&b, Boot::Starting { bin } if bin == "/data/dsh-runtime/node_modules/@deepseek-ai/dsh/lib/bin.js"));
    assert_eq!(s.node_path(), "/res/node");
    assert_eq!(s.supervisor.log_dir.as_deref(), Some("/data/logs"));
    s.set_port(3080);
    let b = boot_step(Os::Linux, &mut s, b, BootEvent::Started(Err(issue(FailureKind::Unknown))));
    assert!(matches!(&b, Boot::Restarting { .. }));
    let b = boot_step(Os::Linux, &mut s, b, BootEvent::Started(Ok(())));
    let b = boot_step(Os::Linux, &mut s, b, BootEvent::Announced(None));
    assert!(matches!(&b, Boot::Ready { url } if url == "http://127.0.0.1:3080"));
    assert_eq!(s.phase(), BootPhase::Ready);
    assert_eq!(s.error(), None);
    assert_eq!(s.boot_page_url().as_deref(), Some("tauri://boot"));
    assert_eq!(installer_js(Os::Linux, "/res"), "/res/installer/install-dsh.mjs");
    assert_eq!(baseline_dir(Os::Linux, "/res"), "/res/dsh-baseline");
}

fn failed(s: &AppState, b: Boot, message: &str, wanted: &str) {
    assert_eq!(s.phase(), BootPhase::Error);
    assert_eq!(s.error().as_deref(), Some(message));
    match b {
        Boot::Failed { detail } => assert_eq!(detail, wanted),
        _ => panic!("the start should have failed"),
    }
}

#[test]
fn each_failure_of_the_start_is_told() {
    let e = || Err("e".to_string());
    let mut s = new_state();
    let b = boot(&mut s, None);
    let b = boot_step(Os::Linux, &mut s, b, BootEvent::Located(e()));
    failed(&s, b, "程序文件位置异常，请重新安装。", "resource_dir: e");
    let b = Boot::Resolving { resources: "/r".to_string() };
    let b = boot_step(Os::Linux, &mut s, b, BootEvent::Resolved(e()));
    failed(&s, b, "程序文件不完整，请重新安装。", "resolve node: e");
    let b = Boot::TestingAgain {
        resources: "/r".to_string(),
        node: "/n".to_string(),
        first: "f".to_string(),
    };
    let b = boot_step(Os::Linux, &mut s, b, BootEvent::Tested(e()));
    failed(&s, b, "程序文件损坏，请重新安装本应用。", "node smoke failed twice: f / e");
    let b = Boot::LocatingData { resources: "/r".to_string() };
    let b = boot_step(Os::Linux, &mut s, b, BootEvent::DataDir(e()));
    failed(&s, b, "无法确定数据目录，请重新安装。", "app_data_dir: e");
    let preparing = || Boot::Preparing { resources: "/r".to_string(), runtime: "/rt".to_string() };
    let b = boot_step(Os::Linux, &mut s, preparing(), BootEvent::Prepared(e()));
    failed(&s, b, "首次准备没有成功，请重试。", "installer launch: e");
    let out = "{\"ok\":false,\"error\":{\"message\":\"m\"}}".to_string();
    let b = boot_step(Os::Linux, &mut s, preparing(), BootEvent::Prepared(Ok(out.clone())));
    failed(&s, b, "m", &format!("installer: {out}"));
    let b = Boot::CheckingBin { bin: "/b".to_string() };
    let b = boot_step(Os::Linux, &mut s, b, BootEvent::BinThere(false));
    failed(&s, b, "程序没有安装完整，请重试。", "dsh bin missing: /b");
    let starting = || Boot::Starting { bin: "/b".to_string() };
    let b = boot_step(Os::Linux, &mut s, starting(), BootEvent::Started(Err(spawn_issue("x"))));
    failed(&s, b, "启动没有成功，请重试。", "service start: x");
    let often = spawn_issue("服务多次启动失败");
    let b = boot_step(Os::Linux, &mut s, starting(), BootEvent::Started(Err(often)));
    failed(&s, b, "程序多次启动失败，请稍后再试。", "service start: 服务多次启动失败");
    let b = boot_step(
        Os::Linux,
        &mut s,
        starting(),
        BootEvent::Started(Err(issue(FailureKind::PluginTree))),
    );
    failed(&s, b, "部分已安装插件与当前 DSH 版本不兼容，服务无法启动。", "detail");
    assert_eq!(s.last_recovery().unwrap().kind, "plugins");
    let restarting = || Boot::Restarting { bin: "/b".to_string() };
    s.clear_recovery();
    let b = boot_step(Os::Linux, &mut s, restarting(), BootEvent::Started(Err(spawn_issue("x"))));
    failed(&s, b, "程序没有正常启动，点这里修复。", "x");
    assert!(s.last_recovery().is_none());
    let b = boot_step(
        Os::Linux,
        &mut s,
        restarting(),
        BootEvent::Started(Err(issue(FailureKind::Unknown))),
    );
    failed(&s, b, "程序没有正常启动，点这里修复。", "detail");
    assert!(s.last_recovery().is_some());
}

#[test]
fn tray_and_menus() {
    let mut s = new_state();
    assert_eq!(update_tray_tooltip(&s, false), "DSH Workspace: starting…");
    s.set_phase(BootPhase::Ready);
    assert_eq!(update_tray_tooltip(&s, true), "DSH 工作台：正在启动…");
    s.set_port(3080);
    assert_eq!(update_tray_tooltip(&s, true), "DSH 工作台：运行中（端口 3080）");
    assert_eq!(update_tray_tooltip(&s, false), "DSH Workspace: running (port 3080)");
    s.supervisor.degraded = true;
    assert_eq!(update_tray_tooltip(&s, false), "DSH Workspace: service failed repeatedly");
    s.set_phase(BootPhase::Error);
    assert_eq!(update_tray_tooltip(&s, true), "DSH 工作台：遇到问题，请重试");
    assert_eq!(phase_text(BootPhase::Ready), "已就绪");
    assert_eq!(menu_words(false).restart, "Restart service");
    assert_eq!(menu_words(true).open, "打开界面");
    assert_eq!(tray_action("show"), MenuAction::Show);
    assert_eq!(tray_action("quit"), MenuAction::Quit);
    assert_eq!(tray_action("ctx-quit"), MenuAction::Nothing);
    assert_eq!(handle_menu_event("ctx-restart"), MenuAction::Restart);
    assert_eq!(handle_menu_event("restart"), MenuAction::Nothing);
    assert!(handle_window_event("main") && handle_window_event("settings"));
    assert!(!handle_window_event("other"));
}

#[test]
fn language_of_the_user() {
    assert!(is_zh_locale(Some(0x0804), None, None, None));
    assert!(!is_zh_locale(Some(0x0409), None, None, None));
    assert!(!is_zh_locale(Some(0x0409), Some("zh_CN.UTF-8"), None, None));
    assert!(is_zh_locale(Some(0x0404), Some("en_US.UTF-8"), None, None));
    assert!(is_zh_locale(None, Some("ZH_CN.UTF-8"), None, None));
    assert!(!is_zh_locale(None, Some("en_US"), Some("zh_CN"), None));
    assert!(is_zh_locale(None, None, Some("zh_CN"), Some("en")));
    assert!(is_zh_locale(None, None, None, Some("zh")));
    assert!(!is_zh_locale(None, None, None, None));
}

#[test]
fn arguments_for_the_service() {
    let args = |list: &[&str]| {
        parse_dsh_extra_args(&list.iter().map(|s| s.to_string()).collect::<Vec<_>>())
    };
    assert_eq!(args(&["app", "--dsh-args=--a  b", "x", "--dsh-args", "c d", "--dsh-args"]), vec![
        "--a", "b", "c", "d"
    ]);
    assert!(args(&["--dsh-args=x"]).is_empty());
    assert!(args(&[]).is_empty());
    assert_eq!(args(&["app", "--dsh-args", "--dsh-args=q"]), vec!["--dsh-args=q"]);
}

#[test]
fn status_of_the_start_page() {
    let mut s = new_state();
    s.set_port(3080);
    let st = get_status(&mut s, Some("http://127.0.0.1:3080/?token=a".to_string()), None, None);
    assert_eq!(st.service_url, None);
    assert_eq!(s.pending_auth_url(), None);
    s.set_phase(BootPhase::Ready);
    let st = get_status(&mut s, None, Some("1".to_string()), None);
    assert_eq!(st.service_url.as_deref(), Some("http://127.0.0.1:3080"));
    assert_eq!(st.dsh_version.as_deref(), Some("1"));
    assert_eq!(st.message, "已就绪");
    assert_eq!(s.pending_auth_url(), None);
    get_status(&mut s, Some("http://127.0.0.1:3080/?token=a".to_string()), None, None);
    assert_eq!(s.pending_auth_url().as_deref(), Some("http://127.0.0.1:3080/?token=a"));
}

#[test]
fn a_late_page_shows_the_failure() {
    let mut s = new_state();
    s.set_port(3080);
    let mut i = issue(FailureKind::PluginTree);
    i.plugins = vec!["p".to_string()];
    fail_to_boot_page(&mut s, &i, "m");
    let st = get_status(&mut s, Some("http://127.0.0.1:3080/?token=a".to_string()), None, None);
    assert_eq!(st.phase, BootPhase::Error);
    assert_eq!(st.error.as_deref(), Some("m"));
    assert_eq!(st.service_url, None);
    assert_eq!(st.recovery.unwrap().plugins, vec!["p".to_string()]);
}

#[test]
fn a_restart_lets_the_user_in_by_two_hops() {
    let mut s = new_state();
    s.set_port(3080);
    let url = "http://127.0.0.1:3080/?token=a";
    let r = refresh_main_after_restart(&mut s, Some(url.to_string()), true);
    assert!(!r.target.unwrap().contains('?'));
    let p = handle_page_load(&mut s, "http", "main", Some("127.0.0.1"), false);
    assert!(p.script.unwrap().contains(url));
    assert_eq!(s.pending_auth_url(), None);
}

#[test]
fn a_page_lets_the_user_in_once() {
    let mut s = new_state();
    s.set_pending_auth_url(Some("http://127.0.0.1:3080/?token=\"a".to_string()));
    let p = handle_page_load(&mut s, "tauri", "main", None, false);
    assert!(!p.shims && p.script.is_none());
    let p = handle_page_load(&mut s, "http", "main", Some("127.0.0.1"), true);
    assert!(p.shims && p.script.is_none());
    let p = handle_page_load(&mut s, "http", "main", Some("localhost"), false);
    assert!(!p.shims);
    assert_eq!(
        p.script.as_deref(),
        Some("window.location.href = \"http://127.0.0.1:3080/?token=\\\"a\";")
    );
    let p = handle_page_load(&mut s, "http", "main", Some("127.0.0.1"), false);
    assert!(p.script.is_none());
}

#[test]
fn the_user_is_told_of_every_recovery() {
    assert_eq!(lock_removed_text(true), "已自动清理残留锁文件，正在重试…");
    assert_eq!(lock_removed_text(false), "Cleaned up a stale lock file, retrying…");
    assert_eq!(recovering_text(true), "服务正在自动恢复，请稍候…");
    assert_eq!(recovering_text(false), "Service stopped; recovering automatically…");
}

#[test]
fn an_operation_runs_between_a_stop_and_a_start() {
    for failed in [false, true] {
        let mut s = new_state();
        let mut at = mutation_begin::<u8>(&mut s);
        assert_eq!(s.phase(), BootPhase::ServiceStart);
        at = mutation_step(&mut s, at, MutationEvent::Worked(Ok(1)), true);
        assert!(matches!(&at, Mutation::Stopping));
        at = mutation_step(&mut s, at, MutationEvent::Stopped, true);
        assert!(matches!(&at, Mutation::Working));
        let done = if failed { Err("e".to_string()) } else { Ok(7) };
        at = mutation_step(&mut s, at, MutationEvent::Worked(done), true);
        assert!(matches!(&at, Mutation::Starting { .. }));
        at = mutation_step(&mut s, at, MutationEvent::Worked(Ok(9)), true);
        assert!(matches!(&at, Mutation::Starting { .. }));
        at = mutation_step(&mut s, at, MutationEvent::Started(Ok(())), true);
        assert_eq!(s.phase(), BootPhase::Ready);
        match at {
            Mutation::Over(r) if failed => assert_eq!(r, Err("e\n服务已自动重启。".to_string())),
            Mutation::Over(r) => assert_eq!(r, Ok(7)),
            _ => panic!("it is over"),
        }
    }
}
