use dsh_desktop::paths::{
    file_name, is_absolute, join_path, normalize_for_node, parent, with_extension, Os,
};
use dsh_desktop::serviceout::{FailureKind, ServiceCapture};
use dsh_desktop::supervisor::{
    cmd_matches_markers, keep_waiting, loopback, probe_port, probe_request, runtime_dir_from_bin,
    sweep_again, ChildPoll, ProcessInfo, ServiceOrder, Start, StartEvent, Supervisor, MAX_RESTARTS,
    RESTART_WINDOW,
};

#[test]
fn loopback_addr_is_127_0_0_1() {
    let a = loopback(3080);
    assert_eq!(a.ip, "127.0.0.1");
    assert_eq!(a.port, 3080);
}

#[test]
fn normalize_for_node_strips_verbatim_prefix() {
    let s = normalize_for_node(Os::Windows, r"\\?\C:\Users\test\dsh");
    assert!(!s.starts_with(r"\\?\"));
    assert!(s.contains(r"C:\Users\test\dsh"));
    assert_eq!(s, r"C:\Users\test\dsh");
    assert_eq!(normalize_for_node(Os::Windows, r"\??\C:\x"), r"C:\x");
    assert_eq!(normalize_for_node(Os::Linux, r"\\?\C:\x"), r"\\?\C:\x");
}

#[test]
fn normalize_for_node_keeps_plain_path() {
    let plain = r"C:\Users\test\dsh";
    assert_eq!(normalize_for_node(Os::Windows, plain), plain);
    assert_eq!(normalize_for_node(Os::Windows, "C:"), "C:");
}

#[test]
fn runtime_dir_from_bin_finds_runtime_above_scoped_modules() {
    let bin = r"C:\Users\me\AppData\Roaming\com.dsh.desktop\dsh-runtime\node_modules\@deepseek-ai\dsh\lib\bin.js";
    assert_eq!(
        runtime_dir_from_bin(Os::Windows, bin).as_deref(),
        Some(r"C:\Users\me\AppData\Roaming\com.dsh.desktop\dsh-runtime")
    );
    assert_eq!(
        runtime_dir_from_bin(Os::Linux, "/d/rt/node_modules/@deepseek-ai/dsh/lib/bin.js").as_deref(),
        Some("/d/rt")
    );
}

#[test]
fn runtime_dir_from_bin_returns_none_for_unrelated_paths() {
    assert_eq!(runtime_dir_from_bin(Os::Windows, r"C:\x\node_modules\plain\bin.js"), None);
    assert_eq!(runtime_dir_from_bin(Os::Windows, r"C:\x\@deepseek-ai\dsh\bin.js"), None);
    assert_eq!(runtime_dir_from_bin(Os::Linux, "../node_modules/@deepseek-ai/dsh/bin.js").as_deref(), Some(".."));
    assert_eq!(runtime_dir_from_bin(Os::Linux, "/a/../@deepseek-ai/dsh/bin.js"), None);
    assert_eq!(runtime_dir_from_bin(Os::Linux, ""), None);
}

#[test]
fn cmd_matches_markers_case_insensitive_contains() {
    let markers = vec![r"c:\dsh-runtime".to_string(), "dsh-market-restart".to_string()];
    assert!(cmd_matches_markers(
        &[
            "node.exe".into(),
            r"C:\DSH-RUNTIME\node_modules\@deepseek-ai\dsh\lib\bin.js".into()
        ],
        &markers
    ));
    assert!(cmd_matches_markers(
        &["node.exe".into(), "-e".into(), "const dsh-market-restart = 1".into()],
        &markers
    ));
    assert!(!cmd_matches_markers(
        &["powershell.exe".into(), "-Command".into(), "echo hi".into()],
        &markers
    ));
}

#[test]
fn pick_free_port_returns_preferred_when_free() {
    let port = Supervisor::pick_free_port(3080, false, None);
    assert!(port > 0);
    assert_eq!(port, 3080);
}

#[test]
fn pick_free_port_returns_alternative_when_occupied() {
    let occupied = 3080;
    let picked = Supervisor::pick_free_port(occupied, true, Some(40001));
    assert!(picked > 0);
    assert_ne!(picked, occupied);
    assert_eq!(Supervisor::pick_free_port(occupied, true, None), 0);
}

#[test]
fn health_check_fails_on_closed_port() {
    assert!(!probe_port(3080, None));
    assert!(!probe_port(0, Some(b"HTTP/1.1 200 OK")));
    assert!(!probe_port(3080, Some(b"SSH-2.0")));
}

#[test]
fn health_check_succeeds_on_http_server() {
    let mut buf = [0u8; 128];
    let reply = b"HTTP/1.1 200 OK\r\nContent-Length: 2\r\n\r\nok";
    buf[..reply.len()].copy_from_slice(reply);
    assert!(probe_port(3080, Some(&buf)));
    assert_eq!(probe_request(0), None);
    assert_eq!(
        probe_request(80).as_deref(),
        Some("GET / HTTP/1.1\r\nHost: 127.0.0.1:80\r\nConnection: close\r\nUser-Agent: dsh-desktop/0.1\r\n\r\n")
    );
}

fn order() -> ServiceOrder {
    ServiceOrder {
        node: "/n".to_string(),
        dsh_bin: "/rt/bin.js".to_string(),
        workspace: "/ws".to_string(),
        preferred_port: 3080,
        extra_args: vec!["--x".to_string()],
    }
}

fn step(sup: &mut Supervisor, at: Start, event: StartEvent) -> Start {
    sup.start_step(Os::Linux, &order(), at, event)
}

fn up_to_launch(sup: &mut Supervisor) -> Start {
    let at = sup.start("/rt/bin.js");
    let at = step(sup, at, StartEvent::Stopped);
    let at = step(sup, at, StartEvent::Swept);
    step(sup, at, StartEvent::Ports { taken: false, spare: None })
}

fn launched(sup: &mut Supervisor, pid: u32) {
    let at = up_to_launch(sup);
    assert!(matches!(step(sup, at, StartEvent::Launched(pid)), Start::Done(Ok(3080))));
}

#[test]
fn launch_has_the_arguments_of_the_service() {
    let mut sup = Supervisor::new();
    sup.set_log_dir("/data/logs".to_string());
    match up_to_launch(&mut sup) {
        Start::Launching { port, launch, redirect } => {
            assert_eq!(port, 3080);
            assert!(!redirect);
            assert_eq!(launch.program, "/n");
            assert_eq!(launch.args, vec!["/rt/bin.js", "web", "--no-open", "--port", "3080", "--x"]);
            assert_eq!(launch.cwd, "/ws");
            assert_eq!(launch.log_file.as_deref(), Some("/data/logs/service.log"));
        }
        other => panic!("{:?}", other),
    }
}

#[test]
fn a_start_stops_and_sweeps_before_it_launches() {
    let mut sup = Supervisor::new();
    launched(&mut sup, 70);
    let at = sup.start("/rt/bin.js");
    assert!(matches!(&at, Start::Stopping { child: Some(70) }));
    let at = step(&mut sup, at, StartEvent::Ports { taken: false, spare: None });
    assert!(matches!(&at, Start::Stopping { .. }));
    let at = step(&mut sup, at, StartEvent::Stopped);
    assert!(matches!(&at, Start::Sweeping));
    let at = step(&mut sup, at, StartEvent::Launched(1));
    assert!(matches!(&at, Start::Sweeping));
    let at = step(&mut sup, at, StartEvent::Swept);
    let at = step(&mut sup, at, StartEvent::Ports { taken: true, spare: None });
    match at {
        Start::Done(Err(e)) => assert_eq!(e, "无法确定可用端口"),
        other => panic!("{:?}", other),
    }
}

#[test]
fn a_launch_can_fail() {
    let mut sup = Supervisor::new();
    let at = up_to_launch(&mut sup);
    let at = step(&mut sup, at, StartEvent::NoPipe);
    assert!(matches!(&at, Start::Launching { redirect: true, .. }));
    match step(&mut sup, at, StartEvent::NotLaunched("no".to_string())) {
        Start::Done(Err(e)) => assert_eq!(e, "启动服务失败: no"),
        other => panic!("{:?}", other),
    }
    assert_eq!(sup.port(), 0);
    assert_eq!(sup.child, None);
}

#[test]
fn a_launched_service_is_known_until_it_is_stopped() {
    let mut sup = Supervisor::new();
    assert!(sup.is_exited(ChildPoll::Running));
    launched(&mut sup, 77);
    assert_eq!(sup.port(), 3080);
    assert!(!sup.is_exited(ChildPoll::Running));
    assert!(sup.is_exited(ChildPoll::Failed));
    assert!(!sup.is_exited(ChildPoll::Running));
    assert!(sup.is_exited(ChildPoll::Exited));
    assert!(sup.is_exited(ChildPoll::Running));
    assert_eq!(sup.stop(), None);
    launched(&mut sup, 78);
    assert_eq!(sup.stop(), Some(78));
    assert_eq!(sup.stop(), None);
}

#[test]
fn restarts_are_limited_within_the_window() {
    let mut sup = Supervisor::new();
    let mut granted: Vec<u64> = vec![];
    for now in [0u64, 1000, 2000, 3000, 299_999, 300_000, 300_001, 301_000] {
        match sup.restart(now, "/rt/bin.js") {
            Start::Stopping { .. } => {
                assert!(!sup.is_degraded());
                granted.push(now);
            }
            Start::Done(Err(e)) => {
                assert_eq!(e, "服务多次启动失败");
                assert!(sup.is_degraded());
            }
            other => panic!("{:?}", other),
        }
    }
    assert_eq!(granted, vec![0, 1000, 2000, 300_000, 301_000]);
    for i in 0..granted.len() - MAX_RESTARTS {
        assert!(granted[i + MAX_RESTARTS] - granted[i] >= RESTART_WINDOW);
    }
    assert!(sup.allow_restart(900_000));
}

#[test]
fn a_refused_restart_leaves_the_process_alone() {
    let mut sup = Supervisor::new();
    launched(&mut sup, 5);
    for _ in 0..3 {
        assert!(sup.allow_restart(10));
    }
    assert!(matches!(sup.restart(11, "/rt/bin.js"), Start::Done(Err(_))));
    assert_eq!(sup.child, Some(5));
}

#[test]
fn processes_left_behind_are_found() {
    let mut sup = Supervisor::new();
    let list = vec![
        ProcessInfo { pid: 1, cmd: vec!["node".into(), "/d/RT/node_modules/@deepseek-ai/dsh/lib/bin.js".into()] },
        ProcessInfo { pid: 2, cmd: vec!["vi".into(), "/d/rt/notes".into()] },
        ProcessInfo { pid: 3, cmd: vec!["sh".into()] },
        ProcessInfo { pid: 4, cmd: vec!["DSH-Market-Restart".into()] },
    ];
    assert!(sup.kill_stale_dsh(Os::Linux, None, &list).is_empty());
    sup.start("/d/rt/node_modules/@deepseek-ai/dsh/lib/bin.js");
    assert_eq!(sup.kill_stale_dsh(Os::Linux, Some(4), &list), vec![1, 2]);
    assert_eq!(sup.kill_stale_dsh(Os::Linux, None, &list), vec![1, 2, 4]);
}

#[test]
fn other_hosts_are_told_from_the_service() {
    let mut sup = Supervisor::new();
    let host = |pid: u32| ProcessInfo { pid, cmd: vec!["node".into(), "/RT/bin.js".into()] };
    assert!(!sup.other_host_runs(Os::Linux, None, &[host(1)]));
    launched(&mut sup, 5);
    assert!(!sup.other_host_runs(Os::Linux, Some(9), &[host(5), host(9)]));
    assert!(sup.other_host_runs(Os::Linux, Some(9), &[host(5), host(6)]));
    let other = ProcessInfo { pid: 7, cmd: vec!["vi".into()] };
    assert!(!sup.other_host_runs(Os::Linux, None, &[other]));
}

#[test]
fn output_tail_keeps_whole_characters() {
    let mut sup = Supervisor::new();
    assert_eq!(sup.output_tail(5), "");
    assert_eq!(sup.failure_classify(), None);
    sup.capture = Some(ServiceCapture::new(64));
    sup.take_output(0, "ab李四".as_bytes());
    assert_eq!(sup.output_tail(100), "ab李四");
    assert_eq!(sup.output_tail(8), "ab李四");
    assert_eq!(sup.output_tail(7), "b李四");
    assert_eq!(sup.output_tail(5), "四");
    assert_eq!(sup.output_tail(2), "");
    assert_eq!(sup.failure_classify(), Some(FailureKind::Unknown));
}

#[test]
fn captured_url_of_the_supervisor() {
    let mut sup = Supervisor::new();
    sup.take_output(0, b"at http://127.0.0.1:3080/?t=1");
    assert_eq!(sup.captured_url(), None);
    launched(&mut sup, 1);
    assert_eq!(sup.captured_url(), None);
    let launch = sup.launch;
    sup.take_output(launch, b"at http://127.0.0.1:3080/?t=1");
    assert_eq!(sup.captured_url().as_deref(), Some("http://127.0.0.1:3080/?t=1"));
}

#[test]
fn earlier_output_does_not_count_after_a_start() {
    let mut sup = Supervisor::new();
    launched(&mut sup, 1);
    let first = sup.launch;
    sup.take_output(first, b"http://127.0.0.1:3080/?t=old plugin tree failed to load");
    assert_eq!(sup.failure_classify(), Some(FailureKind::PluginTree));
    let at = up_to_launch(&mut sup);
    assert_eq!(sup.failure_classify(), None);
    assert!(matches!(step(&mut sup, at, StartEvent::Launched(2)), Start::Done(Ok(3080))));
    sup.take_output(first, b"http://127.0.0.1:3080/?t=old plugin tree failed to load");
    assert_eq!(sup.captured_url(), None);
    assert_eq!(sup.failure_classify(), Some(FailureKind::Unknown));
    let at = up_to_launch(&mut sup);
    let at = step(&mut sup, at, StartEvent::NoPipe);
    step(&mut sup, at, StartEvent::Launched(3));
    assert_eq!(sup.failure_classify(), None);
}

#[test]
fn small_decisions_of_the_supervisor() {
    assert!(keep_waiting(4999, ChildPoll::Running));
    assert!(!keep_waiting(5000, ChildPoll::Running));
    assert!(!keep_waiting(0, ChildPoll::Exited));
    assert!(sweep_again(3, true));
    assert!(!sweep_again(4, true));
    assert!(!sweep_again(0, false));
}

#[test]
fn paths_agree_with_std_here() {
    let cases = [
        "", "/", "//", "a", "a/", "a/b", "a//b", "/a", "/a/", "/a/b/", "./a", ".", "..", "../a", "a/.",
        "a/./b", "a/..", "/..", "/.", "./", "././a", "a/b.c", ".hid", "a/.hid.x", "a.b.c", "a/b/.", "/a/./",
    ];
    for p in cases {
        let std_path = std::path::Path::new(p);
        assert_eq!(
            parent(Os::Linux, p),
            std_path.parent().map(|x| x.to_string_lossy().to_string()),
            "parent of {p:?}"
        );
        assert_eq!(
            file_name(Os::Linux, p),
            std_path.file_name().map(|x| x.to_string_lossy().to_string()),
            "name of {p:?}"
        );
        assert_eq!(is_absolute(Os::Linux, p), std_path.is_absolute(), "{p:?}");
        assert_eq!(
            with_extension(Os::Linux, p, "x.y"),
            std_path.with_extension("x.y").to_string_lossy().to_string(),
            "extension of {p:?}"
        );
        for q in cases {
            assert_eq!(
                join_path(Os::Linux, p, q),
                std_path.join(q).to_string_lossy().to_string(),
                "{p:?} and {q:?}"
            );
        }
    }
}

#[test]
fn paths_of_windows() {
    assert_eq!(join_path(Os::Windows, r"C:\a", "b"), r"C:\a\b");
    assert_eq!(join_path(Os::Windows, r"C:\a\", "b"), r"C:\a\b");
    assert_eq!(join_path(Os::Windows, "C:", "b"), "C:b");
    assert_eq!(join_path(Os::Windows, r"C:\a", r"\b"), r"C:\b");
    assert_eq!(join_path(Os::Windows, r"C:\a", r"D:\b"), r"D:\b");
    assert_eq!(join_path(Os::Windows, r"\\s\h\a", r"\b"), r"\\s\h\b");
    assert_eq!(join_path(Os::Windows, r"\\?\C:\a", "b/./c/../d"), r"\\?\C:\a\b\d");
    assert_eq!(join_path(Os::Windows, r"\\?\C:", "b"), r"\\?\C:\b");
    assert_eq!(join_path(Os::Windows, r"\\?\UNC\s\h\x", r"\y"), r"\\?\UNC\s\h\y");
    assert!(is_absolute(Os::Windows, r"C:\a"));
    assert!(!is_absolute(Os::Windows, "C:a"));
    assert!(!is_absolute(Os::Windows, r"\a"));
    assert!(is_absolute(Os::Windows, r"\\s\h"));
    assert_eq!(parent(Os::Windows, r"C:\a").as_deref(), Some(r"C:\"));
    assert_eq!(parent(Os::Windows, r"C:\"), None);
    assert_eq!(parent(Os::Windows, "C:a").as_deref(), Some("C:"));
    assert_eq!(parent(Os::Windows, r"\\s\h\a\b").as_deref(), Some(r"\\s\h\a"));
    assert_eq!(file_name(Os::Windows, r"C:\a/b").as_deref(), Some("b"));
    assert_eq!(file_name(Os::Windows, r"\\?\C:\a/b").as_deref(), Some("a/b"));
    assert_eq!(
        with_extension(Os::Windows, r"C:\p\cordis.patch.yml", "yml.tmp"),
        r"C:\p\cordis.patch.yml.tmp"
    );
}
