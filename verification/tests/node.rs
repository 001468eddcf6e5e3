use dsh_desktop::disk::{Disk, FileState};
use dsh_desktop::node::{
    check_prepared, dsh_bin, installer_step, last_line, node_rel_path, parse_installer_output,
    read_installed_version, resolve_node, run_check, run_installer, run_prepare, run_swap,
    run_update, smoke, InstallerEnd, InstallerNext, SmokeEnd, INSTALLER_TIMEOUT,
};
use dsh_desktop::paths::{Arch, Os};

#[test]
fn node_rel_path_has_platform_dir_and_exe() {
    let w = node_rel_path(Os::Windows, Arch::X64);
    assert!(w.starts_with("node\\"));
    assert!(w.ends_with("node.exe"));
    assert!(w.contains("win-x64"));
    assert_eq!(node_rel_path(Os::Windows, Arch::Aarch64), r"node\win-x64\node.exe");
    let m = node_rel_path(Os::MacOs, Arch::Aarch64);
    assert!(m.starts_with("node/"));
    assert!(m.ends_with("node"));
    assert!(m.contains("mac-"));
    assert_eq!(m, "node/mac-arm64/node");
    assert_eq!(node_rel_path(Os::MacOs, Arch::X64), "node/mac-x64/node");
    let l = node_rel_path(Os::Linux, Arch::X64);
    assert!(l.starts_with("node/"));
    assert!(l.ends_with("node"));
    assert!(l.contains("linux-"));
    assert_eq!(l, "node/linux-x64/node");
    assert_eq!(node_rel_path(Os::Linux, Arch::Aarch64), "node/linux-arm64/node");
}

#[test]
fn resolve_node_needs_the_file() {
    let mut disk = Disk::new();
    assert_eq!(
        resolve_node(Os::Linux, Arch::X64, &disk, "/res"),
        Err("bundled node not found: /res/node/linux-x64/node".to_string())
    );
    disk.learn("/res/node/linux-x64/node".to_string(), FileState::Unreadable("binary".to_string()));
    assert_eq!(
        resolve_node(Os::Linux, Arch::X64, &disk, "/res"),
        Ok("/res/node/linux-x64/node".to_string())
    );
}

#[test]
fn smoke_reads_the_version() {
    let end = SmokeEnd::Exited { success: true, stdout: b"v22.1.0\n".to_vec(), stderr: vec![] };
    assert_eq!(smoke("/n", end), Ok("v22.1.0".to_string()));
    let end = SmokeEnd::Exited { success: true, stdout: b" \n".to_vec(), stderr: vec![] };
    assert_eq!(smoke("/n", end), Err("node --version returned empty".to_string()));
    let end = SmokeEnd::Exited { success: false, stdout: vec![], stderr: b" bad\n".to_vec() };
    assert_eq!(smoke("/n", end), Err("node --version failed: bad".to_string()));
    let end = SmokeEnd::NotRun("denied".to_string());
    assert_eq!(smoke("/n", end), Err("cannot execute node /n: denied".to_string()));
}

#[test]
fn installer_arguments() {
    let run = run_prepare(Os::Windows, r"\\?\C:\n.exe", r"\\?\C:\i.mjs", r"\\?\C:\rt", r"C:\b");
    assert_eq!(run.program, r"C:\n.exe");
    assert_eq!(
        run.args,
        vec![r"C:\i.mjs", "prepare", "--target", r"C:\rt", "--baseline", r"C:\b"]
    );
    let run = run_check(Os::Linux, "/n", "/i.mjs", "/rt", "auto", false);
    assert_eq!(run.args, vec!["/i.mjs", "check", "--target", "/rt"]);
    let run = run_update(Os::Linux, "/n", "/i.mjs", "/rt", "npmjs", true);
    assert_eq!(
        run.args,
        vec![
            "/i.mjs",
            "update",
            "--target",
            "/rt",
            "--registry",
            "https://registry.npmjs.org",
            "--mirror",
            "https://registry.npmjs.org",
            "--pre"
        ]
    );
    let run = run_check(Os::Linux, "/n", "/i.mjs", "/rt", "npmmirror", false);
    assert_eq!(run.args[4], "--registry");
    assert_eq!(run.args[5], "https://registry.npmmirror.com");
    let run = run_swap(Os::Linux, "/n", "/i.mjs", "/rt", "/st");
    assert_eq!(run.args, vec!["/i.mjs", "swap", "--target", "/rt", "--staging", "/st"]);
}

#[test]
fn installer_ends() {
    let ended = |success: bool, out: &str, err: &str| InstallerEnd::Exited {
        success,
        stdout: out.as_bytes().to_vec(),
        stderr: err.as_bytes().to_vec(),
    };
    assert_eq!(run_installer(ended(true, "a\nb\n", "x")), Ok("a\nb\n".to_string()));
    assert_eq!(run_installer(ended(false, "a\nb\r\n", "x")), Ok("b".to_string()));
    assert_eq!(run_installer(ended(false, "", " x ")), Err("installer exited: x".to_string()));
    assert_eq!(run_installer(ended(false, "", "  ")), Err("installer exited: ".to_string()));
    let broken = InstallerEnd::Exited { success: true, stdout: vec![0x61, 0xff], stderr: vec![] };
    assert_eq!(run_installer(broken), Ok("a\u{fffd}".to_string()));
    assert_eq!(
        run_installer(InstallerEnd::NotStarted("e".to_string())),
        Err("cannot start installer: e".to_string())
    );
    assert_eq!(
        run_installer(InstallerEnd::NotWaited("e".to_string())),
        Err("installer wait failed: e".to_string())
    );
}

#[test]
fn read_installed_version_parses_json() {
    let mut disk = Disk::new();
    disk.learn(
        "/rt/.installed.json".to_string(),
        FileState::Text(r#"{"version":"1.2.3-rc.1","source":"baseline"}"#.to_string()),
    );
    assert_eq!(read_installed_version(Os::Linux, &disk, "/rt").as_deref(), Some("1.2.3-rc.1"));
}

#[test]
fn read_installed_version_missing_file_returns_none() {
    let disk = Disk::new();
    assert_eq!(read_installed_version(Os::Linux, &disk, "/rt"), None);
}

#[test]
fn read_installed_version_bad_json_returns_none() {
    let mut disk = Disk::new();
    disk.learn("/rt/.installed.json".to_string(), FileState::Text("not json".to_string()));
    assert_eq!(read_installed_version(Os::Linux, &disk, "/rt"), None);
}

#[test]
fn parse_installer_output_new_version() {
    let r = parse_installer_output(
        "log line\n{\"ok\":true,\"action\":\"new-version-available\",\"version\":\"1.5.0\",\"current\":\"1.4.0\",\"dir\":\"x\",\"source\":\"npmjs\"}",
    );
    assert!(r.ok);
    assert_eq!(r.action, "new-version-available");
    assert_eq!(r.version.as_deref(), Some("1.5.0"));
    assert_eq!(r.current.as_deref(), Some("1.4.0"));
}

#[test]
fn parse_installer_output_error() {
    let r = parse_installer_output(
        "{\"ok\":false,\"error\":{\"kind\":\"network\",\"message\":\"暂时无法检查更新\",\"detail\":\"both registries unreachable\"}}",
    );
    assert!(!r.ok);
    assert_eq!(r.message.as_deref(), Some("暂时无法检查更新"));
    assert_eq!(r.detail.as_deref(), Some("both registries unreachable"));
}

#[test]
fn parse_installer_output_garbage_returns_defaults() {
    let r = parse_installer_output("not json at all");
    assert!(!r.ok);
    assert!(r.action.is_empty());
    assert!(r.version.is_none());
    let r = parse_installer_output("");
    assert!(!r.ok && r.message.is_none());
}

#[test]
fn parse_installer_output_reads_all_fields() {
    let r = parse_installer_output(
        "{\"ok\":true,\"action\":\"downloaded\",\"prerelease\":\"2.0.0-rc.1\",\"pre_available\":true,\"staging\":\"/st\",\"version\":3}",
    );
    assert!(r.ok && r.pre_available);
    assert_eq!(r.prerelease.as_deref(), Some("2.0.0-rc.1"));
    assert_eq!(r.staging.as_deref(), Some("/st"));
    assert_eq!(r.version, None);
}

#[test]
fn preparation_is_judged_by_the_last_line() {
    assert_eq!(check_prepared("x\n{\"ok\":true}", "f"), Ok(()));
    assert_eq!(check_prepared("{\"ok\":false}\nno json", "f"), Ok(()));
    assert_eq!(check_prepared("", "f"), Ok(()));
    assert_eq!(check_prepared("{\"ok\":false}", "f"), Err("f".to_string()));
    assert_eq!(
        check_prepared("{\"error\":{\"message\":\"m\"}}", "f"),
        Err("m".to_string())
    );
    assert_eq!(last_line("a\r\nb"), Some("b".to_string()));
    assert_eq!(last_line("a\r\n"), Some("a".to_string()));
    assert_eq!(last_line(""), None);
}

#[test]
fn entry_file_of_dsh() {
    assert_eq!(
        dsh_bin(Os::Windows, r"C:\rt"),
        r"C:\rt\node_modules\@deepseek-ai\dsh\lib\bin.js"
    );
}

#[test]
fn an_installer_may_run_for_45_minutes() {
    assert_eq!(INSTALLER_TIMEOUT, 45 * 60 * 1000);
    assert_eq!(installer_step(false, INSTALLER_TIMEOUT - 1), InstallerNext::Wait);
    assert_eq!(installer_step(false, INSTALLER_TIMEOUT), InstallerNext::TimeOut);
    assert_eq!(installer_step(true, 0), InstallerNext::Cancel);
}
