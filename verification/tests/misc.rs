use dsh_desktop::config::ConfigStore;
use dsh_desktop::json::{parse_json, print_compact, print_json, reads_back, Json};
use dsh_desktop::logging::{log_line, FileLogger};
use dsh_desktop::paths::{Arch, Os};
use dsh_desktop::pnpm_forwarder::{resolve, resolve_questions};
use dsh_desktop::settings::{
    get_service_state, get_settings, open_log_dir, open_workspace_dir, set_autostart,
    unknown_service_state,
};
use dsh_desktop::state::{AppState, BootPhase};
use dsh_desktop::serviceout::ServiceCapture;
use dsh_desktop::winproc::{command_line, creation_flags, quote_arg};

fn new_state() -> AppState {
    AppState::new(ConfigStore::new(Os::Linux, "", None))
}

/// Splits a command line as a program of Windows does.
fn split(line: &str) -> Vec<String> {
    let mut out = Vec::new();
    let mut chars = line.chars().peekable();
    while chars.peek().is_some() {
        let mut arg = String::new();
        let mut inside = false;
        let mut slashes = 0;
        while let Some(c) = chars.next() {
            if c == '\\' {
                slashes += 1;
                continue;
            }
            if c == '"' {
                arg.push_str(&"\\".repeat(slashes / 2));
                if slashes % 2 == 1 {
                    arg.push('"');
                } else {
                    inside = !inside;
                }
                slashes = 0;
                continue;
            }
            arg.push_str(&"\\".repeat(slashes));
            slashes = 0;
            if !inside && (c == ' ' || c == '\t') {
                break;
            }
            arg.push(c);
        }
        arg.push_str(&"\\".repeat(slashes));
        out.push(arg);
    }
    out
}

#[test]
fn arguments_are_quoted() {
    assert_eq!(quote_arg("plain"), "plain");
    assert_eq!(quote_arg(""), "\"\"");
    assert_eq!(quote_arg("a b"), "\"a b\"");
    assert_eq!(quote_arg(r#"a"b"#), r#""a\"b""#);
    assert_eq!(quote_arg(r"C:\x y\"), r#""C:\x y\\""#);
    assert_eq!(quote_arg(r"C:\x\"), r"C:\x\");
    assert_eq!(quote_arg(r#"\\"q"#), r#""\\\\\"q""#);
}

#[test]
fn arguments_are_read_back() {
    let args = ["", "a b", r#"\"x"#, r"end\", r"C:\dir with space\", "\ttab", r#"""\"#];
    let list: Vec<String> = args.iter().map(|s| s.to_string()).collect();
    let line = command_line(r"C:\p f\node.exe", &list);
    let mut wanted = vec![r"C:\p f\node.exe".to_string()];
    wanted.extend(list);
    assert_eq!(split(&line), wanted);
    assert_eq!(command_line("node", &[]), "node");
}

#[test]
fn processes_are_created_with_flags() {
    let f = creation_flags(true, false, false, true);
    assert!(f.new_console && f.unicode_environment && f.suspended && f.inherit_handles);
    assert!(!f.new_process_group);
    assert!(!creation_flags(false, true, false, false).inherit_handles);
}

#[test]
fn launcher_finds_its_bundle() {
    let exe = || Ok("/app/bin/pnpm");
    let asked = resolve_questions(Os::Linux, Arch::X64, None, exe());
    assert!(!asked.is_empty());
    assert_eq!(asked.len() % 3, 0);
    assert!(resolve(Os::Linux, Arch::X64, &[], None, exe()).is_err());
    let node_only = vec![asked[0].clone()];
    assert!(resolve(Os::Linux, Arch::X64, &node_only, None, exe()).is_err());
    let both = vec![asked[0].clone(), asked[2].clone()];
    let (root, node, entry) = resolve(Os::Linux, Arch::X64, &both, None, exe()).unwrap();
    assert_eq!(node, asked[0]);
    assert_eq!(entry, asked[2]);
    assert!(node.starts_with(&root));
    let first = vec![asked[0].clone(), asked[1].clone(), asked[2].clone()];
    assert_eq!(resolve(Os::Linux, Arch::X64, &first, None, exe()).unwrap().2, asked[1]);
    let given = resolve_questions(Os::Linux, Arch::X64, Some("/over"), exe());
    assert!(given[0].starts_with("/over/"));
    assert!(resolve(Os::Linux, Arch::X64, &[], None, Err("no exe")).is_err());
    assert!(resolve_questions(Os::Linux, Arch::X64, None, Err("no exe")).is_empty());
}

#[test]
fn large_logs_are_put_aside() {
    let logger = FileLogger::new();
    assert_eq!(logger.max_bytes, 2_097_152);
    let plan = logger.init(Os::Linux, "/l/app.log", Some(2_097_153));
    assert_eq!(plan.directory.as_deref(), Some("/l"));
    assert_eq!(plan.aside.as_deref(), Some("/l/app.log.old"));
    assert_eq!(logger.init(Os::Linux, "/l/app.log", Some(2_097_152)).aside, None);
    assert_eq!(logger.init(Os::Linux, "/l/app.log", None).aside, None);
    assert_eq!(log_line("INFO", "dsh", "hello"), "[INFO] dsh: hello");
}

#[test]
fn settings_page() {
    let mut s = new_state();
    assert_eq!(open_workspace_dir(&s), Err("工作区尚未初始化".to_string()));
    assert_eq!(open_log_dir(Os::Linux, &s), Err("无法确定日志位置".to_string()));
    s.set_workspace_dir("/w".to_string());
    s.set_log_file("/l/app.log".to_string());
    s.set_phase(BootPhase::Ready);
    assert_eq!(open_workspace_dir(&s), Ok("/w".to_string()));
    assert_eq!(open_log_dir(Os::Linux, &s), Ok("/l".to_string()));
    let d = get_settings(&s, "0.1.9".to_string(), None, None, true, Ok(true)).unwrap();
    assert!(!d.service_running, "there is no port yet");
    assert!(d.autostart_enabled);
    s.set_port(3080);
    let d = get_settings(&s, "0.1.9".to_string(), Some("v24".to_string()), None, true, Ok(false))
        .unwrap();
    assert!(d.service_running && !d.autostart_enabled);
    assert_eq!(d.port, 3080);
    assert_eq!(d.log_file, "/l/app.log");
    assert_eq!(d.node_version.as_deref(), Some("v24"));
    assert_eq!(
        get_settings(&s, String::new(), None, None, true, Err("e".to_string())).unwrap_err(),
        "读取开机启动设置失败: e"
    );
    assert!(get_service_state(&s, true).service_running);
    assert!(!get_service_state(&s, false).service_running);
    assert_eq!(unknown_service_state().error.as_deref(), Some("状态读取失败"));
    assert_eq!(set_autostart(true, Ok(())), Ok(()));
    assert_eq!(
        set_autostart(true, Err("e".to_string())),
        Err("开启开机启动失败: e".to_string())
    );
    assert_eq!(
        set_autostart(false, Err("e".to_string())),
        Err("关闭开机启动失败: e".to_string())
    );
}

#[test]
fn json_text() {
    let j = parse_json(" {\"a\": [1, 2.5, \"é\\n\"], \"b\": null} ").unwrap();
    assert_eq!(print_compact(&j), "{\"a\":[1,2.5,\"é\\n\"],\"b\":null}");
    assert_eq!(
        print_json(&j).unwrap(),
        "{\n  \"a\": [\n    1,\n    2.5,\n    \"é\\n\"\n  ],\n  \"b\": null\n}"
    );
    assert!(parse_json("{").is_err());
    assert!(matches!(parse_json("true"), Ok(Json::Bool(true))));
    assert!(matches!(parse_json("null"), Ok(Json::Null)));
}

#[test]
fn json_is_read_back() {
    let text = "{\"a\":[0,-9223372036854775808,18446744073709551615],\"b\":{\"c\":null}}";
    let j = parse_json(text).unwrap();
    assert!(reads_back(&j));
    let again = parse_json(&print_json(&j).unwrap()).unwrap();
    assert_eq!(print_compact(&again), text);
    for float in ["2.5", "-0", "18446744073709551616"] {
        assert!(!reads_back(&parse_json(&format!("[{}]", float)).unwrap()));
    }
    let deep = |n: usize| {
        let mut j = Json::Null;
        for _ in 0..n {
            j = Json::Array(vec![j]);
        }
        j
    };
    assert!(reads_back(&deep(127)));
    assert!(parse_json(&print_json(&deep(127)).unwrap()).is_ok());
    assert!(!reads_back(&deep(128)));
    assert!(parse_json(&print_json(&deep(128)).unwrap()).is_err());
}

#[test]
fn bytes_that_are_no_text_are_replaced() {
    let mut capture = ServiceCapture::new(100);
    capture.push_bytes(b"a\xffb");
    capture.push_bytes("日本".as_bytes());
    assert_eq!(capture.text(), "a\u{fffd}b日本");
}
