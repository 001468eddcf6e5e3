//! The node executable that comes with the application, and the installer that it runs.
use crate::disk;
use crate::disk::Disk;
use crate::json;
use crate::json::{Json, JsonView, parse_json, text_of};
use crate::paths;
use crate::paths::{Arch, Os, join_path, normalize_for_node};
use crate::plugins::plugin_profile;
use crate::text;
use crate::text::{cat, cat3, chars, from_utf8_lossy, same, split_lines, string_of, trimmed};
use vstd::prelude::*;

verus! {

/// The directory of the node executable for a platform.
pub open spec fn platform_dir(os: Os, arch: Arch) -> Seq<char> {
    match os {
        Os::Windows => "win-x64"@,
        Os::MacOs => if arch == Arch::Aarch64 {
            "mac-arm64"@
        } else {
            "mac-x64"@
        },
        Os::Linux => if arch == Arch::Aarch64 {
            "linux-arm64"@
        } else {
            "linux-x64"@
        },
    }
}

/// Where the node executable lies, relative to the resources.
pub open spec fn node_place(os: Os, arch: Arch) -> Seq<char> {
    paths::joined_path(
        os,
        paths::joined_path(os, "node"@, platform_dir(os, arch)),
        if os == Os::Windows {
            "node.exe"@
        } else {
            "node"@
        },
    )
}

/// Where the node executable lies, relative to the resources.
pub fn node_rel_path(os: Os, arch: Arch) -> (r: String)
    ensures
        r@ == node_place(os, arch),
{
    let platform = match os {
        Os::Windows => "win-x64",
        Os::MacOs => if arch == Arch::Aarch64 {
            "mac-arm64"
        } else {
            "mac-x64"
        },
        Os::Linux => if arch == Arch::Aarch64 {
            "linux-arm64"
        } else {
            "linux-x64"
        },
    };
    let exe = if os == Os::Windows {
        "node.exe"
    } else {
        "node"
    };
    join_path(os, join_path(os, "node", platform).as_str(), exe)
}

/// The node executable under the resources, where it is there.
pub fn resolve_node(os: Os, arch: Arch, disk: &Disk, resource_dir: &str) -> (r: Result<
    String,
    String,
>)
    ensures
        ({
            let path = paths::joined_path(os, resource_dir@, node_place(os, arch));
            if disk::present(disk@, path) {
                r is Ok && r->Ok_0@ == path
            } else {
                r is Err && r->Err_0@ == "bundled node not found: "@ + path
            }
        }),
{
    let path = join_path(os, resource_dir, node_rel_path(os, arch).as_str());
    if disk.is_there(path.as_str()) {
        Ok(path)
    } else {
        Err(cat("bundled node not found: ", path.as_str()))
    }
}

/// How a trial run of the node executable ended.
#[derive(Debug)]
pub enum SmokeEnd {
    /// It could not be started, for this reason.
    NotRun(String),
    /// It ran and printed this.
    Exited { success: bool, stdout: Vec<u8>, stderr: Vec<u8> },
}

/// The version that a trial run of the node executable has printed.
pub fn smoke(node: &str, end: SmokeEnd) -> (r: Result<String, String>)
    ensures
        match end {
            SmokeEnd::NotRun(e) => r is Err && r->Err_0@ == "cannot execute node "@ + node@ + ": "@
                + e@,
            SmokeEnd::Exited { success, stdout, stderr } => if !success {
                r is Err && r->Err_0@ == "node --version failed: "@ + text::trim(text::utf8_lossy(stderr@))
            } else if text::trim(text::utf8_lossy(stdout@)).len() == 0 {
                r is Err && r->Err_0@ == "node --version returned empty"@
            } else {
                r is Ok && r->Ok_0@ == text::trim(text::utf8_lossy(stdout@))
            },
        },
{
    match end {
        SmokeEnd::NotRun(e) => Err(
            cat(cat3("cannot execute node ", node, ": ").as_str(), e.as_str()),
        ),
        SmokeEnd::Exited { success, stdout, stderr } => {
            if !success {
                let text = trimmed(from_utf8_lossy(stderr.as_slice()).as_str());
                return Err(cat("node --version failed: ", text.as_str()));
            }
            let v = trimmed(from_utf8_lossy(stdout.as_slice()).as_str());
            if chars(v.as_str()).len() == 0 {
                return Err("node --version returned empty".to_owned());
            }
            Ok(v)
        },
    }
}

/// How the installer is started.
#[derive(Debug)]
pub struct InstallerRun {
    pub program: String,
    pub args: Vec<String>,
}

impl InstallerRun {
    /// Whether this starts the installer with arguments.
    pub open spec fn starts(
        self,
        os: Os,
        node: Seq<char>,
        installer: Seq<char>,
        args: Seq<Seq<char>>,
    ) -> bool {
        &&& self.program@ == paths::plain_path(os, node)
        &&& text::strs(self.args@) == seq![paths::plain_path(os, installer)] + args
    }
}

fn installer_run(os: Os, node: &str, installer_js: &str, args: Vec<String>) -> (r: InstallerRun)
    ensures
        r.starts(os, node@, installer_js@, text::strs(args@)),
{
    let mut full: Vec<String> = Vec::new();
    full.push(normalize_for_node(os, installer_js));
    let ghost head = full@;
    let ghost given = args@;
    let mut rest = args;
    full.append(&mut rest);
    assert(text::strs(full@) =~= text::strs(head) + text::strs(given));
    assert(text::strs(head) =~= seq![paths::plain_path(os, installer_js@)]);
    InstallerRun { program: normalize_for_node(os, node), args: full }
}

/// How the installer is started to prepare a runtime from what comes with the application.
pub fn run_prepare(os: Os, node: &str, installer_js: &str, target: &str, baseline: &str) -> (r:
    InstallerRun)
    ensures
        r.starts(
            os,
            node@,
            installer_js@,
            seq![
                "prepare"@,
                "--target"@,
                paths::plain_path(os, target@),
                "--baseline"@,
                paths::plain_path(os, baseline@),
            ],
        ),
{
    let mut args: Vec<String> = Vec::new();
    args.push("prepare".to_owned());
    args.push("--target".to_owned());
    args.push(normalize_for_node(os, target));
    args.push("--baseline".to_owned());
    args.push(normalize_for_node(os, baseline));
    assert(text::strs(args@) =~= seq![
        "prepare"@,
        "--target"@,
        paths::plain_path(os, target@),
        "--baseline"@,
        paths::plain_path(os, baseline@),
    ]);
    installer_run(os, node, installer_js, args)
}

/// The arguments that choose a registry and its mirror, where one is chosen.
pub open spec fn registry_choice(source: Seq<char>) -> Seq<Seq<char>> {
    if source == "npmjs"@ {
        seq![
            "--registry"@,
            "https://registry.npmjs.org"@,
            "--mirror"@,
            "https://registry.npmjs.org"@,
        ]
    } else if source == "npmmirror"@ {
        seq![
            "--registry"@,
            "https://registry.npmmirror.com"@,
            "--mirror"@,
            "https://registry.npmmirror.com"@,
        ]
    } else {
        Seq::empty()
    }
}

fn registry_args(source: &str) -> (r: Vec<String>)
    ensures
        text::strs(r@) == registry_choice(source@),
{
    let mut out: Vec<String> = Vec::new();
    if same(source, "npmjs") {
        out.push("--registry".to_owned());
        out.push("https://registry.npmjs.org".to_owned());
        out.push("--mirror".to_owned());
        out.push("https://registry.npmjs.org".to_owned());
    } else if same(source, "npmmirror") {
        out.push("--registry".to_owned());
        out.push("https://registry.npmmirror.com".to_owned());
        out.push("--mirror".to_owned());
        out.push("https://registry.npmmirror.com".to_owned());
    }
    assert(text::strs(out@) =~= registry_choice(source@));
    out
}

/// The arguments for a check or an update.
pub open spec fn version_args(
    os: Os,
    verb: Seq<char>,
    target: Seq<char>,
    source: Seq<char>,
    pre: bool,
) -> Seq<Seq<char>> {
    seq![verb, "--target"@, paths::plain_path(os, target)] + registry_choice(source) + (if pre {
        seq!["--pre"@]
    } else {
        Seq::empty()
    })
}

fn args_for(os: Os, verb: &str, target: &str, source: &str, pre: bool) -> (r: Vec<String>)
    ensures
        text::strs(r@) == version_args(os, verb@, target@, source@, pre),
{
    let mut args: Vec<String> = Vec::new();
    args.push(verb.to_owned());
    args.push("--target".to_owned());
    args.push(normalize_for_node(os, target));
    let ghost head = args@;
    let mut more = registry_args(source);
    let ghost chosen = more@;
    args.append(&mut more);
    if pre {
        args.push("--pre".to_owned());
    }
    assert(text::strs(head) =~= seq![verb@, "--target"@, paths::plain_path(os, target@)]);
    assert(text::strs(args@) =~= version_args(os, verb@, target@, source@, pre));
    args
}

/// How the installer is started to look for a new version.
pub fn run_check(
    os: Os,
    node: &str,
    installer_js: &str,
    target: &str,
    source: &str,
    pre: bool,
) -> (r: InstallerRun)
    ensures
        r.starts(os, node@, installer_js@, version_args(os, "check"@, target@, source@, pre)),
{
    installer_run(os, node, installer_js, args_for(os, "check", target, source, pre))
}

/// How the installer is started to download a new version.
pub fn run_update(
    os: Os,
    node: &str,
    installer_js: &str,
    target: &str,
    source: &str,
    pre: bool,
) -> (r: InstallerRun)
    ensures
        r.starts(os, node@, installer_js@, version_args(os, "update"@, target@, source@, pre)),
{
    installer_run(os, node, installer_js, args_for(os, "update", target, source, pre))
}

/// How the installer is started to put a downloaded version in place.
pub fn run_swap(os: Os, node: &str, installer_js: &str, target: &str, staging: &str) -> (r:
    InstallerRun)
    ensures
        r.starts(
            os,
            node@,
            installer_js@,
            seq![
                "swap"@,
                "--target"@,
                paths::plain_path(os, target@),
                "--staging"@,
                paths::plain_path(os, staging@),
            ],
        ),
{
    let mut args: Vec<String> = Vec::new();
    args.push("swap".to_owned());
    args.push("--target".to_owned());
    args.push(normalize_for_node(os, target));
    args.push("--staging".to_owned());
    args.push(normalize_for_node(os, staging));
    assert(text::strs(args@) =~= seq![
        "swap"@,
        "--target"@,
        paths::plain_path(os, target@),
        "--staging"@,
        paths::plain_path(os, staging@),
    ]);
    installer_run(os, node, installer_js, args)
}

/// How long the installer may run, in milliseconds.
pub const INSTALLER_TIMEOUT: u64 = 2_700_000;

/// What is to be done about an installer that is running.
#[derive(Debug, Clone, Copy, PartialEq, Eq, Structural)]
pub enum InstallerNext {
    /// Look again a little later.
    Wait,
    /// End it, because the user has called it off.
    Cancel,
    /// End it, because it has taken too long.
    TimeOut,
}

/// What is to be done about an installer that has been running for `elapsed` milliseconds, where
/// the user has called it off or has not.
pub fn installer_step(cancelled: bool, elapsed: u64) -> (r: InstallerNext)
    ensures
        r == (if cancelled {
            InstallerNext::Cancel
        } else if elapsed >= INSTALLER_TIMEOUT {
            InstallerNext::TimeOut
        } else {
            InstallerNext::Wait
        }),
{
    if cancelled {
        InstallerNext::Cancel
    } else if elapsed >= INSTALLER_TIMEOUT {
        InstallerNext::TimeOut
    } else {
        InstallerNext::Wait
    }
}

/// How a run of the installer ended.
#[derive(Debug)]
pub enum InstallerEnd {
    /// It could not be started, for this reason.
    NotStarted(String),
    /// Waiting for it failed, for this reason.
    NotWaited(String),
    /// It ran and printed this.
    Exited { success: bool, stdout: Vec<u8>, stderr: Vec<u8> },
}

/// What a run of the installer has brought: all that it printed, or the last line of it where
/// it failed.
pub open spec fn installer_output(end: InstallerEnd) -> Result<Seq<char>, Seq<char>> {
    match end {
        InstallerEnd::NotStarted(e) => Err("cannot start installer: "@ + e@),
        InstallerEnd::NotWaited(e) => Err("installer wait failed: "@ + e@),
        InstallerEnd::Exited { success, stdout, stderr } => {
            let out = text::utf8_lossy(stdout@);
            let err = text::trim(text::utf8_lossy(stderr@));
            if success {
                Ok(out)
            } else if text::lines(out).len() > 0 {
                Ok(text::lines(out).last())
            } else {
                Err("installer exited: "@ + (if err.len() == 0 {
                    text::trim(out)
                } else {
                    err
                }))
            }
        },
    }
}

/// The last line of a text, where it has one.
pub open spec fn last_line_of(s: Seq<char>) -> Option<Seq<char>> {
    if text::lines(s).len() > 0 {
        Some(text::lines(s).last())
    } else {
        None
    }
}

/// The last line of a text, where it has one.
pub fn last_line(text: &str) -> (r: Option<String>)
    ensures
        text::opt(r) == last_line_of(text@),
{
    let s = chars(text);
    let ls = split_lines(s.as_slice());
    assert(text::char_vecs(ls@).len() == ls@.len());
    if ls.len() > 0 {
        assert(text::char_vecs(ls@).last() == ls@[ls@.len() - 1]@);
        Some(string_of(ls[ls.len() - 1].as_slice()))
    } else {
        None
    }
}

/// What a run of the installer has brought.
pub fn run_installer(end: InstallerEnd) -> (r: Result<String, String>)
    ensures
        match r {
            Ok(s) => installer_output(end) == Ok::<Seq<char>, Seq<char>>(s@),
            Err(e) => installer_output(end) == Err::<Seq<char>, Seq<char>>(e@),
        },
        end matches InstallerEnd::Exited { success: true, stdout, .. } ==> (vstd::utf8::valid_utf8(
            stdout@,
        ) ==> r is Ok && r->Ok_0@ == vstd::utf8::decode_utf8(stdout@)),
{
    match end {
        InstallerEnd::NotStarted(e) => Err(cat("cannot start installer: ", e.as_str())),
        InstallerEnd::NotWaited(e) => Err(cat("installer wait failed: ", e.as_str())),
        InstallerEnd::Exited { success, stdout, stderr } => {
            let out = from_utf8_lossy(stdout.as_slice());
            if success {
                return Ok(out);
            }
            match last_line(out.as_str()) {
                Some(line) => Ok(line),
                None => {
                    let err = trimmed(from_utf8_lossy(stderr.as_slice()).as_str());
                    let text = if chars(err.as_str()).len() == 0 {
                        trimmed(out.as_str())
                    } else {
                        err
                    };
                    Err(cat("installer exited: ", text.as_str()))
                },
            }
        },
    }
}

/// The file that says what is installed in a runtime.
pub open spec fn installed_file(os: Os, runtime: Seq<char>) -> Seq<char> {
    paths::joined_path(os, runtime, ".installed.json"@)
}

/// The file that says what is installed in a runtime.
pub fn installed_question(os: Os, runtime_dir: &str) -> (r: String)
    ensures
        r@ == installed_file(os, runtime_dir@),
{
    join_path(os, runtime_dir, ".installed.json")
}

/// The version that is installed in a runtime.
pub fn read_installed_version(os: Os, disk: &Disk, runtime_dir: &str) -> (r: Option<String>)
    ensures
        text::opt(r) == match plugin_profile::json_at(disk@, installed_file(os, runtime_dir@)) {
            Some(v) => json::as_text(json::member(v, "version"@)),
            None => None,
        },
{
    match disk.read(installed_question(os, runtime_dir).as_str()) {
        Ok(text) => match parse_json(text.as_str()) {
            Ok(v) => text_of(v.get("version")),
            Err(_) => None,
        },
        Err(_) => None,
    }
}

/// The entry file of DSH in a runtime.
pub open spec fn bin_of(os: Os, runtime: Seq<char>) -> Seq<char> {
    paths::joined_path(
        os,
        paths::joined_path(
            os,
            paths::joined_path(
                os,
                paths::joined_path(os, paths::joined_path(os, runtime, "node_modules"@), "@deepseek-ai"@),
                "dsh"@,
            ),
            "lib"@,
        ),
        "bin.js"@,
    )
}

/// The entry file of DSH in a runtime.
pub fn dsh_bin(os: Os, runtime_dir: &str) -> (r: String)
    ensures
        r@ == bin_of(os, runtime_dir@),
{
    let modules = join_path(os, runtime_dir, "node_modules");
    let scope = join_path(os, modules.as_str(), "@deepseek-ai");
    let dsh = join_path(os, scope.as_str(), "dsh");
    let lib = join_path(os, dsh.as_str(), "lib");
    join_path(os, lib.as_str(), "bin.js")
}

/// What the installer reports.
#[derive(Debug)]
pub struct InstallerResult {
    pub ok: bool,
    pub action: String,
    pub version: Option<String>,
    pub prerelease: Option<String>,
    pub pre_available: bool,
    pub current: Option<String>,
    pub staging: Option<String>,
    pub message: Option<String>,
    pub detail: Option<String>,
}

/// What the installer reports, with texts as characters.
#[verifier::ext_equal]
pub struct ReportView {
    pub ok: bool,
    pub action: Seq<char>,
    pub version: Option<Seq<char>>,
    pub prerelease: Option<Seq<char>>,
    pub pre_available: bool,
    pub current: Option<Seq<char>>,
    pub staging: Option<Seq<char>>,
    pub message: Option<Seq<char>>,
    pub detail: Option<Seq<char>>,
}

impl View for InstallerResult {
    type V = ReportView;

    open spec fn view(&self) -> ReportView {
        ReportView {
            ok: self.ok,
            action: self.action@,
            version: text::opt(self.version),
            prerelease: text::opt(self.prerelease),
            pre_available: self.pre_available,
            current: text::opt(self.current),
            staging: text::opt(self.staging),
            message: text::opt(self.message),
            detail: text::opt(self.detail),
        }
    }
}

/// A report that says nothing.
pub open spec fn blank_report() -> ReportView {
    ReportView {
        ok: false,
        action: Seq::empty(),
        version: None,
        prerelease: None,
        pre_available: false,
        current: None,
        staging: None,
        message: None,
        detail: None,
    }
}

impl Default for InstallerResult {
    fn default() -> (r: Self)
        ensures
            r@ == blank_report(),
    {
        let r = InstallerResult {
            ok: false,
            action: String::new(),
            version: None,
            prerelease: None,
            pre_available: false,
            current: None,
            staging: None,
            message: None,
            detail: None,
        };
        assert(r@ =~= blank_report());
        r
    }
}

/// The report that a JSON value makes.
pub open spec fn report_in(v: JsonView) -> ReportView {
    ReportView {
        ok: json::as_truth(json::member(v, "ok"@)) == Some(true),
        action: match json::as_text(json::member(v, "action"@)) {
            Some(s) => s,
            None => Seq::empty(),
        },
        version: json::as_text(json::member(v, "version"@)),
        prerelease: json::as_text(json::member(v, "prerelease"@)),
        pre_available: json::as_truth(json::member(v, "pre_available"@)) == Some(true),
        current: json::as_text(json::member(v, "current"@)),
        staging: json::as_text(json::member(v, "staging"@)),
        message: json::as_text(json::at_path(v, seq!["error"@, "message"@])),
        detail: json::as_text(json::at_path(v, seq!["error"@, "detail"@])),
    }
}

/// The report in what the installer printed: the JSON of its last line, or a blank one.
pub open spec fn report_of(out: Seq<char>) -> ReportView {
    match last_line_of(out) {
        Some(line) => match json::json_parsed(line) {
            Ok(v) => report_in(v),
            Err(_) => blank_report(),
        },
        None => blank_report(),
    }
}

fn is_true(v: Option<&Json>) -> (r: bool)
    ensures
        r == (json::as_truth(
            match v {
                Some(j) => Some(j@),
                None => None,
            },
        ) == Some(true)),
{
    match v {
        Some(j) => match j.as_bool() {
            Some(b) => b,
            None => false,
        },
        None => false,
    }
}

/// The report that a JSON value makes.
pub fn read_report(json: &Json) -> (r: InstallerResult)
    ensures
        r@ == report_in(json@),
{
    let message_path: Vec<&str> = vec!["error", "message"];
    let detail_path: Vec<&str> = vec!["error", "detail"];
    assert(json::slices(message_path@) =~= seq!["error"@, "message"@]);
    assert(json::slices(detail_path@) =~= seq!["error"@, "detail"@]);
    let action = match text_of(json.get("action")) {
        Some(s) => s,
        None => String::new(),
    };
    let r = InstallerResult {
        ok: is_true(json.get("ok")),
        action,
        version: text_of(json.get("version")),
        prerelease: text_of(json.get("prerelease")),
        pre_available: is_true(json.get("pre_available")),
        current: text_of(json.get("current")),
        staging: text_of(json.get("staging")),
        message: text_of(json.pointer(message_path.as_slice())),
        detail: text_of(json.pointer(detail_path.as_slice())),
    };
    assert(r@ =~= report_in(json@));
    r
}

/// The report in what the installer printed.
pub fn parse_installer_output(out: &str) -> (r: InstallerResult)
    ensures
        r@ == report_of(out@),
{
    match last_line(out) {
        Some(line) => match parse_json(line.as_str()) {
            Ok(json) => read_report(&json),
            Err(_) => InstallerResult::default(),
        },
        None => InstallerResult::default(),
    }
}

/// What a preparation has come to, by the last line that the installer printed: a line that is
/// JSON and does not say that all is well is a failure, with the message that it gives or
/// `fallback`. A line that is no JSON says nothing.
pub open spec fn prepared(out: Seq<char>, fallback: Seq<char>) -> Result<(), Seq<char>> {
    match last_line_of(out) {
        Some(line) => match json::json_parsed(line) {
            Ok(v) => if report_in(v).ok {
                Ok(())
            } else {
                Err(
                    match report_in(v).message {
                        Some(m) => m,
                        None => fallback,
                    },
                )
            },
            Err(_) => Ok(()),
        },
        None => Ok(()),
    }
}

/// What a preparation has come to, by what the installer printed.
pub fn check_prepared(out: &str, fallback: &str) -> (r: Result<(), String>)
    ensures
        match r {
            Ok(_) => prepared(out@, fallback@) == Ok::<(), Seq<char>>(()),
            Err(e) => prepared(out@, fallback@) == Err::<(), Seq<char>>(e@),
        },
{
    match last_line(out) {
        Some(line) => match parse_json(line.as_str()) {
            Ok(json) => {
                let report = read_report(&json);
                if report.ok {
                    return Ok(());
                }
                match report.message {
                    Some(m) => Err(m),
                    None => Err(fallback.to_owned()),
                }
            },
            Err(_) => Ok(()),
        },
        None => Ok(()),
    }
}

/// What the installer reports stands in the last line that it printed: each of its values is the one
/// under that name, where it is of the right kind. A last line that is no JSON, or none, reports
/// nothing and no success.
pub proof fn report_is_the_last_line(out: &str, line: Seq<char>, v: JsonView, r: InstallerResult)
    requires
        call_ensures(parse_installer_output, (out,), r),
    ensures
        text::lines(out@).len() == 0 ==> !r.ok && r@.version is None && r@.action.len() == 0,
        text::lines(out@).len() > 0 && text::lines(out@).last() == line && json::json_parsed(
            line,
        ) is Err ==> !r.ok && r@.version is None && r@.action.len() == 0 && r@.staging is None,
        text::lines(out@).len() > 0 && text::lines(out@).last() == line && json::json_parsed(line)
            == Ok::<JsonView, Seq<char>>(v) ==> {
            &&& r.ok <==> json::member(v, "ok"@) == Some(JsonView::Bool(true))
            &&& r.pre_available <==> json::member(v, "pre_available"@) == Some(
                JsonView::Bool(true),
            )
            &&& json::member(v, "action"@) matches Some(JsonView::Str(s)) ==> r.action@ == s
            &&& json::member(v, "version"@) matches Some(JsonView::Str(s)) ==> r@.version == Some(s)
            &&& json::member(v, "version"@) is None ==> r.version is None
            &&& json::member(v, "prerelease"@) matches Some(JsonView::Str(s)) ==> r@.prerelease
                == Some(s)
            &&& json::member(v, "prerelease"@) is None ==> r.prerelease is None
            &&& json::member(v, "current"@) matches Some(JsonView::Str(s)) ==> r@.current == Some(s)
            &&& json::member(v, "current"@) is None ==> r.current is None
            &&& json::member(v, "staging"@) matches Some(JsonView::Str(s)) ==> r@.staging == Some(s)
            &&& json::member(v, "staging"@) is None ==> r.staging is None
            &&& json::member(v, "error"@) matches Some(e) ==> (json::member(
                e,
                "message"@,
            ) matches Some(JsonView::Str(s)) ==> r@.message == Some(s))
            &&& json::member(v, "error"@) matches Some(e) ==> (json::member(
                e,
                "detail"@,
            ) matches Some(JsonView::Str(s)) ==> r@.detail == Some(s))
            &&& json::member(v, "error"@) is None ==> r.message is None && r.detail is None
        },
{
    let message = seq!["error"@, "message"@];
    let detail = seq!["error"@, "detail"@];
    reveal_with_fuel(json::at_path, 4);
    assert(message.subrange(1, 2)[0] == "message"@);
    assert(detail.subrange(1, 2)[0] == "detail"@);
    assert(message.subrange(1, 2).subrange(1, 1).len() == 0);
    assert(detail.subrange(1, 2).subrange(1, 1).len() == 0);
}

/// A run of the installer that went well brings all that it printed, and one that failed the last
/// line of it; where it printed nothing, or could not be run, that is told, with the reason.
pub proof fn installer_brings_what_it_printed(end: InstallerEnd, r: Result<String, String>)
    requires
        call_ensures(run_installer, (end,), r),
    ensures
        end matches InstallerEnd::NotStarted(e) ==> r is Err && r->Err_0@
            == "cannot start installer: "@ + e@,
        end matches InstallerEnd::NotWaited(e) ==> r is Err && r->Err_0@
            == "installer wait failed: "@ + e@,
        end matches InstallerEnd::Exited { success, stdout, stderr } ==> ({
            let out = text::utf8_lossy(stdout@);
            &&& success ==> r is Ok && r->Ok_0@ == out
            &&& !success && text::lines(out).len() > 0 ==> r is Ok && r->Ok_0@ == text::lines(
                out,
            ).last()
            &&& !success && text::lines(out).len() == 0 ==> r is Err
            &&& !success && text::lines(out).len() == 0 && text::trim(
                text::utf8_lossy(stderr@),
            ).len() > 0 ==> r->Err_0@ == "installer exited: "@ + text::trim(
                text::utf8_lossy(stderr@),
            )
        }),
{
}

/// The installer is told what to do, where, and from which registry: the one that was chosen for
/// both the registry and its mirror, and none where the choice is left to it.
pub proof fn installer_is_told_the_registry(
    os: Os,
    node: &str,
    installer: &str,
    target: &str,
    source: &str,
    pre: bool,
    checks: InstallerRun,
    updates: InstallerRun,
)
    requires
        call_ensures(run_check, (os, node, installer, target, source, pre), checks),
        call_ensures(run_update, (os, node, installer, target, source, pre), updates),
    ensures
        checks.program@ == paths::plain_path(os, node@),
        updates.program@ == paths::plain_path(os, node@),
        checks.args@.len() >= 4,
        text::strs(checks.args@)[0] == paths::plain_path(os, installer@),
        text::strs(checks.args@)[1] == "check"@,
        text::strs(checks.args@)[2] == "--target"@,
        text::strs(checks.args@)[3] == paths::plain_path(os, target@),
        text::strs(updates.args@) == text::strs(checks.args@).update(1, "update"@),
        source@ == "npmjs"@ ==> checks.args@.len() >= 8 && text::strs(checks.args@)[4]
            == "--registry"@ && text::strs(checks.args@)[5] == "https://registry.npmjs.org"@
            && text::strs(checks.args@)[6] == "--mirror"@ && text::strs(checks.args@)[7]
            == "https://registry.npmjs.org"@,
        source@ == "npmmirror"@ ==> checks.args@.len() >= 8 && text::strs(checks.args@)[4]
            == "--registry"@ && text::strs(checks.args@)[5] == "https://registry.npmmirror.com"@
            && text::strs(checks.args@)[6] == "--mirror"@ && text::strs(checks.args@)[7]
            == "https://registry.npmmirror.com"@,
        source@ != "npmjs"@ && source@ != "npmmirror"@ ==> checks.args@.len() == (if pre {
            5int
        } else {
            4
        }),
        pre ==> text::strs(checks.args@).last() == "--pre"@,
        !pre && (source@ == "npmjs"@ || source@ == "npmmirror"@) ==> checks.args@.len() == 8,
{
    assert(text::strs(checks.args@).len() == checks.args@.len());
    assert(text::strs(updates.args@) =~= text::strs(checks.args@).update(1, "update"@));
    reveal_strlit("npmjs");
    reveal_strlit("npmmirror");
    assert("npmjs"@.len() != "npmmirror"@.len());
}

/// A runtime is prepared from what came with the program, and a download is put in place from where
/// it lies.
pub proof fn installer_is_told_the_directories(
    os: Os,
    node: &str,
    installer: &str,
    target: &str,
    other: &str,
    prepares: InstallerRun,
    swaps: InstallerRun,
)
    requires
        call_ensures(run_prepare, (os, node, installer, target, other), prepares),
        call_ensures(run_swap, (os, node, installer, target, other), swaps),
    ensures
        prepares.program@ == paths::plain_path(os, node@),
        swaps.program@ == paths::plain_path(os, node@),
        text::strs(prepares.args@) == seq![
            paths::plain_path(os, installer@),
            "prepare"@,
            "--target"@,
            paths::plain_path(os, target@),
            "--baseline"@,
            paths::plain_path(os, other@),
        ],
        text::strs(swaps.args@) == seq![
            paths::plain_path(os, installer@),
            "swap"@,
            "--target"@,
            paths::plain_path(os, target@),
            "--staging"@,
            paths::plain_path(os, other@),
        ],
{
    assert(text::strs(prepares.args@) =~= seq![
        paths::plain_path(os, installer@),
        "prepare"@,
        "--target"@,
        paths::plain_path(os, target@),
        "--baseline"@,
        paths::plain_path(os, other@),
    ]);
    assert(text::strs(swaps.args@) =~= seq![
        paths::plain_path(os, installer@),
        "swap"@,
        "--target"@,
        paths::plain_path(os, target@),
        "--staging"@,
        paths::plain_path(os, other@),
    ]);
}

/// A node executable works where it says a version, which is told without white space around it; a
/// failure tells what it said instead.
pub proof fn node_must_say_a_version(node: &str, end: SmokeEnd, r: Result<String, String>)
    requires
        call_ensures(smoke, (node, end), r),
    ensures
        r is Ok <==> end is Exited && end->success && text::trim(
            text::utf8_lossy(end->stdout@),
        ).len() > 0,
        r matches Ok(v) ==> v@ == text::trim(text::utf8_lossy(end->stdout@)),
        end matches SmokeEnd::NotRun(e) ==> r is Err && r->Err_0@ == "cannot execute node "@ + node@
            + ": "@ + e@,
        end is Exited && !end->success ==> r is Err && r->Err_0@ == "node --version failed: "@
            + text::trim(text::utf8_lossy(end->stderr@)),
{
}

/// The node executable is sought among the program files, in the directory for the platform.
pub proof fn node_lies_in_its_platform_directory(
    os: Os,
    arch: Arch,
    disk: &Disk,
    resources: &str,
    r: Result<String, String>,
)
    requires
        call_ensures(resolve_node, (os, arch, disk, resources), r),
    ensures
        ({
            let dir = match os {
                Os::Windows => "win-x64"@,
                Os::MacOs => if arch == Arch::Aarch64 {
                    "mac-arm64"@
                } else {
                    "mac-x64"@
                },
                Os::Linux => if arch == Arch::Aarch64 {
                    "linux-arm64"@
                } else {
                    "linux-x64"@
                },
            };
            let file = if os == Os::Windows {
                "node.exe"@
            } else {
                "node"@
            };
            let path = paths::joined_path(
                os,
                resources@,
                paths::joined_path(os, paths::joined_path(os, "node"@, dir), file),
            );
            &&& r is Ok <==> disk::present(disk@, path)
            &&& r matches Ok(p) ==> p@ == path
            &&& r matches Err(e) ==> e@ == "bundled node not found: "@ + path
        }),
{
}

/// The version that is installed is the one that the runtime's own file names.
pub proof fn installed_version_is_the_written_one(
    os: Os,
    disk: &Disk,
    runtime: &str,
    text: Seq<char>,
    v: JsonView,
    r: Option<String>,
)
    requires
        call_ensures(read_installed_version, (os, disk, runtime), r),
        disk::file_at(disk@, paths::joined_path(os, runtime@, ".installed.json"@))
            == disk::FileView::Text(text),
        json::json_parsed(text) == Ok::<JsonView, Seq<char>>(v),
    ensures
        json::member(v, "version"@) matches Some(JsonView::Str(s)) ==> r is Some && r->0@ == s,
        !(json::member(v, "version"@) matches Some(JsonView::Str(_))) ==> r is None,
{
}

/// The entry file of DSH lies in its package in the runtime.
pub proof fn entry_file_lies_in_the_package(os: Os, runtime: &str, r: String)
    requires
        call_ensures(dsh_bin, (os, runtime), r),
    ensures
        r@ == paths::joined_path(
            os,
            paths::joined_path(
                os,
                paths::joined_path(
                    os,
                    paths::joined_path(
                        os,
                        paths::joined_path(os, runtime@, "node_modules"@),
                        "@deepseek-ai"@,
                    ),
                    "dsh"@,
                ),
                "lib"@,
            ),
            "bin.js"@,
        ),
{
}

/// A run of the installer is called off where the user wants it, and ended where it takes longer than
/// it may; else it is waited for.
pub proof fn installer_is_waited_for(cancelled: bool, elapsed: u64, r: InstallerNext)
    requires
        call_ensures(installer_step, (cancelled, elapsed), r),
    ensures
        r is Cancel <==> cancelled,
        r is TimeOut <==> !cancelled && elapsed >= 2_700_000,
{
}

/// A preparation is refused just where the last line that the installer printed is a report of
/// failure; the reason is the one that it gives.
pub proof fn reported_failure_is_refused(
    out: &str,
    fallback: &str,
    line: Seq<char>,
    v: JsonView,
    r: Result<(), String>,
    last: Option<String>,
)
    requires
        call_ensures(check_prepared, (out, fallback), r),
        call_ensures(last_line, (out,), last),
        text::lines(out@).len() > 0,
        text::lines(out@).last() == line,
    ensures
        last is Some && last->0@ == line,
        json::json_parsed(line) is Err ==> r is Ok,
        json::json_parsed(line) == Ok::<JsonView, Seq<char>>(v) ==> (r is Ok <==> json::member(
            v,
            "ok"@,
        ) == Some(JsonView::Bool(true))),
        json::json_parsed(line) == Ok::<JsonView, Seq<char>>(v) && r is Err ==> r->Err_0@ == (
        match json::at_path(v, seq!["error"@, "message"@]) {
            Some(JsonView::Str(m)) => m,
            _ => fallback@,
        }),
{
}

} // verus!
