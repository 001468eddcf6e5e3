//! The start of the application, step by step: from the program files to a service that answers.
use crate::json;
use crate::json::JsonView;
use crate::node;
use crate::node::{check_prepared, dsh_bin, last_line};
use crate::paths;
use crate::paths::{Os, join_path};
use crate::service;
use crate::service::{BootIssue, IssueView, fail_to_boot_page, service_ready, service_url};
use crate::serviceout::FailureKind;
use crate::state::{AppState, BootPhase};
use crate::supervisor::Supervisor;
use crate::text;
use crate::text::{cat, cat3, holds};
use vstd::prelude::*;

verus! {

/// How far the start has come, and what is to be done next.
#[derive(Debug)]
pub enum Boot {
    /// The program files are to be located.
    Locating,
    /// The node executable is to be found among them.
    Resolving { resources: String },
    /// The node executable is to be tried.
    Testing { resources: String, node: String },
    /// The node executable is to be tried once more, after a pause.
    TestingAgain { resources: String, node: String, first: String },
    /// The data directory is to be located.
    LocatingData { resources: String },
    /// The runtime is to be prepared from what comes with the program.
    Preparing { resources: String, runtime: String },
    /// It is to be seen whether the entry file is there.
    CheckingBin { bin: String },
    /// The service is to be started.
    Starting { bin: String },
    /// The service is to be started again.
    Restarting { bin: String },
    /// The service is to announce its address.
    Announcing,
    /// The service is up at this address.
    Ready { url: String },
    /// The start has failed; this goes into the log.
    Failed { detail: String },
}

/// How far the start has come, with texts as characters.
pub enum BootView {
    Locating,
    Resolving { resources: Seq<char> },
    Testing { resources: Seq<char>, node: Seq<char> },
    TestingAgain { resources: Seq<char>, node: Seq<char>, first: Seq<char> },
    LocatingData { resources: Seq<char> },
    Preparing { resources: Seq<char>, runtime: Seq<char> },
    CheckingBin { bin: Seq<char> },
    Starting { bin: Seq<char> },
    Restarting { bin: Seq<char> },
    Announcing,
    Ready { url: Seq<char> },
    Failed { detail: Seq<char> },
}

impl View for Boot {
    type V = BootView;

    open spec fn view(&self) -> BootView {
        match self {
            Boot::Locating => BootView::Locating,
            Boot::Resolving { resources } => BootView::Resolving { resources: resources@ },
            Boot::Testing { resources, node } => BootView::Testing {
                resources: resources@,
                node: node@,
            },
            Boot::TestingAgain { resources, node, first } => BootView::TestingAgain {
                resources: resources@,
                node: node@,
                first: first@,
            },
            Boot::LocatingData { resources } => BootView::LocatingData { resources: resources@ },
            Boot::Preparing { resources, runtime } => BootView::Preparing {
                resources: resources@,
                runtime: runtime@,
            },
            Boot::CheckingBin { bin } => BootView::CheckingBin { bin: bin@ },
            Boot::Starting { bin } => BootView::Starting { bin: bin@ },
            Boot::Restarting { bin } => BootView::Restarting { bin: bin@ },
            Boot::Announcing => BootView::Announcing,
            Boot::Ready { url } => BootView::Ready { url: url@ },
            Boot::Failed { detail } => BootView::Failed { detail: detail@ },
        }
    }
}

/// What has come of a step of the start.
#[derive(Debug)]
pub enum BootEvent {
    /// Where the program files are.
    Located(Result<String, String>),
    /// Where the node executable is.
    Resolved(Result<String, String>),
    /// What the node executable says of its version.
    Tested(Result<String, String>),
    /// Where the data directory is.
    DataDir(Result<String, String>),
    /// What the installer has printed.
    Prepared(Result<String, String>),
    /// Whether the entry file is there.
    BinThere(bool),
    /// How the start of the service went.
    Started(Result<(), BootIssue>),
    /// The address that the service has announced, if it has.
    Announced(Option<String>),
}

/// What has come of a step of the start, with texts as characters.
pub enum BootEventView {
    Located(Result<Seq<char>, Seq<char>>),
    Resolved(Result<Seq<char>, Seq<char>>),
    Tested(Result<Seq<char>, Seq<char>>),
    DataDir(Result<Seq<char>, Seq<char>>),
    Prepared(Result<Seq<char>, Seq<char>>),
    BinThere(bool),
    Started(Result<(), IssueView>),
    Announced(Option<Seq<char>>),
}

/// A result with texts as characters.
pub open spec fn outcome(r: Result<String, String>) -> Result<Seq<char>, Seq<char>> {
    match r {
        Ok(s) => Ok(s@),
        Err(e) => Err(e@),
    }
}

/// How a start of the service went, with texts as characters.
pub open spec fn start_outcome(r: Result<(), BootIssue>) -> Result<(), IssueView> {
    match r {
        Ok(_) => Ok(()),
        Err(issue) => Err(issue@),
    }
}

impl View for BootEvent {
    type V = BootEventView;

    open spec fn view(&self) -> BootEventView {
        match self {
            BootEvent::Located(r) => BootEventView::Located(outcome(*r)),
            BootEvent::Resolved(r) => BootEventView::Resolved(outcome(*r)),
            BootEvent::Tested(r) => BootEventView::Tested(outcome(*r)),
            BootEvent::DataDir(r) => BootEventView::DataDir(outcome(*r)),
            BootEvent::Prepared(r) => BootEventView::Prepared(outcome(*r)),
            BootEvent::BinThere(b) => BootEventView::BinThere(*b),
            BootEvent::Started(r) => BootEventView::Started(start_outcome(*r)),
            BootEvent::Announced(url) => BootEventView::Announced(text::opt(*url)),
        }
    }
}

/// A failure of the start: what the user is told, what goes into the log, and the issue with
/// the service about which the user can do something.
pub struct BootFailure {
    pub message: Seq<char>,
    pub detail: Seq<char>,
    pub issue: Option<IssueView>,
}

/// A failure about which nothing can be done.
pub open spec fn plain_failure(message: Seq<char>, detail: Seq<char>) -> Option<BootFailure> {
    Some(BootFailure { message, detail, issue: None })
}

/// Whether a service could not be started because that was tried too often.
pub open spec fn tried_too_often(issue: IssueView) -> bool {
    issue.spawn_error && text::contains(issue.detail, "多次启动失败"@)
}

/// How a first start of the service fails for good.
pub open spec fn first_failure(issue: IssueView) -> Option<BootFailure> {
    if issue.spawn_error {
        plain_failure(
            if tried_too_often(issue) {
                "程序多次启动失败，请稍后再试。"@
            } else {
                "启动没有成功，请重试。"@
            },
            "service start: "@ + issue.detail,
        )
    } else if issue.kind is PluginTree {
        Some(
            BootFailure {
                message: "部分已安装插件与当前 DSH 版本不兼容，服务无法启动。"@,
                detail: issue.detail,
                issue: Some(issue),
            },
        )
    } else {
        None
    }
}

/// How a second start of the service fails.
pub open spec fn second_failure(issue: IssueView) -> Option<BootFailure> {
    Some(
        BootFailure {
            message: if tried_too_often(issue) {
                "程序多次启动失败，请稍后再试。"@
            } else {
                "程序没有正常启动，点这里修复。"@
            },
            detail: issue.detail,
            issue: if issue.spawn_error {
                None
            } else {
                Some(issue)
            },
        },
    )
}

/// How the start fails here, where it does.
pub open spec fn boot_failure(at: BootView, event: BootEventView) -> Option<BootFailure> {
    match (at, event) {
        (BootView::Locating, BootEventView::Located(Err(e))) => plain_failure(
            "程序文件位置异常，请重新安装。"@,
            "resource_dir: "@ + e,
        ),
        (BootView::Resolving { .. }, BootEventView::Resolved(Err(e))) => plain_failure(
            "程序文件不完整，请重新安装。"@,
            "resolve node: "@ + e,
        ),
        (BootView::TestingAgain { first, .. }, BootEventView::Tested(Err(e))) => plain_failure(
            "程序文件损坏，请重新安装本应用。"@,
            "node smoke failed twice: "@ + first + " / "@ + e,
        ),
        (BootView::LocatingData { .. }, BootEventView::DataDir(Err(e))) => plain_failure(
            "无法确定数据目录，请重新安装。"@,
            "app_data_dir: "@ + e,
        ),
        (BootView::Preparing { .. }, BootEventView::Prepared(Err(e))) => plain_failure(
            "首次准备没有成功，请重试。"@,
            "installer launch: "@ + e,
        ),
        (BootView::Preparing { .. }, BootEventView::Prepared(Ok(out))) => match node::prepared(
            out,
            "首次准备没有成功，请重试。"@,
        ) {
            Ok(_) => None,
            Err(m) => plain_failure(m, "installer: "@ + node::last_line_of(out)->0),
        },
        (BootView::CheckingBin { bin }, BootEventView::BinThere(false)) => plain_failure(
            "程序没有安装完整，请重试。"@,
            "dsh bin missing: "@ + bin,
        ),
        (BootView::Starting { .. }, BootEventView::Started(Err(issue))) => first_failure(issue),
        (BootView::Restarting { .. }, BootEventView::Started(Err(issue))) => second_failure(issue),
        _ => None,
    }
}

/// What the start comes to. `port` is that of the service.
pub open spec fn boot_next(os: Os, at: BootView, event: BootEventView, port: nat) -> BootView {
    match boot_failure(at, event) {
        Some(f) => BootView::Failed { detail: f.detail },
        None => match (at, event) {
            (BootView::Locating, BootEventView::Located(Ok(resources))) => BootView::Resolving {
                resources,
            },
            (BootView::Resolving { resources }, BootEventView::Resolved(Ok(node))) => {
                BootView::Testing { resources, node }
            },
            (BootView::Testing { resources, node }, BootEventView::Tested(Ok(_))) => {
                BootView::LocatingData { resources }
            },
            (BootView::Testing { resources, node }, BootEventView::Tested(Err(first))) => {
                BootView::TestingAgain { resources, node, first }
            },
            (BootView::TestingAgain { resources, .. }, BootEventView::Tested(Ok(_))) => {
                BootView::LocatingData { resources }
            },
            (BootView::LocatingData { resources }, BootEventView::DataDir(Ok(data))) => {
                BootView::Preparing { resources, runtime: paths::joined_path(os, data, "dsh-runtime"@) }
            },
            (BootView::Preparing { runtime, .. }, BootEventView::Prepared(Ok(_))) => {
                BootView::CheckingBin { bin: node::bin_of(os, runtime) }
            },
            (BootView::CheckingBin { bin }, BootEventView::BinThere(_)) => BootView::Starting {
                bin,
            },
            (BootView::Starting { .. }, BootEventView::Started(Ok(_))) => BootView::Announcing,
            (BootView::Starting { bin }, BootEventView::Started(Err(_))) => {
                BootView::Restarting { bin }
            },
            (BootView::Restarting { .. }, BootEventView::Started(Ok(_))) => BootView::Announcing,
            (BootView::Announcing, BootEventView::Announced(url)) => BootView::Ready {
                url: service::address_of(url, port),
            },
            _ => at,
        },
    }
}

/// What a step of the start leaves in the state.
pub open spec fn boot_effect(
    os: Os,
    at: BootView,
    event: BootEventView,
    before: AppState,
    after: AppState,
) -> bool {
    match boot_failure(at, event) {
        Some(f) => match f.issue {
            Some(issue) => service::failed_with(before, f.message, issue, after),
            None => before.failed_as(f.message, after),
        },
        None => match (at, event) {
            (BootView::Testing { node, .. }, BootEventView::Tested(Ok(_))) => node_found(
                node,
                before,
                after,
            ),
            (BootView::TestingAgain { node, .. }, BootEventView::Tested(Ok(_))) => node_found(
                node,
                before,
                after,
            ),
            (BootView::LocatingData { .. }, BootEventView::DataDir(Ok(data))) => {
                &&& after.runtime_dir@ == paths::joined_path(os, data, "dsh-runtime"@)
                &&& after.workspace_dir@ == paths::joined_path(os, data, "workspace"@)
                &&& text::opt(after.supervisor.log_dir) == Some(paths::joined_path(os, data, "logs"@))
                &&& after == (AppState {
                    runtime_dir: after.runtime_dir,
                    workspace_dir: after.workspace_dir,
                    supervisor: Supervisor {
                        log_dir: after.supervisor.log_dir,
                        ..before.supervisor
                    },
                    ..before
                })
            },
            (BootView::Preparing { .. }, BootEventView::Prepared(Ok(_))) => after == (AppState {
                phase: BootPhase::ServiceStart,
                ..before
            }),
            (BootView::Announcing, BootEventView::Announced(url)) => {
                &&& text::opt(after.pending_auth_url) == Some(service::address_of(url, before.port as nat))
                &&& after == (AppState {
                    phase: BootPhase::Ready,
                    error_message: None,
                    pending_auth_url: after.pending_auth_url,
                    ..before
                })
            },
            _ => after == before,
        },
    }
}

/// What a node executable that works leaves in the state.
pub open spec fn node_found(node: Seq<char>, before: AppState, after: AppState) -> bool {
    &&& after.node_path@ == node
    &&& after == (AppState {
        node_path: after.node_path,
        phase: BootPhase::DshInstall,
        ..before
    })
}

/// The installer among the program files.
pub fn installer_js(os: Os, resources: &str) -> (r: String)
    ensures
        r@ == paths::joined_path(os, paths::joined_path(os, resources@, "installer"@), "install-dsh.mjs"@),
{
    join_path(os, join_path(os, resources, "installer").as_str(), "install-dsh.mjs")
}

/// What comes with the program to prepare a runtime from.
pub fn baseline_dir(os: Os, resources: &str) -> (r: String)
    ensures
        r@ == paths::joined_path(os, resources@, "dsh-baseline"@),
{
    join_path(os, resources, "dsh-baseline")
}

/// Begins the start. `page` is the address of the start page, where it is known.
pub fn boot(state: &mut AppState, page: Option<String>) -> (r: Boot)
    ensures
        r@ == BootView::Locating,
        *final(state) == (AppState {
            phase: BootPhase::NodeCheck,
            last_recovery: None,
            pending_auth_url: None,
            boot_page_url: if page is Some {
                page
            } else {
                old(state).boot_page_url
            },
            ..*old(state)
        }),
{
    if let Some(url) = page {
        state.set_boot_page_url(url);
    }
    state.clear_recovery();
    state.set_pending_auth_url(None);
    state.set_phase(BootPhase::NodeCheck);
    Boot::Locating
}

fn fail(state: &mut AppState, message: &str, detail: String) -> (r: Boot)
    ensures
        r@ == (BootView::Failed { detail: detail@ }),
        old(state).failed_as(message@, *final(state)),
{
    state.set_error(message);
    Boot::Failed { detail }
}

fn service_down_first(state: &mut AppState, bin: String, issue: &BootIssue) -> (r: Boot)
    ensures
        match first_failure(issue@) {
            Some(f) => {
                &&& r@ == (BootView::Failed { detail: f.detail })
                &&& match f.issue {
                    Some(i) => service::failed_with(*old(state), f.message, i, *final(state)),
                    None => old(state).failed_as(f.message, *final(state)),
                }
            },
            None => r@ == (BootView::Restarting { bin: bin@ }) && *final(state) == *old(state),
        },
{
    if issue.spawn_error {
        let message = if holds(issue.detail.as_str(), "多次启动失败") {
            "程序多次启动失败，请稍后再试。"
        } else {
            "启动没有成功，请重试。"
        };
        return fail(state, message, cat("service start: ", issue.detail.as_str()));
    }
    if matches!(&issue.kind, FailureKind::PluginTree) {
        fail_to_boot_page(
            state,
            issue,
            "部分已安装插件与当前 DSH 版本不兼容，服务无法启动。",
        );
        return Boot::Failed { detail: issue.detail.clone() };
    }
    Boot::Restarting { bin }
}

fn service_down_again(state: &mut AppState, issue: &BootIssue) -> (r: Boot)
    ensures
        second_failure(issue@) matches Some(f) && {
            &&& r@ == (BootView::Failed { detail: f.detail })
            &&& match f.issue {
                Some(i) => service::failed_with(*old(state), f.message, i, *final(state)),
                None => old(state).failed_as(f.message, *final(state)),
            }
        },
{
    let message = if issue.spawn_error && holds(issue.detail.as_str(), "多次启动失败") {
        "程序多次启动失败，请稍后再试。"
    } else {
        "程序没有正常启动，点这里修复。"
    };
    if issue.spawn_error {
        return fail(state, message, issue.detail.clone());
    }
    fail_to_boot_page(state, issue, message);
    Boot::Failed { detail: issue.detail.clone() }
}

fn keep_data_dir(os: Os, state: &mut AppState, resources: String, data: &str) -> (r: Boot)
    ensures
        r@ == (BootView::Preparing {
            resources: resources@,
            runtime: paths::joined_path(os, data@, "dsh-runtime"@),
        }),
        final(state).runtime_dir@ == paths::joined_path(os, data@, "dsh-runtime"@),
        final(state).workspace_dir@ == paths::joined_path(os, data@, "workspace"@),
        text::opt(final(state).supervisor.log_dir) == Some(paths::joined_path(os, data@, "logs"@)),
        *final(state) == (AppState {
            runtime_dir: final(state).runtime_dir,
            workspace_dir: final(state).workspace_dir,
            supervisor: Supervisor {
                log_dir: final(state).supervisor.log_dir,
                ..old(state).supervisor
            },
            ..*old(state)
        }),
{
    let runtime = join_path(os, data, "dsh-runtime");
    state.set_runtime_dir(runtime.clone());
    state.set_workspace_dir(join_path(os, data, "workspace"));
    state.supervisor.set_log_dir(join_path(os, data, "logs"));
    Boot::Preparing { resources, runtime }
}

fn keep_prepared(os: Os, state: &mut AppState, runtime: &str, out: &str) -> (r: Boot)
    ensures
        match node::prepared(out@, "首次准备没有成功，请重试。"@) {
            Ok(_) => {
                &&& r@ == (BootView::CheckingBin { bin: node::bin_of(os, runtime@) })
                &&& *final(state) == (AppState {
                    phase: BootPhase::ServiceStart,
                    ..*old(state)
                })
            },
            Err(m) => {
                &&& r@ == (BootView::Failed { detail: "installer: "@ + node::last_line_of(out@)->0 })
                &&& old(state).failed_as(m, *final(state))
            },
        },
{
    match check_prepared(out, "首次准备没有成功，请重试。") {
        Ok(_) => {
            state.set_phase(BootPhase::ServiceStart);
            Boot::CheckingBin { bin: dsh_bin(os, runtime) }
        },
        Err(m) => {
            let line = match last_line(out) {
                Some(l) => l,
                None => String::new(),
            };
            fail(state, m.as_str(), cat("installer: ", line.as_str()))
        },
    }
}

fn keep_node(state: &mut AppState, resources: String, node: String) -> (r: Boot)
    ensures
        r@ == (BootView::LocatingData { resources: resources@ }),
        node_found(node@, *old(state), *final(state)),
{
    state.set_node_path(node);
    state.set_phase(BootPhase::DshInstall);
    Boot::LocatingData { resources }
}

/// What the start comes to.
pub fn boot_step(os: Os, state: &mut AppState, at: Boot, event: BootEvent) -> (r: Boot)
    ensures
        r@ == boot_next(os, at@, event@, old(state).port as nat),
        boot_effect(os, at@, event@, *old(state), *final(state)),
{
    match (at, event) {
        (Boot::Locating, BootEvent::Located(found)) => match found {
            Ok(resources) => Boot::Resolving { resources },
            Err(e) => fail(
                state,
                "程序文件位置异常，请重新安装。",
                cat("resource_dir: ", e.as_str()),
            ),
        },
        (Boot::Resolving { resources }, BootEvent::Resolved(found)) => match found {
            Ok(node) => Boot::Testing { resources, node },
            Err(e) => fail(
                state,
                "程序文件不完整，请重新安装。",
                cat("resolve node: ", e.as_str()),
            ),
        },
        (Boot::Testing { resources, node }, BootEvent::Tested(found)) => match found {
            Ok(_) => keep_node(state, resources, node),
            Err(first) => Boot::TestingAgain { resources, node, first },
        },
        (Boot::TestingAgain { resources, node, first }, BootEvent::Tested(found)) => match found {
            Ok(_) => keep_node(state, resources, node),
            Err(e) => fail(
                state,
                "程序文件损坏，请重新安装本应用。",
                cat(
                    cat3("node smoke failed twice: ", first.as_str(), " / ").as_str(),
                    e.as_str(),
                ),
            ),
        },
        (Boot::LocatingData { resources }, BootEvent::DataDir(found)) => match found {
            Ok(data) => keep_data_dir(os, state, resources, data.as_str()),
            Err(e) => fail(
                state,
                "无法确定数据目录，请重新安装。",
                cat("app_data_dir: ", e.as_str()),
            ),
        },
        (Boot::Preparing { resources: _, runtime }, BootEvent::Prepared(done)) => match done {
            Ok(out) => keep_prepared(os, state, runtime.as_str(), out.as_str()),
            Err(e) => fail(
                state,
                "首次准备没有成功，请重试。",
                cat("installer launch: ", e.as_str()),
            ),
        },
        (Boot::CheckingBin { bin }, BootEvent::BinThere(there)) => {
            if there {
                Boot::Starting { bin }
            } else {
                let detail = cat("dsh bin missing: ", bin.as_str());
                fail(state, "程序没有安装完整，请重试。", detail)
            }
        },
        (Boot::Starting { bin }, BootEvent::Started(started)) => match started {
            Ok(_) => Boot::Announcing,
            Err(issue) => service_down_first(state, bin, &issue),
        },
        (Boot::Restarting { bin: _ }, BootEvent::Started(started)) => match started {
            Ok(_) => Boot::Announcing,
            Err(issue) => service_down_again(state, &issue),
        },
        (Boot::Announcing, BootEvent::Announced(announced)) => {
            service_ready(state);
            let url = service_url(announced, state.port());
            state.set_pending_auth_url(Some(url.clone()));
            Boot::Ready { url }
        },
        (at, _) => at,
    }
}

/// How far along the way to a service that answers a step lies.
pub open spec fn boot_rank(at: BootView) -> nat {
    match at {
        BootView::Locating => 0,
        BootView::Resolving { .. } => 1,
        BootView::Testing { .. } => 2,
        BootView::TestingAgain { .. } => 3,
        BootView::LocatingData { .. } => 4,
        BootView::Preparing { .. } => 5,
        BootView::CheckingBin { .. } => 6,
        BootView::Starting { .. } => 7,
        BootView::Restarting { .. } => 8,
        BootView::Announcing => 9,
        BootView::Ready { .. } => 10,
        BootView::Failed { .. } => 11,
    }
}

/// The start goes forward: a step that changes anything lies further along, the service is said
/// to be up only after a start of it that went well, and once it is up or the start has failed
/// nothing changes any more.
pub proof fn boot_goes_forward(os: Os, at: BootView, event: BootEventView, port: nat)
    ensures
        boot_next(os, at, event, port) != at ==> boot_rank(at) < boot_rank(
            boot_next(os, at, event, port),
        ),
        boot_next(os, at, event, port) is Ready && !(at is Ready) ==> at is Announcing,
        boot_next(os, at, event, port) is Announcing && !(at is Announcing) ==> event is Started
            && event->Started_0 is Ok,
        at is Ready || at is Failed ==> boot_next(os, at, event, port) == at,
{
}

/// Wherever the start fails the application is in the error phase with a message, and wherever
/// it succeeds it is ready without one.
pub proof fn boot_end_is_told(
    os: Os,
    at: BootView,
    event: BootEventView,
    before: AppState,
    after: AppState,
)
    requires
        boot_effect(os, at, event, before, after),
    ensures
        boot_next(os, at, event, before.port as nat) is Failed && !(at is Failed) ==> after.phase
            == BootPhase::Error && after.error_message is Some,
        boot_next(os, at, event, before.port as nat) is Ready && !(at is Ready) ==> after.phase
            == BootPhase::Ready && after.error_message is None,
{
}

/// The application opens the address that the service has announced, as it is, and keeps it for
/// letting the window in. Only a service that has announced none is sought on its port.
pub proof fn announced_address_is_opened(
    os: Os,
    url: Seq<char>,
    port: nat,
    before: AppState,
    after: AppState,
)
    ensures
        boot_next(os, BootView::Announcing, BootEventView::Announced(Some(url)), port) == (
        BootView::Ready { url }),
        boot_next(os, BootView::Announcing, BootEventView::Announced(None), port) == (
        BootView::Ready { url: "http://127.0.0.1:"@ + text::decimal(port) }),
        boot_effect(
            os,
            BootView::Announcing,
            BootEventView::Announced(Some(url)),
            before,
            after,
        ) ==> after.pending_auth_url is Some && after.pending_auth_url->0@ == url,
        boot_effect(os, BootView::Announcing, BootEventView::Announced(None), before, after)
            ==> after.pending_auth_url is Some && after.pending_auth_url->0@ == "http://127.0.0.1:"@
            + text::decimal(before.port as nat),
{
}

/// What a step has found is what the next steps work with: the program files, the node executable,
/// the runtime below the data directory and the entry file in it. The node executable that was
/// tested is the one that is kept.
pub proof fn boot_works_with_what_it_found(
    os: Os,
    resources: Seq<char>,
    node: Seq<char>,
    data: Seq<char>,
    found: Seq<char>,
    port: nat,
    before: AppState,
    after: AppState,
)
    ensures
        boot_next(os, BootView::Locating, BootEventView::Located(Ok(found)), port) == (
        BootView::Resolving { resources: found }),
        boot_next(
            os,
            BootView::Resolving { resources },
            BootEventView::Resolved(Ok(found)),
            port,
        ) == (BootView::Testing { resources, node: found }),
        boot_next(
            os,
            BootView::Testing { resources, node },
            BootEventView::Tested(Ok(found)),
            port,
        ) == (BootView::LocatingData { resources }),
        boot_effect(
            os,
            BootView::Testing { resources, node },
            BootEventView::Tested(Ok(found)),
            before,
            after,
        ) ==> after.node_path@ == node && after.phase == BootPhase::DshInstall,
        boot_next(
            os,
            BootView::LocatingData { resources },
            BootEventView::DataDir(Ok(data)),
            port,
        ) == (BootView::Preparing {
            resources,
            runtime: paths::joined_path(os, data, "dsh-runtime"@),
        }),
        boot_effect(
            os,
            BootView::LocatingData { resources },
            BootEventView::DataDir(Ok(data)),
            before,
            after,
        ) ==> {
            &&& after.runtime_dir@ == paths::joined_path(os, data, "dsh-runtime"@)
            &&& after.workspace_dir@ == paths::joined_path(os, data, "workspace"@)
            &&& after.supervisor.log_dir is Some
            &&& after.supervisor.log_dir->0@ == paths::joined_path(os, data, "logs"@)
            &&& after.phase == before.phase
        },
        boot_next(os, BootView::CheckingBin { bin: found }, BootEventView::BinThere(true), port)
            == (BootView::Starting { bin: found }),
        boot_next(os, BootView::Starting { bin: found }, BootEventView::Started(Ok(())), port)
            == BootView::Announcing,
{
}

/// A node executable that fails is tested once more, the same one, and only a second failure ends
/// the start.
pub proof fn node_is_tested_twice(
    os: Os,
    resources: Seq<char>,
    node: Seq<char>,
    first: Seq<char>,
    second: Seq<char>,
    port: nat,
    before: AppState,
    after: AppState,
)
    ensures
        boot_next(
            os,
            BootView::Testing { resources, node },
            BootEventView::Tested(Err(first)),
            port,
        ) == (BootView::TestingAgain { resources, node, first }),
        boot_next(
            os,
            BootView::TestingAgain { resources, node, first },
            BootEventView::Tested(Ok(second)),
            port,
        ) == (BootView::LocatingData { resources }),
        boot_effect(
            os,
            BootView::TestingAgain { resources, node, first },
            BootEventView::Tested(Ok(second)),
            before,
            after,
        ) ==> after.node_path@ == node,
        boot_next(
            os,
            BootView::TestingAgain { resources, node, first },
            BootEventView::Tested(Err(second)),
            port,
        ) == (BootView::Failed {
            detail: "node smoke failed twice: "@ + first + " / "@ + second,
        }),
{
}

/// A runtime whose preparation is reported to have failed, or that lacks its entry file, is never
/// started. One that was prepared is asked for the entry file in it.
pub proof fn only_a_whole_runtime_is_started(
    os: Os,
    resources: Seq<char>,
    runtime: Seq<char>,
    out: Seq<char>,
    line: Seq<char>,
    report: JsonView,
    port: nat,
    before: AppState,
    after: AppState,
)
    requires
        text::lines(out).len() > 0,
        text::lines(out).last() == line,
        json::json_parsed(line) == Ok::<JsonView, Seq<char>>(report),
    ensures
        json::member(report, "ok"@) == Some(JsonView::Bool(true)) ==> boot_next(
            os,
            BootView::Preparing { resources, runtime },
            BootEventView::Prepared(Ok(out)),
            port,
        ) == (BootView::CheckingBin { bin: node::bin_of(os, runtime) }),
        json::member(report, "ok"@) != Some(JsonView::Bool(true)) ==> boot_next(
            os,
            BootView::Preparing { resources, runtime },
            BootEventView::Prepared(Ok(out)),
            port,
        ) == (BootView::Failed { detail: "installer: "@ + line }),
        json::member(report, "ok"@) != Some(JsonView::Bool(true)) && boot_effect(
            os,
            BootView::Preparing { resources, runtime },
            BootEventView::Prepared(Ok(out)),
            before,
            after,
        ) ==> after.phase == BootPhase::Error && after.error_message is Some && after.error_message->0@
            == (match json::at_path(report, seq!["error"@, "message"@]) {
            Some(JsonView::Str(m)) => m,
            _ => "首次准备没有成功，请重试。"@,
        }),
        boot_next(os, BootView::CheckingBin { bin: line }, BootEventView::BinThere(false), port)
            == (BootView::Failed { detail: "dsh bin missing: "@ + line }),
{
}

/// A service that goes down is started once more, from the same file, unless it could not be started
/// at all or its plugins are to blame: then the start ends at once, and for plugins the user is told
/// which of them to remove. A second time ends the start in any case.
pub proof fn service_is_started_twice(
    os: Os,
    bin: Seq<char>,
    issue: IssueView,
    port: nat,
    before: AppState,
    after: AppState,
)
    ensures
        boot_next(os, BootView::Starting { bin }, BootEventView::Started(Err(issue)), port) == (
        if issue.spawn_error {
            BootView::Failed { detail: "service start: "@ + issue.detail }
        } else if issue.kind is PluginTree {
            BootView::Failed { detail: issue.detail }
        } else {
            BootView::Restarting { bin }
        }),
        boot_next(os, BootView::Restarting { bin }, BootEventView::Started(Err(issue)), port) == (
        BootView::Failed { detail: issue.detail }),
        boot_next(os, BootView::Restarting { bin }, BootEventView::Started(Ok(())), port)
            == BootView::Announcing,
        !issue.spawn_error && issue.kind is PluginTree && boot_effect(
            os,
            BootView::Starting { bin },
            BootEventView::Started(Err(issue)),
            before,
            after,
        ) ==> after.last_recovery is Some && after.last_recovery->0@.kind == "plugins"@
            && after.last_recovery->0@.plugins == issue.plugins,
        !issue.spawn_error && boot_effect(
            os,
            BootView::Restarting { bin },
            BootEventView::Started(Err(issue)),
            before,
            after,
        ) ==> after.last_recovery is Some && after.last_recovery->0@.plugins == issue.plugins
            && after.last_recovery->0@.lock_path == issue.lock_path
            && after.last_recovery->0@.detail == issue.detail,
        issue.spawn_error && boot_effect(
            os,
            BootView::Restarting { bin },
            BootEventView::Started(Err(issue)),
            before,
            after,
        ) ==> after.last_recovery == before.last_recovery,
{
}

/// Each way in which a start fails has its own words for the user.
pub proof fn boot_failure_has_its_words(
    os: Os,
    at: BootView,
    event: BootEventView,
    before: AppState,
    after: AppState,
)
    requires
        boot_effect(os, at, event, before, after),
        boot_next(os, at, event, before.port as nat) is Failed,
        !(at is Failed),
    ensures
        after.error_message is Some,
        at is Locating ==> after.error_message->0@ == "程序文件位置异常，请重新安装。"@,
        at is Resolving ==> after.error_message->0@ == "程序文件不完整，请重新安装。"@,
        at is TestingAgain ==> after.error_message->0@ == "程序文件损坏，请重新安装本应用。"@,
        at is LocatingData ==> after.error_message->0@ == "无法确定数据目录，请重新安装。"@,
        at is CheckingBin ==> after.error_message->0@ == "程序没有安装完整，请重试。"@,
        at is Preparing && event->Prepared_0 is Err ==> after.error_message->0@
            == "首次准备没有成功，请重试。"@,
        at is Starting || at is Restarting ==> ({
            let issue = event->Started_0->Err_0;
            if issue.spawn_error && text::contains(issue.detail, "多次启动失败"@) {
                after.error_message->0@ == "程序多次启动失败，请稍后再试。"@
            } else if at is Restarting {
                after.error_message->0@ == "程序没有正常启动，点这里修复。"@
            } else if issue.spawn_error {
                after.error_message->0@ == "启动没有成功，请重试。"@
            } else {
                after.error_message->0@
                    == "部分已安装插件与当前 DSH 版本不兼容，服务无法启动。"@
            }
        }),
{
}

/// A step from a service that was started to one that is shown: the address that it announced is
/// opened as it is, and kept for letting the window in, and the application is ready. Where it
/// announced none, it is sought on its port.
pub proof fn start_ends_at_the_announced_address(
    os: Os,
    state: &mut AppState,
    announced: Option<String>,
    r: Boot,
)
    requires
        call_ensures(boot_step, (os, state, Boot::Announcing, BootEvent::Announced(announced)), r),
    ensures
        r is Ready,
        announced matches Some(u) ==> r->Ready_url@ == u@,
        announced is None ==> r->Ready_url@ == "http://127.0.0.1:"@ + text::decimal(
            old(state).port as nat,
        ),
        final(state).pending_auth_url is Some,
        final(state).pending_auth_url->0@ == r->Ready_url@,
        final(state).phase == BootPhase::Ready,
        final(state).error_message is None,
{
    announced_address_is_opened(
        os,
        if announced is Some {
            announced->0@
        } else {
            Seq::empty()
        },
        old(state).port as nat,
        *old(state),
        *final(state),
    );
}

/// The steps of the start are those that the other laws speak of.
pub proof fn boot_step_follows_the_way(
    os: Os,
    state: &mut AppState,
    at: Boot,
    event: BootEvent,
    r: Boot,
)
    requires
        call_ensures(boot_step, (os, state, at, event), r),
    ensures
        r@ == boot_next(os, at@, event@, old(state).port as nat),
        boot_effect(os, at@, event@, *old(state), *final(state)),
{
}

/// The start begins with the program files, forgets what an earlier start has left, and keeps the
/// address of the start page.
pub proof fn start_begins_afresh(state: &mut AppState, page: Option<String>, r: Boot)
    requires
        call_ensures(boot, (state, page), r),
    ensures
        r is Locating,
        final(state).phase == BootPhase::NodeCheck,
        final(state).pending_auth_url is None,
        final(state).last_recovery is None,
        page is Some ==> final(state).boot_page_url == page,
        page is None ==> final(state).boot_page_url == old(state).boot_page_url,
        final(state).port == old(state).port,
{
}

} // verus!
