//! The service: how it is started and healed, watched, restarted and repaired, and what the
//! user is told of it.
use crate::config;
use crate::config::ConfigStore;
use crate::disk::{Disk, FileView};
use crate::json;
use crate::json::JsonView;
use crate::node;
use crate::node::check_prepared;
use crate::paths;
use crate::paths::{Os, file_name};
use crate::plugins;
use crate::plugins::removable_plugin_names;
use crate::plugins::plugin_profile;
use crate::serviceout;
use crate::serviceout::{FailureKind, FailureView, plugin_candidates};
use crate::state;
use crate::state::{AppState, BootPhase, RecoveryInfo, RecoveryView};
use crate::supervisor;
use crate::supervisor::Supervisor;
use crate::text;
use crate::text::{begins, cat, chars, copy_list, cut, ends, number, same, to_lower};
use vstd::prelude::*;

verus! {

/// How long the output of a service that has ended is waited for, in milliseconds.
pub const EXIT_TAIL_DRAIN: u64 = 500;

/// How long to wait between two looks at a port that another service may have taken over, in
/// milliseconds.
pub const PROBE_TICK: u64 = 500;

/// How long a service that has ended may take to come back by itself, in milliseconds.
pub const PROBE_WINDOW: u64 = 20_000;

/// At every so many looks at a healthy service it is asked whether its process is still there.
pub const HEALTH_REAP_EVERY: u32 = 15;

/// How long a service may take to answer after its start, in milliseconds.
pub const START_TIMEOUT: u64 = 60_000;

/// Whether the user may ask for a restart: when no operation is under way, and the start is
/// over, well or badly.
pub fn restart_action_allowed(operations: usize, phase: BootPhase) -> (r: bool)
    ensures
        r == (operations == 0 && (phase == BootPhase::Ready || phase == BootPhase::Error)),
{
    if operations > 0 {
        return false;
    }
    phase == BootPhase::Ready || phase == BootPhase::Error
}

/// What `url::Url` makes of an address when its query is taken off: the text of the rest, or
/// nothing where it is no address.
pub uninterp spec fn without_query(url: Seq<char>) -> Option<Seq<char>>;

/// Whether an address has no query: no question mark stands in front of its fragment.
pub open spec fn no_query(url: Seq<char>) -> bool {
    !url.subrange(0, text::upto(url, '#') as int).contains('?')
}

/// `url::Url::parse`, then `set_query(None)`, and the text of what is left. The contract claims
/// that the result depends on the address alone, and that it has no query; how an address is
/// read and written otherwise is left to the name.
#[verifier::external_body]
fn url_without_query(url: &str) -> (r: Option<String>)
    ensures
        text::opt(r) == without_query(url@),
        r matches Some(bare) ==> no_query(bare@),
{
    let mut parsed = url::Url::parse(url).ok()?;
    parsed.set_query(None);
    Some(parsed.to_string())
}

/// The address of the service without what stands behind the question mark. What is no address
/// stays as it is.
pub fn bare_service_url(url: &str) -> (r: String)
    ensures
        r@ == match without_query(url@) {
            Some(bare) => bare,
            None => url@,
        },
        without_query(url@) is Some ==> no_query(r@),
{
    match url_without_query(url) {
        Some(bare) => bare,
        None => url.to_owned(),
    }
}

/// The address at which the service is reached: the one that it has announced, or the bare one
/// of its port.
pub open spec fn address_of(announced: Option<Seq<char>>, port: nat) -> Seq<char> {
    match announced {
        Some(url) => url,
        None => serviceout::service_base(port),
    }
}

/// The address at which the service is reached.
pub fn service_url(announced: Option<String>, port: u16) -> (r: String)
    ensures
        r@ == address_of(text::opt(announced), port as nat),
{
    match announced {
        Some(url) => url,
        None => cat("http://127.0.0.1:", number(port as u64).as_str()),
    }
}

/// The port that the service should have.
pub fn preferred_port(config: &ConfigStore) -> (r: u16)
    ensures
        r == config::wanted_port(config.config()),
{
    let p: u16 = config.get().port;
    if p > 0 {
        p
    } else {
        3080
    }
}

/// Whether a page of the service is shown, by the host of its address.
pub fn on_service_page(host: Option<&str>) -> (r: bool)
    ensures
        r == (text::opt_str(host) == Some("127.0.0.1"@)),
{
    match host {
        Some(h) => same(h, "127.0.0.1"),
        None => false,
    }
}

/// What the main window does once the service is back.
#[derive(Debug)]
pub struct Refresh {
    /// The address that the start page is told.
    pub url: String,
    /// The address that the window goes to, where it shows a page of the service.
    pub target: Option<String>,
}

/// What the main window does once the service is back. The address waits for the user to be
/// let in with it.
pub fn refresh_main_after_restart(
    state: &mut AppState,
    announced: Option<String>,
    on_dsh_page: bool,
) -> (r: Refresh)
    ensures
        r.url@ == address_of(text::opt(announced), old(state).port as nat),
        text::opt(r.target) == (if on_dsh_page {
            Some(
                match without_query(r.url@) {
                    Some(bare) => bare,
                    None => r.url@,
                },
            )
        } else {
            None
        }),
        without_query(r.url@) is Some ==> (r.target matches Some(t) ==> no_query(t@)),
        text::opt(final(state).pending_auth_url) == Some(r.url@),
        *final(state) == (AppState {
            pending_auth_url: final(state).pending_auth_url,
            ..*old(state)
        }),
{
    let url = service_url(announced, state.port());
    state.set_pending_auth_url(Some(url.clone()));
    let target = if on_dsh_page {
        Some(bare_service_url(url.as_str()))
    } else {
        None
    };
    Refresh { url, target }
}

/// The page that the main window goes back to when the service is down and one of its pages is
/// shown.
pub fn navigate_main_to_boot(state: &AppState, on_service: bool) -> (r: Option<String>)
    ensures
        r == (if on_service {
            state.boot_page_url
        } else {
            None
        }),
{
    if on_service {
        state.boot_page_url()
    } else {
        None
    }
}

/// What the user is told of a service that does not come back after an operation.
pub open spec fn mutation_failure(kind: FailureView, zh: bool) -> Seq<char> {
    match kind {
        FailureView::PluginTree => if zh {
            "插件与当前 DSH 版本不兼容，服务无法启动。请重新打开应用，在启动页移除不兼容插件。"@
        } else {
            "Some plugins are incompatible with this version of DSH. Reopen the app to remove them on the startup screen."@
        },
        FailureView::StaleLock { .. } => if zh {
            "服务没有正常启动（残留锁文件可能仍在阻止启动），请稍后再试。"@
        } else {
            "Service did not start (a leftover lock file may still block it). Please retry."@
        },
        FailureView::Unknown => if zh {
            "服务没有正常启动，请稍后再试。"@
        } else {
            "Service did not start. Please retry."@
        },
    }
}

/// What the user is told of a service that does not come back after an operation, in Chinese or
/// in English.
pub fn mutation_failure_text(kind: &FailureKind, zh: bool) -> (r: &'static str)
    ensures
        r@ == mutation_failure(kind@, zh),
{
    match kind {
        FailureKind::PluginTree => {
            if zh {
                "插件与当前 DSH 版本不兼容，服务无法启动。请重新打开应用，在启动页移除不兼容插件。"
            } else {
                "Some plugins are incompatible with this version of DSH. Reopen the app to remove them on the startup screen."
            }
        },
        FailureKind::StaleLock { .. } => {
            if zh {
                "服务没有正常启动（残留锁文件可能仍在阻止启动），请稍后再试。"
            } else {
                "Service did not start (a leftover lock file may still block it). Please retry."
            }
        },
        FailureKind::Unknown => {
            if zh {
                "服务没有正常启动，请稍后再试。"
            } else {
                "Service did not start. Please retry."
            }
        },
    }
}

/// What the user is told of a service that has ended by itself.
pub open spec fn crash_text(kind: FailureView) -> Seq<char> {
    match kind {
        FailureView::PluginTree => "服务因插件不兼容意外停止，请移除不兼容插件后重试。"@,
        FailureView::StaleLock { .. } => "服务意外停止（残留锁文件可能仍在阻止启动），请重试。"@,
        FailureView::Unknown => "服务意外停止，请点击重试。"@,
    }
}

/// What the user is told of a service that has ended by itself.
pub fn crash_message(kind: &FailureKind) -> (r: &'static str)
    ensures
        r@ == crash_text(kind@),
{
    match kind {
        FailureKind::PluginTree => "服务因插件不兼容意外停止，请移除不兼容插件后重试。",
        FailureKind::StaleLock { .. } => "服务意外停止（残留锁文件可能仍在阻止启动），请重试。",
        FailureKind::Unknown => "服务意外停止，请点击重试。",
    }
}

/// Why the service is not there.
#[derive(Debug)]
pub struct BootIssue {
    pub kind: FailureKind,
    pub plugins: Vec<String>,
    pub lock_path: Option<String>,
    pub detail: String,
    pub spawn_error: bool,
}

/// Why the service is not there, with texts as characters.
#[verifier::ext_equal]
pub struct IssueView {
    pub kind: FailureView,
    pub plugins: Seq<Seq<char>>,
    pub lock_path: Option<Seq<char>>,
    pub detail: Seq<char>,
    pub spawn_error: bool,
}

impl View for BootIssue {
    type V = IssueView;

    open spec fn view(&self) -> IssueView {
        IssueView {
            kind: self.kind@,
            plugins: text::strs(self.plugins@),
            lock_path: text::opt(self.lock_path),
            detail: self.detail@,
            spawn_error: self.spawn_error,
        }
    }
}

/// A service that could not even be started, for this reason.
pub open spec fn spawn_issue(reason: Seq<char>) -> IssueView {
    IssueView {
        kind: FailureView::Unknown,
        plugins: Seq::empty(),
        lock_path: None,
        detail: reason,
        spawn_error: true,
    }
}

fn not_spawned(reason: String) -> (r: BootIssue)
    ensures
        r@ == spawn_issue(reason@),
{
    let r = BootIssue {
        kind: FailureKind::Unknown,
        plugins: Vec::new(),
        lock_path: None,
        detail: reason,
        spawn_error: true,
    };
    assert(r@ =~= spawn_issue(reason@));
    r
}

/// What the output of a service tells of why it is not there. Plugins are blamed by the end of
/// the output, as far as they are installed.
pub open spec fn issue_of(
    os: Os,
    files: Map<Seq<char>, FileView>,
    home: Seq<char>,
    output: Option<Seq<u8>>,
) -> IssueView {
    let kind = match output {
        Some(bytes) => serviceout::kind_of(text::utf8_lossy(bytes)),
        None => FailureView::Unknown,
    };
    let tail = match output {
        Some(bytes) => supervisor::byte_tail(text::utf8_lossy(bytes), 4096),
        None => Seq::empty(),
    };
    IssueView {
        kind,
        plugins: match kind {
            FailureView::PluginTree => plugins::removable(
                os,
                files,
                plugin_profile::profile_of(os, home),
                serviceout::blamed_packages(text::lines(tail)),
            ),
            _ => Seq::empty(),
        },
        lock_path: match kind {
            FailureView::StaleLock { lock_path } => lock_path,
            _ => None,
        },
        detail: tail,
        spawn_error: false,
    }
}

/// Why the service is not there, by its output. `home` is the directory that DSH keeps its data
/// in, and `disk` what was found of its profile.
pub fn boot_issue(os: Os, disk: &Disk, home: &str, supervisor: &Supervisor) -> (r: BootIssue)
    ensures
        r@ == issue_of(os, disk@, home@, supervisor::captured(supervisor.capture)),
{
    let kind = match supervisor.failure_classify() {
        Some(k) => k,
        None => FailureKind::Unknown,
    };
    let tail = supervisor.output_tail(4096);
    let ghost none = Seq::<Seq<char>>::empty();
    let mut plugins: Vec<String> = Vec::new();
    let mut lock_path: Option<String> = None;
    assert(text::strs(plugins@) =~= none);
    match &kind {
        FailureKind::PluginTree => {
            let candidates = plugin_candidates(tail.as_str());
            plugins = removable_plugin_names(os, disk, home, candidates.as_slice());
        },
        FailureKind::StaleLock { lock_path: named } => {
            lock_path = named.clone();
        },
        FailureKind::Unknown => {},
    }
    let r = BootIssue { kind, plugins, lock_path, detail: tail, spawn_error: false };
    assert(r@ =~= issue_of(os, disk@, home@, supervisor::captured(supervisor.capture)));
    r
}

/// What the user can do about an issue.
pub open spec fn recovery_for(issue: IssueView) -> RecoveryView {
    RecoveryView {
        kind: match issue.kind {
            FailureView::PluginTree => "plugins"@,
            FailureView::StaleLock { .. } => "stale-lock"@,
            FailureView::Unknown => "unknown"@,
        },
        plugins: issue.plugins,
        lock_path: issue.lock_path,
        detail: issue.detail,
    }
}

fn recovery_of(issue: &BootIssue) -> (r: RecoveryInfo)
    ensures
        r@ == recovery_for(issue@),
{
    let r = RecoveryInfo {
        kind: issue.kind.kind_str().to_owned(),
        plugins: copy_list(issue.plugins.as_slice()),
        lock_path: issue.lock_path.clone(),
        detail: issue.detail.clone(),
    };
    assert(r@ =~= recovery_for(issue@));
    r
}

/// Takes note of what the user can do about an issue.
pub fn emit_error_options(state: &mut AppState, issue: &BootIssue)
    ensures
        state::opt_recovery(final(state).last_recovery) == Some(recovery_for(issue@)),
        *final(state) == (AppState { last_recovery: final(state).last_recovery, ..*old(state) }),
{
    state.set_last_recovery(recovery_of(issue));
}

/// Whether a state is another one with an error in it that the user can do something about.
pub open spec fn failed_with(
    before: AppState,
    message: Seq<char>,
    issue: IssueView,
    after: AppState,
) -> bool {
    &&& text::opt(after.error_message) == Some(message)
    &&& state::opt_recovery(after.last_recovery) == Some(recovery_for(issue))
    &&& after == (AppState {
        phase: BootPhase::Error,
        error_message: after.error_message,
        last_recovery: after.last_recovery,
        ..before
    })
}

/// Records that the service is down, and what the user can do about it.
pub fn fail_to_boot_page(state: &mut AppState, issue: &BootIssue, msg: &str)
    ensures
        failed_with(*old(state), msg@, issue@, *final(state)),
{
    state.set_error(msg);
    emit_error_options(state, issue);
}

/// Records that the service is up.
pub fn service_ready(state: &mut AppState)
    ensures
        *final(state) == (AppState {
            phase: BootPhase::Ready,
            error_message: None,
            ..*old(state)
        }),
{
    state.set_phase(BootPhase::Ready);
    state.clear_error();
}

/// How a wait for the service ended.
#[derive(Debug, Clone, Copy, PartialEq, Eq, Structural)]
pub enum WaitOutcome {
    Ready,
    Exited,
    Timeout,
}

/// Whether a wait for the service is over, and how, after `waited` milliseconds of at most
/// `timeout`. While it is not, one looks again after 300 milliseconds.
pub fn wait_service_outcome(healthy: bool, exited: bool, waited: u64, timeout: u64) -> (r: Option<
    WaitOutcome,
>)
    ensures
        r == (if healthy {
            Some(WaitOutcome::Ready)
        } else if exited {
            Some(WaitOutcome::Exited)
        } else if waited >= timeout {
            Some(WaitOutcome::Timeout)
        } else {
            None
        }),
{
    if healthy {
        return Some(WaitOutcome::Ready);
    }
    if exited {
        return Some(WaitOutcome::Exited);
    }
    if waited >= timeout {
        return Some(WaitOutcome::Timeout);
    }
    None
}

/// Whether to go on waiting for the service to announce its address, after `waited` milliseconds
/// of at most `timeout`. While one does, one looks again after 100 milliseconds.
pub fn wait_service_url(announced: bool, exited: bool, waited: u64, timeout: u64) -> (r: bool)
    ensures
        r == (waited < timeout && !announced && !exited),
{
    waited < timeout && !announced && !exited
}

/// Whether a character divides the parts of a path.
pub open spec fn divides(os: Os, c: char) -> bool {
    c == '/' || (os == Os::Windows && c == '\\')
}

fn is_divider(os: Os, c: char) -> (r: bool)
    ensures
        r == divides(os, c),
{
    c == '/' || (os == Os::Windows && c == '\\')
}

/// Whether the part of a path that begins at `i` is `..`.
pub open spec fn climbs_at(os: Os, s: Seq<char>, i: int) -> bool {
    &&& 0 <= i
    &&& i + 2 <= s.len()
    &&& s[i] == '.'
    &&& s[i + 1] == '.'
    &&& i == 0 || divides(os, s[i - 1])
    &&& i + 2 == s.len() || divides(os, s[i + 2])
}

/// Whether a path goes up somewhere, by a part that is `..`.
pub open spec fn climbs(os: Os, s: Seq<char>) -> bool {
    exists|i: int| climbs_at(os, s, i)
}

fn goes_up(os: Os, s: &[char]) -> (r: bool)
    ensures
        r == climbs(os, s@),
{
    let n: usize = s.len();
    for i in 0..n
        invariant
            n == s@.len(),
            forall|k: int| 0 <= k < i ==> !climbs_at(os, s@, k),
    {
        if n - i >= 2 && s[i] == '.' && s[i + 1] == '.' && (i == 0 || is_divider(os, s[i - 1]))
            && (n - i == 2 || is_divider(os, s[i + 2])) {
            assert(climbs_at(os, s@, i as int));
            return true;
        }
    }
    false
}

/// Whether a lock file lies below the data directory, so that it may be removed: its path begins
/// with the directory and does not lead out of it again. Windows does not tell upper from lower
/// case.
pub open spec fn safe_lock(os: Os, path: Seq<char>, home: Seq<char>) -> bool {
    if os == Os::Windows {
        lock_below(os, path, text::lowercase(path), text::lowercase(home))
    } else {
        lock_below(os, path, path, home)
    }
}

/// Whether a path is that of a lock file, and lies below the data directory when both are
/// compared as `p` and `h`.
pub open spec fn lock_below(os: Os, path: Seq<char>, p: Seq<char>, h: Seq<char>) -> bool {
    &&& paths::name_of(os, path) matches Some(name) && ".lock"@.is_suffix_of(name)
    &&& h.is_prefix_of(p)
    &&& p.len() > h.len()
    &&& divides(os, p[h.len() as int])
    &&& !climbs(os, p.subrange(h.len() as int, p.len() as int))
}

/// Whether a lock file may be removed.
pub fn is_safe_lock_path(os: Os, path: &str, home: &str) -> (r: bool)
    ensures
        r == safe_lock(os, path@, home@),
        os == Os::Windows && text::ascii(path@) && text::ascii(home@) ==> r == lock_below(
            os,
            path@,
            text::ascii_lower(path@),
            text::ascii_lower(home@),
        ),
{
    let named = match file_name(os, path) {
        Some(name) => ends(name.as_str(), ".lock"),
        None => false,
    };
    if !named {
        return false;
    }
    let p = if os == Os::Windows {
        to_lower(path)
    } else {
        path.to_owned()
    };
    let h = if os == Os::Windows {
        to_lower(home)
    } else {
        home.to_owned()
    };
    if !begins(p.as_str(), h.as_str()) {
        return false;
    }
    let s = chars(p.as_str());
    let n: usize = chars(h.as_str()).len();
    if s.len() <= n || !is_divider(os, s[n]) {
        return false;
    }
    let below = cut(s.as_slice(), n, s.len());
    !goes_up(os, below)
}

/// How far a start of the service has come.
#[derive(Debug)]
pub enum Heal {
    /// The service is to be started: as somebody has asked, or as a restart that counts.
    Starting { first: bool, healed: bool },
    /// The service was started and is to be waited for.
    Waiting { first: bool, healed: bool },
    /// A lock file was left behind; whether another process hosts DSH is to be found out.
    Asking { first: bool, path: String, issue: BootIssue },
    /// The lock file is to be removed.
    Removing { first: bool, path: String, issue: BootIssue },
    /// The service answers.
    Ready,
    /// The service is not there.
    Failed { issue: BootIssue },
}

/// How far a start of the service has come, with texts as characters.
pub enum HealView {
    Starting { first: bool, healed: bool },
    Waiting { first: bool, healed: bool },
    Asking { first: bool, path: Seq<char>, issue: IssueView },
    Removing { first: bool, path: Seq<char>, issue: IssueView },
    Ready,
    Failed { issue: IssueView },
}

impl View for Heal {
    type V = HealView;

    open spec fn view(&self) -> HealView {
        match self {
            Heal::Starting { first, healed } => HealView::Starting {
                first: *first,
                healed: *healed,
            },
            Heal::Waiting { first, healed } => HealView::Waiting {
                first: *first,
                healed: *healed,
            },
            Heal::Asking { first, path, issue } => HealView::Asking {
                first: *first,
                path: path@,
                issue: issue@,
            },
            Heal::Removing { first, path, issue } => HealView::Removing {
                first: *first,
                path: path@,
                issue: issue@,
            },
            Heal::Ready => HealView::Ready,
            Heal::Failed { issue } => HealView::Failed { issue: issue@ },
        }
    }
}

/// What has happened during a start of the service.
#[derive(Debug)]
pub enum HealEvent {
    /// The service was started on this port, or not, for this reason.
    Started(Result<u16, String>),
    /// The service answers, or it is not there.
    Waited(Result<(), BootIssue>),
    /// Whether another process hosts DSH.
    Hosts { other: bool },
    /// The lock file is gone, or it is still there.
    Removed(bool),
}

/// What has happened during a start of the service, with texts as characters.
pub enum HealEventView {
    Started(Result<u16, Seq<char>>),
    Waited(Result<(), IssueView>),
    Hosts { other: bool },
    Removed(bool),
}

impl View for HealEvent {
    type V = HealEventView;

    open spec fn view(&self) -> HealEventView {
        match self {
            HealEvent::Started(Ok(port)) => HealEventView::Started(Ok(*port)),
            HealEvent::Started(Err(e)) => HealEventView::Started(Err(e@)),
            HealEvent::Waited(Ok(_)) => HealEventView::Waited(Ok(())),
            HealEvent::Waited(Err(issue)) => HealEventView::Waited(Err(issue@)),
            HealEvent::Hosts { other } => HealEventView::Hosts { other: *other },
            HealEvent::Removed(gone) => HealEventView::Removed(*gone),
        }
    }
}

/// The lock file that an issue blames, where it may be removed.
pub open spec fn removable_lock(os: Os, home: Seq<char>, issue: IssueView) -> Option<Seq<char>> {
    match issue.kind {
        FailureView::StaleLock { lock_path: Some(path) } => if safe_lock(os, path, home) {
            Some(path)
        } else {
            None
        },
        _ => None,
    }
}

/// What a start of the service comes to. A lock file that was left behind is removed once, where
/// no other process hosts DSH, and the service is started again in the way that it was first.
pub open spec fn heal_next(os: Os, home: Seq<char>, at: HealView, event: HealEventView) -> HealView {
    match (at, event) {
        (HealView::Starting { first, healed }, HealEventView::Started(Ok(_))) => {
            HealView::Waiting { first, healed }
        },
        (HealView::Starting { first, healed }, HealEventView::Started(Err(e))) => {
            HealView::Failed { issue: spawn_issue(e) }
        },
        (HealView::Waiting { first, healed }, HealEventView::Waited(Ok(_))) => HealView::Ready,
        (HealView::Waiting { first, healed }, HealEventView::Waited(Err(issue))) => {
            match removable_lock(os, home, issue) {
                Some(path) if !healed => HealView::Asking { first, path, issue },
                _ => HealView::Failed { issue },
            }
        },
        (HealView::Asking { first, path, issue }, HealEventView::Hosts { other }) => {
            if other {
                HealView::Failed { issue }
            } else {
                HealView::Removing { first, path, issue }
            }
        },
        (HealView::Removing { first, path, issue }, HealEventView::Removed(gone)) => {
            if gone {
                HealView::Starting { first, healed: true }
            } else {
                HealView::Failed { issue }
            }
        },
        _ => at,
    }
}

/// The begin of a start of the service.
pub fn start_service_with_heal(first_spawn: bool) -> (r: Heal)
    ensures
        r@ == (HealView::Starting { first: first_spawn, healed: false }),
{
    Heal::Starting { first: first_spawn, healed: false }
}

/// What a start of the service comes to. The port goes into the state as soon as it is known.
pub fn heal_step(os: Os, home: &str, state: &mut AppState, at: Heal, event: HealEvent) -> (r: Heal)
    ensures
        r@ == heal_next(os, home@, at@, event@),
        *final(state) == match (at@, event@) {
            (HealView::Starting { .. }, HealEventView::Started(Ok(port))) => (AppState {
                port,
                ..*old(state)
            }),
            _ => *old(state),
        },
{
    match (at, event) {
        (Heal::Starting { first, healed }, HealEvent::Started(result)) => {
            match result {
                Ok(port) => {
                    state.set_port(port);
                    Heal::Waiting { first, healed }
                },
                Err(e) => Heal::Failed { issue: not_spawned(e) },
            }
        },
        (Heal::Waiting { first, healed }, HealEvent::Waited(result)) => {
            match result {
                Ok(_) => Heal::Ready,
                Err(issue) => {
                    let lock = match &issue.kind {
                        FailureKind::StaleLock { lock_path: Some(path) } => {
                            if is_safe_lock_path(os, path.as_str(), home) {
                                Some(path.clone())
                            } else {
                                None
                            }
                        },
                        _ => None,
                    };
                    assert(text::opt(lock) == removable_lock(os, home@, issue@));
                    match lock {
                        Some(path) => {
                            if healed {
                                Heal::Failed { issue }
                            } else {
                                Heal::Asking { first, path, issue }
                            }
                        },
                        None => Heal::Failed { issue },
                    }
                },
            }
        },
        (Heal::Asking { first, path, issue }, HealEvent::Hosts { other }) => {
            if other {
                Heal::Failed { issue }
            } else {
                Heal::Removing { first, path, issue }
            }
        },
        (Heal::Removing { first, path: _, issue }, HealEvent::Removed(gone)) => {
            if gone {
                Heal::Starting { first, healed: true }
            } else {
                Heal::Failed { issue }
            }
        },
        (at, _) => at,
    }
}

/// How much of a start of the service is still ahead.
pub open spec fn heal_left(at: HealView) -> nat {
    match at {
        HealView::Starting { first, healed } => if healed {
            2
        } else {
            6
        },
        HealView::Waiting { first, healed } => if healed {
            1
        } else {
            5
        },
        HealView::Asking { .. } => 4,
        HealView::Removing { .. } => 3,
        HealView::Ready => 0,
        HealView::Failed { .. } => 0,
    }
}

/// A start of the service ends: whatever changes it brings it nearer to its end, and at the end
/// the service answers or is known to be down. A lock file is removed only where the service
/// blames it, it lies below the data directory and no other process hosts DSH; the service is
/// started again only after it was removed.
pub proof fn healing_ends(os: Os, home: Seq<char>, at: HealView, event: HealEventView)
    ensures
        heal_next(os, home, at, event) != at ==> heal_left(heal_next(os, home, at, event))
            < heal_left(at),
        heal_left(at) == 0 <==> at is Ready || at is Failed,
        !(at is Asking) ==> (heal_next(os, home, at, event) matches HealView::Asking {
            path,
            issue,
            ..
        } ==> {
            &&& at matches HealView::Waiting { healed, .. } && !healed
            &&& event == HealEventView::Waited(Err(issue))
            &&& issue.kind == FailureView::StaleLock { lock_path: Some(path) }
            &&& safe_lock(os, path, home)
        }),
        !(at is Removing) ==> (heal_next(os, home, at, event) matches HealView::Removing {
            first,
            path,
            issue,
        } ==> {
            &&& at == (HealView::Asking { first, path, issue })
            &&& event == (HealEventView::Hosts { other: false })
        }),
        heal_next(os, home, at, event) is Starting && !(at is Starting) ==> at is Removing
            && event == HealEventView::Removed(true),
{
}

/// Whether a start counts as a restart, where it is one at all.
pub open spec fn heal_counted(at: HealView) -> Option<bool> {
    match at {
        HealView::Starting { first, .. } => Some(!first),
        HealView::Waiting { first, .. } => Some(!first),
        HealView::Asking { first, .. } => Some(!first),
        HealView::Removing { first, .. } => Some(!first),
        _ => None,
    }
}

/// A start that somebody has asked for never counts against the restarts that are allowed, nor
/// does the one after a lock file was removed for it: how a start counts stays until it ends.
pub proof fn asked_start_never_counts(os: Os, home: Seq<char>, at: HealView, event: HealEventView)
    ensures
        heal_counted(heal_next(os, home, at, event)) matches Some(counted) ==> heal_counted(at)
            == Some(counted),
{
}

/// How often the service is started anew, and how many lock files are removed, while these
/// things happen one after the other.
pub open spec fn heal_counts(
    os: Os,
    home: Seq<char>,
    at: HealView,
    events: Seq<HealEventView>,
) -> (nat, nat)
    decreases events.len(),
{
    if events.len() == 0 {
        (0, 0)
    } else {
        let next = heal_next(os, home, at, events[0]);
        let (starts, removals) = heal_counts(
            os,
            home,
            next,
            events.subrange(1, events.len() as int),
        );
        (
            if next is Starting && !(at is Starting) {
                starts + 1
            } else {
                starts
            },
            if next is Removing && !(at is Removing) {
                removals + 1
            } else {
                removals
            },
        )
    }
}

proof fn lemma_heal_counts(os: Os, home: Seq<char>, at: HealView, events: Seq<HealEventView>)
    ensures
        heal_counts(os, home, at, events).0 <= (if heal_left(at) >= 3 {
            1nat
        } else {
            0
        }),
        heal_counts(os, home, at, events).1 <= (if heal_left(at) >= 4 {
            1nat
        } else {
            0
        }),
    decreases events.len(),
{
    if events.len() > 0 {
        let next = heal_next(os, home, at, events[0]);
        lemma_heal_counts(os, home, next, events.subrange(1, events.len() as int));
    }
}

/// Whatever happens, one call starts the service at most once more after the first time, and
/// removes at most one lock file.
pub proof fn healing_is_tried_once(
    os: Os,
    home: Seq<char>,
    first: bool,
    events: Seq<HealEventView>,
)
    ensures
        heal_counts(os, home, HealView::Starting { first, healed: false }, events).0 <= 1,
        heal_counts(os, home, HealView::Starting { first, healed: false }, events).1 <= 1,
{
    lemma_heal_counts(os, home, HealView::Starting { first, healed: false }, events);
}

/// What the user is told while the service is started again after a lock file was removed.
pub fn lock_removed_text(zh: bool) -> (r: &'static str)
    ensures
        r@ == (if zh {
            "已自动清理残留锁文件，正在重试…"@
        } else {
            "Cleaned up a stale lock file, retrying…"@
        }),
{
    if zh {
        "已自动清理残留锁文件，正在重试…"
    } else {
        "Cleaned up a stale lock file, retrying…"
    }
}

/// What the user is told while a service that has ended may come back by itself.
pub fn recovering_text(zh: bool) -> (r: &'static str)
    ensures
        r@ == (if zh {
            "服务正在自动恢复，请稍候…"@
        } else {
            "Service stopped; recovering automatically…"@
        }),
{
    if zh {
        "服务正在自动恢复，请稍候…"
    } else {
        "Service stopped; recovering automatically…"
    }
}

/// What to do about a service that has ended while another one may take its place.
#[derive(Debug, Clone, Copy, PartialEq, Eq, Structural)]
pub enum ProbeDecision {
    BackToWatch,
    Takeover,
    TimedOut,
    KeepProbing,
}

/// What to do about a service that has ended: go back to watching where its process lives, take
/// over where the port answers, give up once the window has passed, and look again until then.
/// Times are in milliseconds.
pub fn probe_decision(child_alive: bool, port_healthy: bool, elapsed: u64, window: u64) -> (r:
    ProbeDecision)
    ensures
        r == (if child_alive {
            ProbeDecision::BackToWatch
        } else if port_healthy {
            ProbeDecision::Takeover
        } else if elapsed >= window {
            ProbeDecision::TimedOut
        } else {
            ProbeDecision::KeepProbing
        }),
{
    if child_alive {
        return ProbeDecision::BackToWatch;
    }
    if port_healthy {
        return ProbeDecision::Takeover;
    }
    if elapsed >= window {
        return ProbeDecision::TimedOut;
    }
    ProbeDecision::KeepProbing
}

/// How far a watch over the service has come.
#[derive(Debug)]
pub enum Watch {
    /// The service is to be looked at. `tick` counts the looks so far.
    Watching { tick: u32 },
    /// The service has ended; why is to be found out once its output has come in.
    Draining { tick: u32 },
    /// It is to be seen whether the service comes back by itself.
    Probing { tick: u32, issue: BootIssue },
    /// Something answers on the port; whether the process is gone is to be seen once more.
    Claiming { tick: u32 },
    /// The service is to be restarted.
    Restarting,
    /// The service is back.
    Recovered,
    /// The service is down.
    Failed { issue: BootIssue },
    /// There is nothing to watch any more.
    Ended,
}

/// How far a watch has come, with texts as characters.
pub enum WatchView {
    Watching { tick: u32 },
    Draining { tick: u32 },
    Probing { tick: u32, issue: IssueView },
    Claiming { tick: u32 },
    Restarting,
    Recovered,
    Failed { issue: IssueView },
    Ended,
}

impl View for Watch {
    type V = WatchView;

    open spec fn view(&self) -> WatchView {
        match self {
            Watch::Watching { tick } => WatchView::Watching { tick: *tick },
            Watch::Draining { tick } => WatchView::Draining { tick: *tick },
            Watch::Probing { tick, issue } => WatchView::Probing { tick: *tick, issue: issue@ },
            Watch::Claiming { tick } => WatchView::Claiming { tick: *tick },
            Watch::Restarting => WatchView::Restarting,
            Watch::Recovered => WatchView::Recovered,
            Watch::Failed { issue } => WatchView::Failed { issue: issue@ },
            Watch::Ended => WatchView::Ended,
        }
    }
}

/// What a watch over the service finds.
#[derive(Debug)]
pub enum WatchEvent {
    /// A look at the service.
    Looked { phase: BootPhase, healthy: bool, exited: bool },
    /// Why the service has ended.
    Drained(BootIssue),
    /// A look at the port, `elapsed` milliseconds after the service has ended.
    Probed { phase: BootPhase, child_alive: bool, healthy: bool, elapsed: u64 },
    /// Whether the process is gone.
    Checked { exited: bool },
    /// How the restart went.
    Restarted(Result<(), BootIssue>),
}

/// What a watch over the service finds, with texts as characters.
pub enum WatchEventView {
    Looked { phase: BootPhase, healthy: bool, exited: bool },
    Drained(IssueView),
    Probed { phase: BootPhase, child_alive: bool, healthy: bool, elapsed: u64 },
    Checked { exited: bool },
    Restarted(Result<(), IssueView>),
}

impl View for WatchEvent {
    type V = WatchEventView;

    open spec fn view(&self) -> WatchEventView {
        match self {
            WatchEvent::Looked { phase, healthy, exited } => WatchEventView::Looked {
                phase: *phase,
                healthy: *healthy,
                exited: *exited,
            },
            WatchEvent::Drained(issue) => WatchEventView::Drained(issue@),
            WatchEvent::Probed { phase, child_alive, healthy, elapsed } => {
                WatchEventView::Probed {
                    phase: *phase,
                    child_alive: *child_alive,
                    healthy: *healthy,
                    elapsed: *elapsed,
                }
            },
            WatchEvent::Checked { exited } => WatchEventView::Checked { exited: *exited },
            WatchEvent::Restarted(Ok(_)) => WatchEventView::Restarted(Ok(())),
            WatchEvent::Restarted(Err(issue)) => WatchEventView::Restarted(Err(issue@)),
        }
    }
}

/// The number of the next look.
pub open spec fn next_tick(tick: u32) -> u32 {
    if tick == u32::MAX {
        0
    } else {
        (tick + 1) as u32
    }
}

/// Whether a look asks for the process: always where the service does not answer, and at every
/// fifteenth look where it does.
pub open spec fn asks_process(tick: u32, healthy: bool) -> bool {
    !healthy || tick % HEALTH_REAP_EVERY == 0
}

fn advance(tick: u32) -> (r: u32)
    ensures
        r == next_tick(tick),
{
    if tick == u32::MAX {
        0
    } else {
        tick + 1
    }
}

/// Whether the next look, after `tick` looks, asks for the process of a service that answers or
/// does not.
pub fn look_asks_process(tick: u32, healthy: bool) -> (r: bool)
    ensures
        r == asks_process(next_tick(tick), healthy),
{
    !healthy || advance(tick) % HEALTH_REAP_EVERY == 0
}

/// What a watch over the service comes to.
pub open spec fn watch_next(at: WatchView, event: WatchEventView) -> WatchView {
    match (at, event) {
        (WatchView::Watching { tick }, WatchEventView::Looked { phase, healthy, exited }) => {
            let now = next_tick(tick);
            if phase != BootPhase::Ready {
                WatchView::Ended
            } else if asks_process(now, healthy) && exited {
                WatchView::Draining { tick: now }
            } else {
                WatchView::Watching { tick: now }
            }
        },
        (WatchView::Draining { tick }, WatchEventView::Drained(issue)) => {
            if issue.kind is Unknown {
                WatchView::Probing { tick, issue }
            } else {
                WatchView::Failed { issue }
            }
        },
        (
            WatchView::Probing { tick, issue },
            WatchEventView::Probed { phase, child_alive, healthy, elapsed },
        ) => {
            if phase != BootPhase::Ready {
                WatchView::Ended
            } else if child_alive {
                WatchView::Watching { tick }
            } else if healthy {
                WatchView::Claiming { tick }
            } else if elapsed >= PROBE_WINDOW {
                WatchView::Failed { issue }
            } else {
                at
            }
        },
        (WatchView::Claiming { tick }, WatchEventView::Checked { exited }) => {
            if exited {
                WatchView::Restarting
            } else {
                WatchView::Watching { tick }
            }
        },
        (WatchView::Restarting, WatchEventView::Restarted(Ok(_))) => WatchView::Recovered,
        (WatchView::Restarting, WatchEventView::Restarted(Err(issue))) => WatchView::Failed {
            issue,
        },
        _ => at,
    }
}

/// Begins a watch over the service, unless one is under way.
pub fn spawn_service_watch(state: &mut AppState) -> (r: Option<Watch>)
    ensures
        *final(state) == (AppState { service_watch_active: true, ..*old(state) }),
        if old(state).service_watch_active {
            r is None
        } else {
            r is Some && r->0@ == (WatchView::Watching { tick: 0 })
        },
{
    if state.service_watch_active {
        return None;
    }
    state.service_watch_active = true;
    Some(Watch::Watching { tick: 0 })
}

/// What a watch over the service comes to. A watch that is over leaves room for another one; one
/// that finds the service down records it with what the user can do, and one that has brought it
/// back records that it is up.
pub fn watch_step(state: &mut AppState, at: Watch, event: WatchEvent) -> (r: Watch)
    ensures
        r@ == watch_next(at@, event@),
        match watch_next(at@, event@) {
            WatchView::Failed { issue } if !(at@ is Failed) => failed_with(
                (AppState { service_watch_active: false, ..*old(state) }),
                crash_text(issue.kind),
                issue,
                *final(state),
            ),
            WatchView::Ended if !(at@ is Ended) => *final(state) == (AppState {
                service_watch_active: false,
                ..*old(state)
            }),
            WatchView::Recovered if !(at@ is Recovered) => *final(state) == (AppState {
                service_watch_active: false,
                phase: BootPhase::Ready,
                error_message: None,
                ..*old(state)
            }),
            _ => *final(state) == *old(state),
        },
{
    match (at, event) {
        (Watch::Watching { tick }, WatchEvent::Looked { phase, healthy, exited }) => {
            let now: u32 = advance(tick);
            if phase != BootPhase::Ready {
                state.service_watch_active = false;
                Watch::Ended
            } else if (!healthy || now % HEALTH_REAP_EVERY == 0) && exited {
                Watch::Draining { tick: now }
            } else {
                Watch::Watching { tick: now }
            }
        },
        (Watch::Draining { tick }, WatchEvent::Drained(issue)) => {
            let unknown = matches!(&issue.kind, FailureKind::Unknown);
            if unknown {
                Watch::Probing { tick, issue }
            } else {
                fail_watch(state, &issue);
                Watch::Failed { issue }
            }
        },
        (
            Watch::Probing { tick, issue },
            WatchEvent::Probed { phase, child_alive, healthy, elapsed },
        ) => {
            if phase != BootPhase::Ready {
                state.service_watch_active = false;
                return Watch::Ended;
            }
            match probe_decision(child_alive, healthy, elapsed, PROBE_WINDOW) {
                ProbeDecision::BackToWatch => Watch::Watching { tick },
                ProbeDecision::Takeover => Watch::Claiming { tick },
                ProbeDecision::TimedOut => {
                    fail_watch(state, &issue);
                    Watch::Failed { issue }
                },
                ProbeDecision::KeepProbing => Watch::Probing { tick, issue },
            }
        },
        (Watch::Claiming { tick }, WatchEvent::Checked { exited }) => {
            if exited {
                Watch::Restarting
            } else {
                Watch::Watching { tick }
            }
        },
        (Watch::Restarting, WatchEvent::Restarted(result)) => {
            match result {
                Ok(_) => {
                    state.service_watch_active = false;
                    service_ready(state);
                    Watch::Recovered
                },
                Err(issue) => {
                    fail_watch(state, &issue);
                    Watch::Failed { issue }
                },
            }
        },
        (at, _) => at,
    }
}

fn fail_watch(state: &mut AppState, issue: &BootIssue)
    ensures
        failed_with(
            (AppState { service_watch_active: false, ..*old(state) }),
            crash_text(issue@.kind),
            issue@,
            *final(state),
        ),
{
    state.service_watch_active = false;
    let msg = crash_message(&issue.kind);
    fail_to_boot_page(state, issue, msg);
}

/// A watch brings the service down only where its process is gone and its output tells why, or
/// where nothing has answered for the whole window, or where a restart has failed.
pub proof fn watch_fails_with_reason(at: WatchView, event: WatchEventView)
    ensures
        watch_next(at, event) is Failed && !(at is Failed) ==> {
            ||| at is Draining && event is Drained && !(event->Drained_0.kind is Unknown)
            ||| at is Probing && event is Probed && !event->Probed_child_alive
                && !event->Probed_healthy && event->Probed_elapsed >= PROBE_WINDOW
            ||| at is Restarting && event is Restarted && event->Restarted_0 is Err
        },
{
}

/// Whether a result is what an operation comes to that stops the service, where the service was
/// brought back afterwards or was not.
pub open spec fn mutation_told<T>(
    op: Result<T, String>,
    restarted: bool,
    r: Result<T, String>,
) -> bool {
    match op {
        Ok(v) => if restarted {
            r == Ok::<T, String>(v)
        } else {
            r is Err && r->Err_0@ == "操作已完成，但服务未能自动重启。"@
        },
        Err(e) => r is Err && r->Err_0@ == (if restarted {
            e@ + "\n服务已自动重启。"@
        } else {
            e@ + "\n服务也未能自动重启。"@
        }),
    }
}

/// Whether a state is another one in which it is recorded how the service came back after an
/// operation.
pub open spec fn mutation_recorded(
    before: AppState,
    started: Result<(), BootIssue>,
    zh: bool,
    after: AppState,
) -> bool {
    match started {
        Ok(_) => after == (AppState {
            phase: BootPhase::Ready,
            error_message: None,
            ..before
        }),
        Err(issue) => failed_with(
            before,
            if issue@.spawn_error {
                issue@.detail
            } else {
                mutation_failure(issue@.kind, zh)
            },
            issue@,
            after,
        ),
    }
}

fn mutation_result<T>(op: Result<T, String>, restarted: bool) -> (r: Result<T, String>)
    ensures
        mutation_told(op, restarted, r),
{
    match op {
        Ok(v) => if restarted {
            Ok(v)
        } else {
            Err("操作已完成，但服务未能自动重启。".to_owned())
        },
        Err(e) => if restarted {
            Err(cat(e.as_str(), "\n服务已自动重启。"))
        } else {
            Err(cat(e.as_str(), "\n服务也未能自动重启。"))
        },
    }
}

/// What an operation comes to for which the service was stopped: `op` is what became of it, and
/// `started` how the service was brought back. That is recorded, and the user is told of both.
pub fn mutation_inner<T>(
    state: &mut AppState,
    op: Result<T, String>,
    started: &Result<(), BootIssue>,
    zh: bool,
) -> (r: Result<T, String>)
    ensures
        mutation_told(op, started is Ok, r),
        mutation_recorded(*old(state), *started, zh, *final(state)),
{
    match started {
        Ok(_) => {
            service_ready(state);
        },
        Err(issue) => {
            if issue.spawn_error {
                fail_to_boot_page(state, issue, issue.detail.as_str());
            } else {
                let text = mutation_failure_text(&issue.kind, zh);
                fail_to_boot_page(state, issue, text);
            }
        },
    }
    mutation_result(op, started.is_ok())
}

/// How far an operation has come for which the service is stopped, and what is to be done next.
#[derive(Debug)]
pub enum Mutation<T> {
    /// The service is to be stopped.
    Stopping,
    /// The operation is to be carried out.
    Working,
    /// The service is to be started again, whatever became of the operation.
    Starting { done: Result<T, String> },
    /// It is over, with this result.
    Over(Result<T, String>),
}

/// What has happened during an operation for which the service is stopped.
#[derive(Debug)]
pub enum MutationEvent<T> {
    /// The service is stopped.
    Stopped,
    /// The operation was carried out, with this result.
    Worked(Result<T, String>),
    /// The service is back, or it is not.
    Started(Result<(), BootIssue>),
}

/// How far an operation has come, as a number: 0 before the service is stopped, 1 before the
/// operation is carried out, 2 before the service is started again, 3 at the end.
pub open spec fn mutation_stage<T>(at: Mutation<T>) -> nat {
    match at {
        Mutation::Stopping => 0,
        Mutation::Working => 1,
        Mutation::Starting { .. } => 2,
        Mutation::Over(_) => 3,
    }
}

/// How far an operation comes by what has happened: one stage further by what the stage waits
/// for, and nowhere by anything else.
pub open spec fn mutation_next_stage<T>(at: Mutation<T>, event: MutationEvent<T>) -> nat {
    match (at, event) {
        (Mutation::Stopping, MutationEvent::Stopped) => 1,
        (Mutation::Working, MutationEvent::Worked(_)) => 2,
        (Mutation::Starting { .. }, MutationEvent::Started(_)) => 3,
        _ => mutation_stage(at),
    }
}

/// Begins an operation for which the service is stopped.
pub fn mutation_begin<T>(state: &mut AppState) -> (r: Mutation<T>)
    ensures
        r is Stopping,
        *final(state) == (AppState { phase: BootPhase::ServiceStart, ..*old(state) }),
{
    state.set_phase(BootPhase::ServiceStart);
    Mutation::Stopping
}

/// What an operation comes to for which the service is stopped.
pub fn mutation_step<T>(
    state: &mut AppState,
    at: Mutation<T>,
    event: MutationEvent<T>,
    zh: bool,
) -> (r: Mutation<T>)
    ensures
        mutation_stage(r) == mutation_next_stage(at, event),
        match (at, event) {
            (Mutation::Stopping, MutationEvent::Stopped) => *final(state) == *old(state),
            (Mutation::Working, MutationEvent::Worked(done)) => r == (Mutation::Starting { done })
                && *final(state) == *old(state),
            (Mutation::Starting { done }, MutationEvent::Started(started)) => {
                &&& mutation_told(done, started is Ok, r->Over_0)
                &&& mutation_recorded(*old(state), started, zh, *final(state))
            },
            _ => r == at && *final(state) == *old(state),
        },
{
    match (at, event) {
        (Mutation::Stopping, MutationEvent::Stopped) => Mutation::Working,
        (Mutation::Working, MutationEvent::Worked(done)) => Mutation::Starting { done },
        (Mutation::Starting { done }, MutationEvent::Started(started)) => {
            Mutation::Over(mutation_inner(state, done, &started, zh))
        },
        (at, _) => at,
    }
}

/// How often a stage is entered while the stages are these, one after the other.
pub open spec fn times_at(stages: Seq<nat>, stage: nat) -> nat
    decreases stages.len(),
{
    if stages.len() <= 1 {
        0
    } else {
        let before = times_at(stages.drop_last(), stage);
        if stages.last() == stage && stages[stages.len() - 2] != stage {
            before + 1
        } else {
            before
        }
    }
}

/// Whether stages can follow each other: each is the one before it or the next one.
pub open spec fn in_stages(stages: Seq<nat>) -> bool {
    forall|i: int|
        0 <= i < stages.len() - 1 ==> stages[i] <= #[trigger] stages[i + 1] <= stages[i] + 1
}

proof fn lemma_times_at(stages: Seq<nat>, stage: nat)
    requires
        stages.len() > 0,
        in_stages(stages),
    ensures
        times_at(stages, stage) <= (if stages.last() >= stage {
            1nat
        } else {
            0
        }),
        stages[0] < stage && stages.last() >= stage ==> times_at(stages, stage) == 1,
    decreases stages.len(),
{
    if stages.len() > 1 {
        let front = stages.drop_last();
        assert forall|i: int| 0 <= i < front.len() - 1 implies front[i] <= #[trigger] front[i + 1]
            <= front[i] + 1 by {
            assert(front[i] == stages[i] && front[i + 1] == stages[i + 1]);
        }
        lemma_times_at(front, stage);
        let k = stages.len() - 2;
        assert(stages[k] <= stages[k + 1] <= stages[k] + 1);
        assert(front.last() == stages[k]);
        assert(front[0] == stages[0]);
    }
}

/// A step takes an operation at most one stage further, and only by what the stage waits for: the
/// operation is carried out only once the service is stopped, and once it was, the service is
/// started again, whether it went well or not.
pub proof fn service_is_started_after_any_operation<T>(at: Mutation<T>, event: MutationEvent<T>)
    ensures
        mutation_stage(at) <= mutation_next_stage(at, event) <= mutation_stage(at) + 1,
        mutation_next_stage(at, event) == 1 && mutation_stage(at) != 1 ==> at is Stopping
            && event is Stopped,
        at is Working && event is Worked ==> mutation_next_stage(at, event) == 2,
        mutation_next_stage(at, event) == 3 && mutation_stage(at) != 3 ==> at is Starting
            && event is Started,
{
}

/// Whatever happens, an operation that has come to its end was carried out exactly once, and the
/// service was started again exactly once after it.
pub proof fn operation_is_carried_out_once(stages: Seq<nat>)
    requires
        stages.len() > 0,
        in_stages(stages),
        stages[0] == 0,
    ensures
        times_at(stages, 1) <= 1,
        times_at(stages, 2) <= 1,
        stages.last() == 3 ==> times_at(stages, 1) == 1 && times_at(stages, 2) == 1,
{
    lemma_times_at(stages, 1);
    lemma_times_at(stages, 2);
}

/// What the user gets of an operation for which the service was stopped. One that was torn off
/// in the middle, which is `None`, is recorded as an error.
pub fn run_exclusive_mutation<T>(state: &mut AppState, outcome: Option<Result<T, String>>) -> (r:
    Result<T, String>)
    ensures
        match outcome {
            Some(x) => r == x && *final(state) == *old(state),
            None => {
                &&& r is Err
                &&& r->Err_0@ == "服务操作异常中断，请重试。"@
                &&& old(state).failed_as("服务操作异常中断，请重试。"@, *final(state))
            },
        },
{
    match outcome {
        Some(x) => x,
        None => {
            state.set_error("服务操作异常中断，请重试。");
            Err("服务操作异常中断，请重试。".to_owned())
        },
    }
}

/// Records how a restart that was asked for by a menu went. A service that could not even be
/// started leaves the state as it is.
pub fn menu_restart(state: &mut AppState, started: &Result<(), BootIssue>)
    ensures
        match started {
            Ok(_) => *final(state) == (AppState {
                phase: BootPhase::Ready,
                error_message: None,
                ..*old(state)
            }),
            Err(issue) => if issue@.spawn_error {
                *final(state) == *old(state)
            } else {
                failed_with(*old(state), crash_text(issue@.kind), issue@, *final(state))
            },
        },
{
    match started {
        Ok(_) => {
            service_ready(state);
        },
        Err(issue) => {
            if !issue.spawn_error {
                let msg = crash_message(&issue.kind);
                fail_to_boot_page(state, issue, msg);
            }
        },
    }
}

/// Whether the runtime is known, without which the service cannot be dealt with.
pub fn runtime_known(state: &AppState) -> (r: Result<(), String>)
    ensures
        if state.runtime_dir@.len() == 0 {
            r is Err && r->Err_0@ == "服务尚未初始化"@
        } else {
            r is Ok
        },
{
    if chars(state.runtime_dir.as_str()).len() == 0 {
        Err("服务尚未初始化".to_owned())
    } else {
        Ok(())
    }
}

/// Records how a restart that the user has asked for went, and says what the user is told.
pub fn restart_service(state: &mut AppState, started: &Result<(), BootIssue>, zh: bool) -> (r:
    Result<(), String>)
    ensures
        match started {
            Ok(_) => r is Ok && *final(state) == (AppState {
                phase: BootPhase::Ready,
                error_message: None,
                ..*old(state)
            }),
            Err(issue) => {
                let text = if issue@.spawn_error {
                    issue@.detail
                } else {
                    mutation_failure(issue@.kind, zh)
                };
                &&& r is Err
                &&& r->Err_0@ == text
                &&& failed_with(*old(state), text, issue@, *final(state))
            },
        },
{
    match started {
        Ok(_) => {
            service_ready(state);
            Ok(())
        },
        Err(issue) => {
            if issue.spawn_error {
                fail_to_boot_page(state, issue, issue.detail.as_str());
                return Err(issue.detail.clone());
            }
            let text = mutation_failure_text(&issue.kind, zh);
            fail_to_boot_page(state, issue, text);
            Err(text.to_owned())
        },
    }
}

/// Records how a restart after an update of DSH went. The result is whether the service is back.
pub fn restart_dsh_service(state: &mut AppState, started: &Result<(), BootIssue>) -> (r: bool)
    ensures
        r == (started is Ok),
        match started {
            Ok(_) => *final(state) == (AppState {
                phase: BootPhase::Ready,
                error_message: None,
                ..*old(state)
            }),
            Err(_) => old(state).failed_as(
                "更新后服务没有正常启动，请稍后再试。"@,
                *final(state),
            ),
        },
{
    match started {
        Ok(_) => {
            service_ready(state);
            true
        },
        Err(_) => {
            state.set_error("更新后服务没有正常启动，请稍后再试。");
            false
        },
    }
}

/// Whether a repair has put everything in place, before the service is started: `installed` is
/// what the installer has printed, or why it did not run.
pub fn repair_prepared(installed: &Result<String, String>) -> (r: Result<(), String>)
    ensures
        match installed {
            Err(e) => r is Err && r->Err_0@ == "修复失败："@ + e@,
            Ok(out) => match node::prepared(out@, "修复没有成功，请重试。"@) {
                Ok(_) => r is Ok,
                Err(e) => r is Err && r->Err_0@ == e,
            },
        },
{
    match installed {
        Err(e) => Err(cat("修复失败：", e.as_str())),
        Ok(out) => check_prepared(out.as_str(), "修复没有成功，请重试。"),
    }
}

/// Whether the service is complete after a repair.
pub fn repair_complete(bin_there: bool) -> (r: Result<(), String>)
    ensures
        if bin_there {
            r is Ok
        } else {
            r is Err && r->Err_0@ == "修复后服务仍不完整，请重新安装。"@
        },
{
    if bin_there {
        Ok(())
    } else {
        Err("修复后服务仍不完整，请重新安装。".to_owned())
    }
}

/// Records how the start after a repair went, and says what the user is told.
pub fn repair_service(state: &mut AppState, started: &Result<(), BootIssue>) -> (r: Result<
    (),
    String,
>)
    ensures
        match started {
            Ok(_) => r is Ok && *final(state) == (AppState {
                phase: BootPhase::Ready,
                error_message: None,
                ..*old(state)
            }),
            Err(issue) => if issue@.spawn_error {
                &&& r is Err
                &&& r->Err_0@ == issue@.detail
                &&& failed_with(*old(state), issue@.detail, issue@, *final(state))
            } else {
                &&& r is Err
                &&& r->Err_0@ == "服务未就绪"@
                &&& failed_with(
                    *old(state),
                    "修复后服务没有正常启动，请稍后再试。"@,
                    issue@,
                    *final(state),
                )
            },
        },
{
    match started {
        Ok(_) => {
            service_ready(state);
            Ok(())
        },
        Err(issue) => {
            if issue.spawn_error {
                fail_to_boot_page(state, issue, issue.detail.as_str());
                return Err(issue.detail.clone());
            }
            fail_to_boot_page(state, issue, "修复后服务没有正常启动，请稍后再试。");
            Err("服务未就绪".to_owned())
        },
    }
}

/// The address of the service is the one that it announced, as it is; else that of its port.
pub proof fn announced_address_is_the_address(announced: Option<String>, port: u16, r: String)
    requires
        call_ensures(service_url, (announced, port), r),
    ensures
        announced matches Some(u) ==> r@ == u@,
        announced is None ==> r@ == "http://127.0.0.1:"@ + text::decimal(port as nat),
{
}

/// After a restart the window that shows the service is sent to its address without the token, which
/// is kept for letting it in; a window that shows something else stays.
pub proof fn window_follows_the_restarted_service(
    state: &mut AppState,
    announced: Option<String>,
    on_page: bool,
    r: Refresh,
)
    requires
        call_ensures(refresh_main_after_restart, (state, announced, on_page), r),
    ensures
        announced matches Some(u) ==> r.url@ == u@,
        announced is None ==> r.url@ == "http://127.0.0.1:"@ + text::decimal(
            old(state).port as nat,
        ),
        final(state).pending_auth_url is Some,
        final(state).pending_auth_url->0@ == r.url@,
        r.target is Some <==> on_page,
        on_page ==> (without_query(r.url@) matches Some(bare) ==> r.target->0@ == bare),
        on_page && without_query(r.url@) is None ==> r.target->0@ == r.url@,
        final(state).phase == old(state).phase,
{
}

/// An issue tells what the output of the service tells: the kind of the failure, the end of the
/// output, the plugins to blame that can be removed, and the lock that stands in the way. Without an
/// output nothing is known.
pub proof fn issue_tells_what_the_output_tells(
    os: Os,
    disk: &Disk,
    home: &str,
    sup: &Supervisor,
    r: BootIssue,
)
    requires
        call_ensures(boot_issue, (os, disk, home, sup), r),
    ensures
        !r.spawn_error,
        sup.capture is None ==> r@.kind is Unknown && r@.plugins.len() == 0 && r@.lock_path is None
            && r@.detail.len() == 0,
        sup.capture matches Some(c) ==> ({
            let output = text::utf8_lossy(c.bytes());
            &&& r@.kind == serviceout::kind_of(output)
            &&& r@.detail == supervisor::byte_tail(output, 4096)
            &&& r@.kind is PluginTree ==> r@.plugins == plugins::removable(
                os,
                disk@,
                plugin_profile::profile_of(os, home@),
                serviceout::blamed_packages(
                    text::lines(supervisor::byte_tail(output, 4096)),
                ),
            ) && r@.lock_path is None
            &&& r@.kind matches FailureView::StaleLock { lock_path } ==> r@.lock_path == lock_path
                && r@.plugins.len() == 0
            &&& r@.kind is Unknown ==> r@.plugins.len() == 0 && r@.lock_path is None
        }),
{
}

/// A failure brings the user to the start page with its message and with what can be done about it.
pub proof fn failure_is_shown_with_its_remedy(state: &mut AppState, issue: &BootIssue, msg: &str)
    requires
        call_ensures(fail_to_boot_page, (state, issue, msg), ()),
    ensures
        final(state).phase == BootPhase::Error,
        final(state).error_message is Some && final(state).error_message->0@ == msg@,
        final(state).last_recovery is Some,
        final(state).last_recovery->0@.plugins == issue@.plugins,
        final(state).last_recovery->0@.lock_path == issue@.lock_path,
        final(state).last_recovery->0@.detail == issue@.detail,
        issue@.kind is PluginTree ==> final(state).last_recovery->0@.kind == "plugins"@,
        issue@.kind is StaleLock ==> final(state).last_recovery->0@.kind == "stale-lock"@,
        issue@.kind is Unknown ==> final(state).last_recovery->0@.kind == "unknown"@,
        final(state).port == old(state).port,
{
}

/// Outside Windows, a lock file may be removed just where it lies below the data directory, by a path
/// that does not climb, and is named as one.
pub proof fn locks_of_dsh_may_be_removed(os: Os, path: &str, home: &str, r: bool)
    requires
        os != Os::Windows,
        call_ensures(is_safe_lock_path, (os, path, home), r),
    ensures
        r <==> {
            &&& paths::name_of(os, path@) is Some
            &&& ".lock"@.is_suffix_of(paths::name_of(os, path@)->0)
            &&& home@.is_prefix_of(path@)
            &&& path@.len() > home@.len()
            &&& path@[home@.len() as int] == '/'
            &&& forall|i: int|
                home@.len() < i && i + 2 <= path@.len() && #[trigger] path@[i] == '.' && path@[i + 1]
                    == '.' && path@[i - 1] == '/' ==> i + 2 < path@.len() && path@[i + 2] != '/'
        },
{
    let h = home@.len() as int;
    if h < path@.len() && home@.is_prefix_of(path@) && path@[h] == '/' {
        let tail = path@.subrange(h, path@.len() as int);
        assert(tail[0] == '/');
        if !climbs(os, tail) {
            assert forall|i: int|
                h < i && i + 2 <= path@.len() && #[trigger] path@[i] == '.' && path@[i + 1] == '.'
                    && path@[i - 1] == '/' implies i + 2 < path@.len() && path@[i + 2] != '/' by {
                let k = i - h;
                assert(tail[k] == path@[i] && tail[k + 1] == path@[i + 1] && tail[k - 1] == path@[i
                    - 1]);
                if i + 2 < path@.len() {
                    assert(tail[k + 2] == path@[i + 2]);
                }
                assert(!climbs_at(os, tail, k));
            }
        } else {
            let k = choose|k: int| climbs_at(os, tail, k);
            assert(tail[k] == path@[h + k] && tail[k + 1] == path@[h + k + 1]);
            assert(k > 0);
            assert(tail[k - 1] == path@[h + k - 1]);
            if k + 2 < tail.len() {
                assert(tail[k + 2] == path@[h + k + 2]);
            }
        }
    }
}

/// On Windows the same holds whatever the case of the letters, and with either slash.
pub proof fn locks_of_dsh_may_be_removed_on_windows(path: &str, home: &str, r: bool)
    requires
        call_ensures(is_safe_lock_path, (Os::Windows, path, home), r),
    ensures
        r ==> {
            let p = text::lowercase(path@);
            let h = text::lowercase(home@);
            &&& paths::name_of(Os::Windows, path@) is Some
            &&& ".lock"@.is_suffix_of(paths::name_of(Os::Windows, path@)->0)
            &&& h.is_prefix_of(p)
            &&& p.len() > h.len()
            &&& p[h.len() as int] == '/' || p[h.len() as int] == '\\'
            &&& forall|i: int|
                0 <= i && h.len() + i + 2 < p.len() ==> !(#[trigger] p[h.len() + i] == '\\' && p[
                h.len() + i + 1] == '.' && p[h.len() + i + 2] == '.' && (h.len() + i + 3 == p.len()
                    || p[h.len() + i + 3] == '\\'))
        },
{
    if r {
        let p = text::lowercase(path@);
        let h = text::lowercase(home@);
        let tail = p.subrange(h.len() as int, p.len() as int);
        assert forall|i: int| 0 <= i && h.len() + i + 2 < p.len() implies !(#[trigger] p[h.len() + i]
            == '\\' && p[h.len() + i + 1] == '.' && p[h.len() + i + 2] == '.' && (h.len() + i + 3
            == p.len() || p[h.len() + i + 3] == '\\')) by {
            assert(tail[i] == p[h.len() + i] && tail[i + 1] == p[h.len() + i + 1] && tail[i + 2]
                == p[h.len() + i + 2]);
            if h.len() + i + 3 < p.len() {
                assert(tail[i + 3] == p[h.len() + i + 3]);
            }
            assert(!climbs_at(Os::Windows, tail, i + 1));
        }
    }
}

/// A start that goes well is waited for and then ready, on the port that it got; one that could not be
/// made fails with its reason. A service that went down over a lock that may be removed is started
/// once more after it was, and only while no other host runs; any other way ends with the issue.
pub proof fn healing_goes_its_way(
    os: Os,
    home: &str,
    state: &mut AppState,
    at: Heal,
    event: HealEvent,
    r: Heal,
)
    requires
        call_ensures(heal_step, (os, home, state, at, event), r),
    ensures
        at is Starting && event@ is Started && event@->Started_0 is Ok ==> r@ is Waiting && final(state).port == event@->Started_0->Ok_0,
        at is Starting && event@ is Started && event@->Started_0 is Err ==> r@ is Failed
            && r@->Failed_issue.spawn_error && r@->Failed_issue.detail == event@->Started_0->Err_0,
        at is Waiting && event@ is Waited && event@->Waited_0 is Ok ==> r@ is Ready,
        at is Waiting && event@ is Waited && event@->Waited_0 is Err && !(r@ is Asking) ==> r@
            is Failed && r@->Failed_issue == event@->Waited_0->Err_0,
        r@ is Asking && !(at@ is Asking) ==> {
            &&& event@->Waited_0->Err_0.kind is StaleLock
            &&& safe_lock(os, r@->Asking_path, home@)
            &&& event@->Waited_0->Err_0.kind->lock_path == Some(r@->Asking_path)
        },
        at@ is Asking && event@ is Hosts ==> (r@ is Removing <==> !event@->other) && (r@ is Removing
            ==> r@->Removing_path == at@->Asking_path),
        at@ is Removing && event@ is Removed ==> (r@ is Starting <==> event@->Removed_0) && (r@
            is Starting ==> r@->Starting_healed),
        !(at is Starting) ==> *final(state) == *old(state),
{
}

/// A service that answers is there; one that has gone is not waited for; else it is waited for until
/// the time is over.
pub proof fn service_is_waited_for(
    healthy: bool,
    exited: bool,
    waited: u64,
    timeout: u64,
    r: Option<WaitOutcome>,
    more: bool,
)
    requires
        call_ensures(wait_service_outcome, (healthy, exited, waited, timeout), r),
        call_ensures(wait_service_url, (healthy, exited, waited, timeout), more),
    ensures
        healthy ==> r == Some(WaitOutcome::Ready),
        !healthy && exited ==> r == Some(WaitOutcome::Exited),
        !healthy && !exited && waited >= timeout ==> r == Some(WaitOutcome::Timeout),
        !healthy && !exited && waited < timeout ==> r is None,
        more <==> !healthy && !exited && waited < timeout,
{
}

/// A watched service is left alone while it runs; one that went down for a reason that is known fails
/// with it, and one without is given time to come back: by itself, or on its port under another
/// process, which is then taken over by a restart. Nothing is watched any more once the application
/// is not ready.
pub proof fn watch_goes_its_way(state: &mut AppState, at: Watch, event: WatchEvent, r: Watch)
    requires
        call_ensures(watch_step, (state, at, event), r),
    ensures
        at@ is Watching && event@ is Looked && event@->Looked_phase != BootPhase::Ready ==> r@
            is Ended,
        at@ is Watching && event@ is Looked && event@->Looked_phase == BootPhase::Ready && !event@->Looked_exited
            ==> r@ is Watching,
        at@ is Watching && event@ is Looked && event@->Looked_phase == BootPhase::Ready
            && event@->Looked_exited && !event@->Looked_healthy ==> r@ is Draining,
        at@ is Draining && event@ is Drained && !(event@->Drained_0.kind is Unknown) ==> r@
            is Failed && r@->Failed_issue == event@->Drained_0,
        at@ is Draining && event@ is Drained && event@->Drained_0.kind is Unknown ==> r@
            is Probing && r@->Probing_issue == event@->Drained_0,
        at@ is Probing && event@ is Probed && event@->Probed_phase == BootPhase::Ready ==> {
            &&& event@->child_alive ==> r@ is Watching
            &&& !event@->child_alive && event@->Probed_healthy ==> r@ is Claiming
            &&& !event@->child_alive && !event@->Probed_healthy && event@->elapsed >= 20_000
                ==> r@ is Failed
            &&& !event@->child_alive && !event@->Probed_healthy && event@->elapsed < 20_000
                ==> r@ == at@
        },
        at@ is Restarting && event@ is Restarted ==> (r@ is Recovered <==> event@->Restarted_0
            is Ok),
        r@ is Failed && !(at@ is Failed) ==> final(state).phase == BootPhase::Error && final(state).error_message is Some && final(state).last_recovery is Some && final(state).last_recovery->0@.plugins == r@->Failed_issue.plugins && !final(state).service_watch_active,
        r@ is Recovered && !(at@ is Recovered) ==> final(state).phase == BootPhase::Ready && final(state).error_message is None && !final(state).service_watch_active,
        r@ is Failed && !(at@ is Failed) ==> final(state).error_message->0@ == (match r@->Failed_issue.kind {
            FailureView::PluginTree => "服务因插件不兼容意外停止，请移除不兼容插件后重试。"@,
            FailureView::StaleLock { .. } => "服务意外停止（残留锁文件可能仍在阻止启动），请重试。"@,
            FailureView::Unknown => "服务意外停止，请点击重试。"@,
        }),
{
}

/// A service is watched once at a time, from the first look on.
pub proof fn service_is_watched_once(state: &mut AppState, r: Option<Watch>)
    requires
        call_ensures(spawn_service_watch, (state,), r),
    ensures
        r is Some <==> !old(state).service_watch_active,
        final(state).service_watch_active,
        r matches Some(w) ==> w@ is Watching && w@->Watching_tick == 0,
{
}

/// An operation's own result is what is told, with a word on the service where that did not come
/// back or the operation failed.
pub proof fn operation_tells_its_result<T>(
    state: &mut AppState,
    op: Result<T, String>,
    started: &Result<(), BootIssue>,
    zh: bool,
    r: Result<T, String>,
)
    requires
        call_ensures(mutation_inner::<T>, (state, op, started, zh), r),
    ensures
        op is Ok && started is Ok ==> r == op,
        op is Ok && started is Err ==> r is Err && r->Err_0@
            == "操作已完成，但服务未能自动重启。"@,
        op matches Err(e) ==> r is Err && r->Err_0@ == e@ + (if started is Ok {
            "\n服务已自动重启。"@
        } else {
            "\n服务也未能自动重启。"@
        }),
        started is Ok ==> final(state).phase == BootPhase::Ready && final(state).error_message
            is None,
        started is Err ==> final(state).phase == BootPhase::Error && final(state).error_message
            is Some && final(state).last_recovery is Some,
        started matches Err(issue) ==> final(state).last_recovery->0@.plugins == issue@.plugins,
{
}

/// A restart that is asked for is told to have succeeded just where the service is there; else the
/// reason is told, and kept.
pub proof fn restart_tells_the_reason(
    state: &mut AppState,
    started: &Result<(), BootIssue>,
    zh: bool,
    r: Result<(), String>,
)
    requires
        call_ensures(restart_service, (state, started, zh), r),
    ensures
        r is Ok <==> started is Ok,
        r is Ok ==> final(state).phase == BootPhase::Ready && final(state).error_message is None,
        started matches Err(issue) ==> {
            &&& final(state).phase == BootPhase::Error
            &&& final(state).error_message is Some && final(state).error_message->0@ == r->Err_0@
            &&& issue@.spawn_error ==> r->Err_0@ == issue@.detail
            &&& !issue@.spawn_error && issue@.kind is PluginTree ==> r->Err_0@ == (if zh {
                "插件与当前 DSH 版本不兼容，服务无法启动。请重新打开应用，在启动页移除不兼容插件。"@
            } else {
                "Some plugins are incompatible with this version of DSH. Reopen the app to remove them on the startup screen."@
            })
            &&& !issue@.spawn_error && issue@.kind is Unknown ==> r->Err_0@ == (if zh {
                "服务没有正常启动，请稍后再试。"@
            } else {
                "Service did not start. Please retry."@
            })
            &&& !issue@.spawn_error && issue@.kind is StaleLock ==> r->Err_0@ == (if zh {
                "服务没有正常启动（残留锁文件可能仍在阻止启动），请稍后再试。"@
            } else {
                "Service did not start (a leftover lock file may still block it). Please retry."@
            })
            &&& final(state).last_recovery is Some && final(state).last_recovery->0@.plugins
                == issue@.plugins
        },
{
}

/// A restart from the menu, after an update and after a repair leaves the application ready just where
/// the service is there.
pub proof fn restarted_service_is_ready(
    menu: &mut AppState,
    update: &mut AppState,
    repair: &mut AppState,
    started: &Result<(), BootIssue>,
    back: bool,
    repaired: Result<(), String>,
)
    requires
        call_ensures(menu_restart, (menu, started), ()),
        call_ensures(restart_dsh_service, (update, started), back),
        call_ensures(repair_service, (repair, started), repaired),
    ensures
        back <==> started is Ok,
        repaired is Ok <==> started is Ok,
        started is Ok ==> final(menu).phase == BootPhase::Ready && final(update).phase
            == BootPhase::Ready && final(repair).phase == BootPhase::Ready && final(menu).error_message is None && final(update).error_message is None && final(repair).error_message is None,
        started is Err ==> final(update).phase == BootPhase::Error && final(update).error_message is Some && final(update).error_message->0@
            == "更新后服务没有正常启动，请稍后再试。"@,
        started matches Err(issue) ==> (issue@.spawn_error ==> *final(menu) == *old(menu)
            && repaired->Err_0@ == issue@.detail),
        started matches Err(issue) ==> (!issue@.spawn_error ==> final(menu).phase
            == BootPhase::Error && final(menu).last_recovery is Some && repaired->Err_0@
            == "服务未就绪"@ && final(repair).error_message is Some && final(repair).error_message->0@ == "修复后服务没有正常启动，请稍后再试。"@),
{
}

/// A repair goes on only where the installer has run and reports no failure, and where the entry file
/// is there after it.
pub proof fn repair_needs_a_whole_runtime(
    installed: &Result<String, String>,
    there: bool,
    line: Seq<char>,
    report: JsonView,
    prepared: Result<(), String>,
    complete: Result<(), String>,
)
    requires
        call_ensures(repair_prepared, (installed,), prepared),
        call_ensures(repair_complete, (there,), complete),
    ensures
        complete is Ok <==> there,
        installed matches Err(e) ==> prepared is Err && prepared->Err_0@ == "修复失败："@ + e@,
        installed matches Ok(out) ==> (text::lines(out@).len() > 0 && text::lines(out@).last()
            == line && json::json_parsed(line) == Ok::<JsonView, Seq<char>>(report) ==> (prepared
            is Ok <==> json::member(report, "ok"@) == Some(JsonView::Bool(true)))),
{
}

/// A restart may be asked for only while nothing else is done to the service, and once its start has
/// come to an end.
pub proof fn restart_waits_for_its_turn(operations: usize, phase: BootPhase, r: bool)
    requires
        call_ensures(restart_action_allowed, (operations, phase), r),
    ensures
        r <==> operations == 0 && (phase == BootPhase::Ready || phase == BootPhase::Error),
{
}

/// The page of the service is the one on this machine, and a window on it goes back to the start page
/// where that is known.
pub proof fn service_page_is_local(
    host: Option<&str>,
    state: &AppState,
    on_page: bool,
    back: Option<String>,
)
    requires
        call_ensures(on_service_page, (host,), on_page),
        call_ensures(navigate_main_to_boot, (state, on_page), back),
    ensures
        on_page <==> host is Some && host->0@ == "127.0.0.1"@,
        on_page ==> back == state.boot_page_url,
        !on_page ==> back is None,
{
}

/// The port that is asked for is the one that is set, or else the usual one.
pub proof fn set_port_is_asked_for(config: &ConfigStore, r: u16)
    requires
        call_ensures(preferred_port, (config,), r),
    ensures
        config.config().port > 0 ==> r == config.config().port,
        config.config().port == 0 ==> r == 3080,
{
}

/// A service that does not answer is looked after at once, and one that does at every fifteenth look;
/// looks are counted on.
pub proof fn healthy_service_is_looked_after_now_and_then(tick: u32, healthy: bool, r: bool)
    requires
        call_ensures(look_asks_process, (tick, healthy), r),
    ensures
        !healthy ==> r,
        healthy && tick < u32::MAX ==> (r <==> (tick + 1) % 15 == 0),
        tick < u32::MAX ==> next_tick(tick) == tick + 1,
{
}

/// A look that finds a watched service to have ended without an answer, or at its turn, drains its
/// output; the count of looks goes on.
pub proof fn looks_are_counted(tick: u32, healthy: bool, exited: bool)
    requires
        tick < u32::MAX,
    ensures
        ({
            let next = watch_next(
                WatchView::Watching { tick },
                WatchEventView::Looked { phase: BootPhase::Ready, healthy, exited },
            );
            if exited && (!healthy || (tick + 1) % 15 == 0) {
                next == (WatchView::Draining { tick: (tick + 1) as u32 })
            } else {
                next == (WatchView::Watching { tick: (tick + 1) as u32 })
            }
        }),
        watch_next(WatchView::Claiming { tick }, WatchEventView::Checked { exited }) == (
        if exited {
            WatchView::Restarting
        } else {
            WatchView::Watching { tick }
        }),
{
}

/// What has become of a probe: a child that lives is watched again, another service on the port is
/// taken over, and otherwise it goes on until its time is over.
pub proof fn probe_is_decided(alive: bool, healthy: bool, elapsed: u64, window: u64, r: ProbeDecision)
    requires
        call_ensures(probe_decision, (alive, healthy, elapsed, window), r),
    ensures
        alive ==> r is BackToWatch,
        !alive && healthy ==> r is Takeover,
        !alive && !healthy && elapsed >= window ==> r is TimedOut,
        !alive && !healthy && elapsed < window ==> r is KeepProbing,
{
}

/// An operation on the plugins stops the service, then does its work once, and then starts the
/// service, whatever came of the work; its result is told at the end.
pub proof fn operation_goes_step_by_step<T>(
    state: &mut AppState,
    at: Mutation<T>,
    event: MutationEvent<T>,
    zh: bool,
    r: Mutation<T>,
)
    requires
        call_ensures(mutation_step::<T>, (state, at, event, zh), r),
    ensures
        at is Stopping && event is Stopped ==> r is Working,
        at is Working && event is Worked ==> r is Starting && r->done == event->Worked_0,
        at is Starting && event is Started ==> {
            &&& r is Over
            &&& at->done is Ok && event->Started_0 is Ok ==> r->Over_0 == at->done
            &&& at->done is Err ==> r->Over_0 is Err
            &&& event->Started_0 is Err ==> r->Over_0 is Err
            &&& event->Started_0 is Ok ==> final(state).phase == BootPhase::Ready
            &&& event->Started_0 is Err ==> final(state).phase == BootPhase::Error
        },
        at is Stopping && !(event is Stopped) ==> r == at,
        at is Working && !(event is Worked) ==> r == at,
        at is Over ==> r == at && *final(state) == *old(state),
{
}

/// An operation begins with the service being stopped; one that was torn off is told of, and leaves
/// the application in trouble, while one that ended is told as it ended.
pub proof fn torn_off_operation_is_told<T>(
    begun: &mut AppState,
    state: &mut AppState,
    outcome: Option<Result<T, String>>,
    first: Mutation<T>,
    r: Result<T, String>,
)
    requires
        call_ensures(mutation_begin::<T>, (begun,), first),
        call_ensures(run_exclusive_mutation::<T>, (state, outcome), r),
    ensures
        first is Stopping,
        final(begun).phase == BootPhase::ServiceStart,
        outcome matches Some(x) ==> r == x && *final(state) == *old(state),
        outcome is None ==> r is Err && r->Err_0@ == "服务操作异常中断，请重试。"@ && final(state).phase == BootPhase::Error && final(state).error_message is Some && final(state).error_message->0@ == "服务操作异常中断，请重试。"@,
{
}

/// What can be done about an issue is kept as it is; a service that is there clears the error.
pub proof fn remedy_is_kept(told: &mut AppState, ready: &mut AppState, issue: &BootIssue)
    requires
        call_ensures(emit_error_options, (told, issue), ()),
        call_ensures(service_ready, (ready,), ()),
    ensures
        final(told).last_recovery is Some,
        final(told).last_recovery->0@.plugins == issue@.plugins,
        final(told).last_recovery->0@.lock_path == issue@.lock_path,
        final(told).last_recovery->0@.detail == issue@.detail,
        final(told).phase == old(told).phase,
        final(ready).phase == BootPhase::Ready,
        final(ready).error_message is None,
        final(ready).last_recovery == old(ready).last_recovery,
{
}

/// A start begins without anything having been healed, and counts as the first or not as it was asked
/// for; the runtime has to be known for a restart.
pub proof fn healing_begins_afresh(first: bool, state: &AppState, at: Heal, known: Result<(), String>)
    requires
        call_ensures(start_service_with_heal, (first,), at),
        call_ensures(runtime_known, (state,), known),
    ensures
        at@ is Starting,
        at@->Starting_first == first,
        !at@->Starting_healed,
        known is Ok <==> state.runtime_dir@.len() > 0,
        known matches Err(e) ==> e@ == "服务尚未初始化"@,
{
}

/// The words on a failure tell its kind in the user's language.
pub proof fn failure_words_tell_the_kind(
    kind: &FailureKind,
    zh: bool,
    words: &'static str,
    crash: &'static str,
    cleaned: &'static str,
    recovering: &'static str,
)
    requires
        call_ensures(mutation_failure_text, (kind, zh), words),
        call_ensures(crash_message, (kind,), crash),
        call_ensures(lock_removed_text, (zh,), cleaned),
        call_ensures(recovering_text, (zh,), recovering),
    ensures
        kind@ is PluginTree ==> crash@ == "服务因插件不兼容意外停止，请移除不兼容插件后重试。"@,
        kind@ is StaleLock ==> crash@
            == "服务意外停止（残留锁文件可能仍在阻止启动），请重试。"@,
        kind@ is Unknown ==> crash@ == "服务意外停止，请点击重试。"@,
        kind@ is Unknown ==> words@ == (if zh {
            "服务没有正常启动，请稍后再试。"@
        } else {
            "Service did not start. Please retry."@
        }),
        kind@ is PluginTree ==> words@ == (if zh {
            "插件与当前 DSH 版本不兼容，服务无法启动。请重新打开应用，在启动页移除不兼容插件。"@
        } else {
            "Some plugins are incompatible with this version of DSH. Reopen the app to remove them on the startup screen."@
        }),
        cleaned@ == (if zh {
            "已自动清理残留锁文件，正在重试…"@
        } else {
            "Cleaned up a stale lock file, retrying…"@
        }),
        recovering@ == (if zh {
            "服务正在自动恢复，请稍候…"@
        } else {
            "Service stopped; recovering automatically…"@
        }),
{
}

/// An address without its query holds none; one that cannot be read stays as it is.
pub proof fn bare_address_has_no_query(url: &str, r: String)
    requires
        call_ensures(bare_service_url, (url,), r),
    ensures
        without_query(url@) matches Some(bare) ==> r@ == bare,
        without_query(url@) is None ==> r@ == url@,
        without_query(url@) is Some ==> !r@.subrange(0, text::upto(r@, '#') as int).contains('?'),
{
}

} // verus!
