//! Updates of DSH: looking for a new version, downloading it and putting it in place.
use crate::node;
use crate::node::{
    InstallerEnd, InstallerResult, ReportView, parse_installer_output, run_installer,
};
use crate::state;
use crate::state::{AppState, BootPhase, DshUpdateStatus, StatusView, UpdateProgress, UpdateStage};
use crate::text;
use crate::text::{begins, cat, cat3, chars, cut_both, replace, same, string_of};
use vstd::prelude::*;

verus! {

/// How a run of the installer ended that the user can call off.
#[derive(Debug)]
pub enum Ran {
    /// The user has called it off.
    Cancelled,
    /// It ended by itself.
    Ended(InstallerEnd),
}

/// What the begin of an update comes to.
#[derive(Debug)]
pub enum Begun {
    /// Another update is under way; this is what is known of it.
    Busy(DshUpdateStatus),
    /// The update is under way.
    Running,
}

/// Something that the user is told in a notification.
#[derive(Debug)]
pub struct Notice {
    pub title: String,
    pub body: String,
}

/// A notification with its texts as characters.
#[verifier::ext_equal]
pub struct NoticeView {
    pub title: Seq<char>,
    pub body: Seq<char>,
}

impl View for Notice {
    type V = NoticeView;

    open spec fn view(&self) -> NoticeView {
        NoticeView { title: self.title@, body: self.body@ }
    }
}

/// An optional notification with its texts as characters.
pub open spec fn opt_notice(n: Option<Notice>) -> Option<NoticeView> {
    match n {
        Some(x) => Some(x@),
        None => None,
    }
}

/// The first of two values that is there.
pub open spec fn or_else(a: Option<Seq<char>>, b: Option<Seq<char>>) -> Option<Seq<char>> {
    if a is Some {
        a
    } else {
        b
    }
}

/// A text, or nothing where there is none.
pub open spec fn or_empty(a: Option<Seq<char>>) -> Seq<char> {
    match a {
        Some(s) => s,
        None => Seq::empty(),
    }
}

/// A text, or another one where there is none.
pub open spec fn or_text(a: Option<Seq<char>>, b: Seq<char>) -> Seq<char> {
    match a {
        Some(s) => s,
        None => b,
    }
}

fn either(a: &Option<String>, b: &Option<String>) -> (r: Option<String>)
    ensures
        text::opt(r) == or_else(text::opt(*a), text::opt(*b)),
{
    match a {
        Some(s) => Some(s.clone()),
        None => b.clone(),
    }
}

fn text_or_empty(a: &Option<String>) -> (r: String)
    ensures
        r@ == or_empty(text::opt(*a)),
{
    match a {
        Some(s) => s.clone(),
        None => {
            let r = String::new();
            assert(r@ =~= Seq::<char>::empty());
            r
        },
    }
}

fn text_or(a: &Option<String>, b: &str) -> (r: String)
    ensures
        r@ == or_text(text::opt(*a), b@),
{
    match a {
        Some(s) => s.clone(),
        None => b.to_owned(),
    }
}

/// What is known when an update was called off: what was known before.
pub open spec fn cancelled(prev: Option<StatusView>, current: Option<Seq<char>>) -> StatusView {
    let p = match prev {
        Some(s) => s,
        None => state::blank_status(),
    };
    StatusView {
        ok: false,
        current: or_else(current, p.current),
        message: "已取消，可稍后重试。"@,
        ..p
    }
}

fn cancelled_status(prev: Option<DshUpdateStatus>, current: Option<String>) -> (r: DshUpdateStatus)
    ensures
        r@ == cancelled(state::opt_status(prev), text::opt(current)),
{
    let p = match prev {
        Some(s) => s,
        None => DshUpdateStatus::default(),
    };
    DshUpdateStatus {
        ok: false,
        update_available: p.update_available,
        current: either(&current, &p.current),
        latest: p.latest,
        prerelease: p.prerelease,
        pre_available: p.pre_available,
        message: "已取消，可稍后重试。".to_owned(),
    }
}

/// What is known while another update is under way.
pub open spec fn busy(known: Option<StatusView>) -> StatusView {
    match known {
        Some(s) => s,
        None => StatusView { message: "更新正在进行中，请稍候。"@, ..state::blank_status() },
    }
}

/// What is known while another update is under way.
pub fn busy_status(known: Option<DshUpdateStatus>) -> (r: DshUpdateStatus)
    ensures
        r@ == busy(state::opt_status(known)),
{
    match known {
        Some(s) => s,
        None => {
            let d = DshUpdateStatus::default();
            DshUpdateStatus { message: "更新正在进行中，请稍候。".to_owned(), ..d }
        },
    }
}

/// What the user is told in addition where files may be in use.
pub open spec fn locked_hint() -> Seq<char> {
    "。若提示文件被占用（其他 DSH 窗口、杀毒或残留进程），请稍后重试，持续失败请重启电脑。"@
}

fn locked_file_hint() -> (r: &'static str)
    ensures
        r@ == locked_hint(),
{
    "。若提示文件被占用（其他 DSH 窗口、杀毒或残留进程），请稍后重试，持续失败请重启电脑。"
}

/// The notification at the end of an update. The hint about files in use is left out of it.
pub open spec fn update_notice(ok: bool, body: Seq<char>, zh: bool) -> NoticeView {
    NoticeView {
        title: if ok && zh {
            "DSH 更新完成"@
        } else if ok {
            "DSH update finished"@
        } else if zh {
            "DSH 更新失败"@
        } else {
            "DSH update failed"@
        },
        body: text::replaced(body, locked_hint(), Seq::empty()),
    }
}

fn notify_dsh_update(ok: bool, body: &str, zh: bool) -> (r: Notice)
    ensures
        r@ == update_notice(ok, body@, zh),
{
    let title = if ok && zh {
        "DSH 更新完成"
    } else if ok {
        "DSH update finished"
    } else if zh {
        "DSH 更新失败"
    } else {
        "DSH update failed"
    };
    let text = chars(body);
    let hint = chars(locked_file_hint());
    let none: Vec<char> = Vec::new();
    proof {
        reveal_strlit("。若提示文件被占用（其他 DSH 窗口、杀毒或残留进程），请稍后重试，持续失败请重启电脑。");
        assert(none@ =~= Seq::<char>::empty());
    }
    let left = replace(text.as_slice(), hint.as_slice(), none.as_slice());
    Notice { title: title.to_owned(), body: string_of(left.as_slice()) }
}

/// The notification that there is a new version.
pub open spec fn available_notice(body: Seq<char>, zh: bool) -> NoticeView {
    NoticeView {
        title: if zh {
            "发现 DSH 新版本"@
        } else {
            "New DSH version available"@
        },
        body,
    }
}

fn notify_dsh_available(body: &str, zh: bool) -> (r: Notice)
    ensures
        r@ == available_notice(body@, zh),
{
    let title = if zh {
        "发现 DSH 新版本"
    } else {
        "New DSH version available"
    };
    Notice { title: title.to_owned(), body: body.to_owned() }
}

/// What the user is told where there is nothing newer.
pub open spec fn latest_words(version: Option<Seq<char>>) -> Seq<char> {
    match version {
        Some(v) if text::trim(v).len() > 0 => "已是最新版本（"@ + v + "）"@,
        _ => "已是最新版本"@,
    }
}

/// What the user is told where there is nothing newer.
pub fn up_to_date_message(version: &Option<String>) -> (r: String)
    ensures
        r@ == latest_words(text::opt(*version)),
{
    match version {
        Some(v) => {
            let s = chars(v.as_str());
            if cut_both(s.as_slice()).len() > 0 {
                cat3("已是最新版本（", v.as_str(), "）")
            } else {
                "已是最新版本".to_owned()
            }
        },
        None => "已是最新版本".to_owned(),
    }
}

/// Whether a state is another one in which an update of DSH has just begun.
pub open spec fn begun(before: AppState, stage: UpdateStage, after: AppState) -> bool {
    after == (AppState {
        dsh_update_active: true,
        dsh_cancel: false,
        dsh_progress: UpdateProgress::at(stage, true),
        ..before
    })
}

/// Whether a state is another one in which an update of DSH is over, with this known of it.
pub open spec fn over(before: AppState, status: DshUpdateStatus, after: AppState) -> bool {
    after == (AppState {
        dsh_update: Some(status),
        dsh_update_active: false,
        dsh_cancel: false,
        dsh_progress: UpdateProgress::at(UpdateStage::Idle, false),
        ..before
    })
}

/// Begins an update of DSH, unless one is under way.
pub fn try_begin_update(state: &mut AppState, stage: UpdateStage) -> (r: Begun)
    ensures
        if old(state).dsh_update_active {
            &&& r is Busy
            &&& r->Busy_0@ == busy(state::opt_status(old(state).dsh_update))
            &&& *final(state) == *old(state)
        } else {
            &&& r is Running
            &&& begun(*old(state), stage, *final(state))
        },
{
    if state.dsh_update_active {
        return Begun::Busy(busy_status(state.dsh_update()));
    }
    state.dsh_update_active = true;
    state.dsh_cancel = false;
    state.set_dsh_progress(UpdateProgress::entering(stage, true));
    Begun::Running
}

/// Gives an update of DSH up that was torn off in the middle, so that another one can begin.
/// What was known of it stays.
pub fn reset_update(state: &mut AppState)
    ensures
        *final(state) == (AppState {
            dsh_update_active: false,
            dsh_cancel: false,
            dsh_progress: UpdateProgress::at(UpdateStage::Idle, false),
            ..*old(state)
        }),
{
    state.dsh_update_active = false;
    state.dsh_cancel = false;
    state.set_dsh_progress(UpdateProgress::default());
}

fn end_update(state: &mut AppState, status: &DshUpdateStatus)
    ensures
        over(*old(state), *status, *final(state)),
{
    state.set_dsh_update(status.clone());
    reset_update(state);
}

/// Whether an update of DSH is under way.
pub fn dsh_update_active(state: &AppState) -> (r: bool)
    ensures
        r == state.dsh_update_active,
{
    state.dsh_update_active
}

/// What is known after a look for a new version, by the installer's report.
pub open spec fn checked(report: ReportView, current: Option<Seq<char>>) -> StatusView {
    if !report.ok {
        StatusView {
            current,
            message: or_text(report.message, "暂时无法检查更新"@),
            ..state::blank_status()
        }
    } else if report.action == "new-version-available"@ || report.action
        == "prerelease-available"@ {
        StatusView {
            ok: true,
            update_available: true,
            current,
            latest: report.version,
            prerelease: report.prerelease,
            pre_available: report.pre_available,
            message: if report.action == "prerelease-available"@ {
                "发现预发布版本 "@ + or_empty(report.prerelease)
            } else {
                "发现新版本 "@ + or_empty(or_else(report.version, report.prerelease))
            },
        }
    } else {
        StatusView {
            ok: true,
            update_available: false,
            current,
            latest: report.version,
            prerelease: report.prerelease,
            pre_available: report.pre_available,
            message: latest_words(or_else(report.version, report.prerelease)),
        }
    }
}

/// What is known after a look for a new version.
pub open spec fn check_result(
    ran: Ran,
    prev: Option<StatusView>,
    current: Option<Seq<char>>,
) -> StatusView {
    match ran {
        Ran::Cancelled => cancelled(prev, current),
        Ran::Ended(end) => match node::installer_output(end) {
            Ok(out) => checked(node::report_of(out), current),
            Err(e) => StatusView {
                current,
                message: "检查更新失败："@ + e,
                ..state::blank_status()
            },
        },
    }
}

fn status_checked(report: InstallerResult, current: Option<String>) -> (r: DshUpdateStatus)
    ensures
        r@ == checked(report@, text::opt(current)),
{
    let d = DshUpdateStatus::default();
    if !report.ok {
        let message = text_or(&report.message, "暂时无法检查更新");
        return DshUpdateStatus { current, message, ..d };
    }
    let version = either(&report.version, &report.prerelease);
    if same(report.action.as_str(), "new-version-available") || same(
        report.action.as_str(),
        "prerelease-available",
    ) {
        let message = if same(report.action.as_str(), "prerelease-available") {
            cat("发现预发布版本 ", text_or_empty(&report.prerelease).as_str())
        } else {
            cat("发现新版本 ", text_or_empty(&version).as_str())
        };
        return DshUpdateStatus {
            ok: true,
            update_available: true,
            current,
            latest: report.version,
            prerelease: report.prerelease,
            pre_available: report.pre_available,
            message,
        };
    }
    DshUpdateStatus {
        ok: true,
        update_available: false,
        current,
        latest: report.version,
        prerelease: report.prerelease,
        pre_available: report.pre_available,
        message: up_to_date_message(&version),
    }
}

/// What a look for a new version, which was begun, comes to. `current` is what is installed.
pub fn check_update_flow(
    state: &mut AppState,
    ran: Ran,
    current: Option<String>,
    zh: bool,
) -> (r: (DshUpdateStatus, Option<Notice>))
    ensures
        r.0@ == check_result(ran, state::opt_status(old(state).dsh_update), text::opt(current)),
        opt_notice(r.1) == (if r.0@.ok && r.0@.update_available {
            Some(available_notice(r.0@.message, zh))
        } else {
            None
        }),
        over(*old(state), r.0, *final(state)),
{
    let prev = state.dsh_update();
    let status = match ran {
        Ran::Cancelled => cancelled_status(prev, current),
        Ran::Ended(end) => match run_installer(end) {
            Ok(out) => status_checked(parse_installer_output(out.as_str()), current),
            Err(e) => {
                let d = DshUpdateStatus::default();
                DshUpdateStatus { current, message: cat("检查更新失败：", e.as_str()), ..d }
            },
        },
    };
    let notice = if status.ok && status.update_available {
        Some(notify_dsh_available(status.message.as_str(), zh))
    } else {
        None
    };
    end_update(state, &status);
    (status, notice)
}

/// What a download comes to.
#[derive(Debug)]
pub enum Downloaded {
    /// The update is over, with this known of it.
    Over(DshUpdateStatus, Option<Notice>),
    /// A new version was downloaded and is to be put in place.
    Swap(InstallerResult),
}

/// What is known when a download did not bring a new version, by the installer's report.
pub open spec fn nothing_downloaded(report: ReportView, current: Option<Seq<char>>) -> StatusView {
    StatusView {
        ok: report.ok,
        update_available: false,
        current,
        latest: report.version,
        prerelease: report.prerelease,
        pre_available: report.pre_available,
        message: if report.ok {
            latest_words(or_else(report.version, report.prerelease))
        } else {
            or_text(report.message, "更新失败，已保留当前版本。"@)
        },
    }
}

/// What is known of a download that ends the update: the status, and whether the user is
/// notified. There is none where a new version was downloaded.
pub open spec fn download_end(
    ran: Ran,
    prev: Option<StatusView>,
    current: Option<Seq<char>>,
) -> Option<(StatusView, bool)> {
    match ran {
        Ran::Cancelled => Some((cancelled(prev, current), false)),
        Ran::Ended(end) => match node::installer_output(end) {
            Err(e) => Some(
                (
                    StatusView { current, message: "更新失败："@ + e, ..state::blank_status() },
                    true,
                ),
            ),
            Ok(out) => if node::report_of(out).ok && node::report_of(out).action == "downloaded"@ {
                None
            } else {
                Some((nothing_downloaded(node::report_of(out), current), true))
            },
        },
    }
}

/// The report of a download that brought a new version.
pub open spec fn download_report(ran: Ran) -> ReportView {
    match ran {
        Ran::Ended(end) => node::report_of(node::installer_output(end)->Ok_0),
        Ran::Cancelled => node::blank_report(),
    }
}

fn finish_download(state: &mut AppState, status: DshUpdateStatus, told: bool, zh: bool) -> (r:
    Downloaded)
    ensures
        r is Over,
        r->Over_0 == status,
        opt_notice(r->Over_1) == (if told {
            Some(update_notice(status@.ok, status@.message, zh))
        } else {
            None
        }),
        over(*old(state), status, *final(state)),
{
    let notice = if told {
        Some(notify_dsh_update(status.ok, status.message.as_str(), zh))
    } else {
        None
    };
    end_update(state, &status);
    Downloaded::Over(status, notice)
}

/// What a download, which was begun, comes to. Where it has brought a new version the service
/// is stopped next, and the update cannot be called off any more.
pub fn apply_update_flow(
    state: &mut AppState,
    ran: Ran,
    current: Option<String>,
    zh: bool,
) -> (r: Downloaded)
    ensures
        match download_end(ran, state::opt_status(old(state).dsh_update), text::opt(current)) {
            Some((status, told)) => {
                &&& r is Over
                &&& r->Over_0@ == status
                &&& opt_notice(r->Over_1) == (if told {
                    Some(update_notice(status.ok, status.message, zh))
                } else {
                    None
                })
                &&& over(*old(state), r->Over_0, *final(state))
            },
            None => {
                &&& r is Swap
                &&& r->Swap_0@ == download_report(ran)
                &&& *final(state) == (AppState {
                    dsh_cancel: false,
                    dsh_progress: UpdateProgress::at(UpdateStage::Swapping, false),
                    phase: BootPhase::ServiceStart,
                    ..*old(state)
                })
            },
        },
{
    let prev = state.dsh_update();
    let d = DshUpdateStatus::default();
    match ran {
        Ran::Cancelled => {
            let status = cancelled_status(prev, current);
            finish_download(state, status, false, zh)
        },
        Ran::Ended(end) => match run_installer(end) {
            Err(e) => {
                let status = DshUpdateStatus {
                    current,
                    message: cat("更新失败：", e.as_str()),
                    ..d
                };
                finish_download(state, status, true, zh)
            },
            Ok(out) => {
                let report = parse_installer_output(out.as_str());
                if report.ok && same(report.action.as_str(), "downloaded") {
                    state.dsh_cancel = false;
                    state.set_dsh_progress(
                        UpdateProgress::entering(UpdateStage::Swapping, false),
                    );
                    state.set_phase(BootPhase::ServiceStart);
                    return Downloaded::Swap(report);
                }
                let version = either(&report.version, &report.prerelease);
                let message = if report.ok {
                    up_to_date_message(&version)
                } else {
                    text_or(&report.message, "更新失败，已保留当前版本。")
                };
                let status = DshUpdateStatus {
                    ok: report.ok,
                    update_available: false,
                    current,
                    latest: report.version,
                    prerelease: report.prerelease,
                    pre_available: report.pre_available,
                    message,
                };
                finish_download(state, status, true, zh)
            },
        },
    }
}

/// What is known after a new version was put in place, by the installer's report.
pub open spec fn swapped(report: ReportView, previous: Option<Seq<char>>) -> StatusView {
    StatusView {
        ok: report.ok,
        update_available: false,
        current: or_else(report.current, previous),
        latest: report.version,
        prerelease: report.prerelease,
        pre_available: report.pre_available,
        message: if report.ok && report.action == "updated"@ {
            "已更新到 "@ + or_empty(report.version)
        } else if report.ok {
            or_text(report.message, "更新结果未知，请查看日志"@)
        } else {
            or_text(report.message, "新版本替换失败"@) + locked_hint()
        },
    }
}

/// What is known after an attempt to put a new version in place. `ran` is what the installer
/// has brought; there is nothing where it was not run for want of a directory to take the new
/// version from.
pub open spec fn swap_result(
    download: ReportView,
    ran: Option<Result<Seq<char>, Seq<char>>>,
    previous: Option<Seq<char>>,
) -> StatusView {
    match ran {
        Some(Ok(out)) => swapped(node::report_of(out), previous),
        Some(Err(e)) => StatusView {
            current: previous,
            latest: download.version,
            message: "更新替换失败："@ + e + locked_hint(),
            ..state::blank_status()
        },
        None => StatusView {
            current: previous,
            latest: download.version,
            message: "更新缺少暂存目录，已保留当前版本。"@,
            ..state::blank_status()
        },
    }
}

/// What the installer has brought, with texts as characters.
pub open spec fn opt_outcome(r: Option<Result<String, String>>) -> Option<
    Result<Seq<char>, Seq<char>>,
> {
    match r {
        Some(Ok(s)) => Some(Ok(s@)),
        Some(Err(e)) => Some(Err(e@)),
        None => None,
    }
}

/// What is known after an attempt to put a new version in place. The service is started next.
pub fn apply_swap(
    state: &mut AppState,
    download: &InstallerResult,
    ran: Option<Result<String, String>>,
    previous_current: Option<String>,
) -> (r: DshUpdateStatus)
    ensures
        r@ == swap_result(download@, opt_outcome(ran), text::opt(previous_current)),
        *final(state) == (AppState {
            dsh_progress: UpdateProgress::at(UpdateStage::Restarting, false),
            ..*old(state)
        }),
{
    state.set_dsh_progress(UpdateProgress::entering(UpdateStage::Restarting, false));
    let d = DshUpdateStatus::default();
    match ran {
        Some(result) => match result {
            Ok(out) => {
                let sw = parse_installer_output(out.as_str());
                let message = if sw.ok && same(sw.action.as_str(), "updated") {
                    cat("已更新到 ", text_or_empty(&sw.version).as_str())
                } else if sw.ok {
                    text_or(&sw.message, "更新结果未知，请查看日志")
                } else {
                    cat(text_or(&sw.message, "新版本替换失败").as_str(), locked_file_hint())
                };
                DshUpdateStatus {
                    ok: sw.ok,
                    update_available: false,
                    current: either(&sw.current, &previous_current),
                    latest: sw.version,
                    prerelease: sw.prerelease,
                    pre_available: sw.pre_available,
                    message,
                }
            },
            Err(e) => DshUpdateStatus {
                current: previous_current,
                latest: download.version.clone(),
                message: cat3("更新替换失败：", e.as_str(), locked_file_hint()),
                ..d
            },
        },
        None => DshUpdateStatus {
            current: previous_current,
            latest: download.version.clone(),
            message: "更新缺少暂存目录，已保留当前版本。".to_owned(),
            ..d
        },
    }
}

/// What is known once the service was started after a new version was put in place.
pub open spec fn restarted(status: StatusView, back: bool) -> StatusView {
    if back {
        if status.ok && "已更新到"@.is_prefix_of(status.message) {
            StatusView {
                message: "已更新到 "@ + or_empty(status.latest) + "，服务已自动重启"@,
                ..status
            }
        } else {
            status
        }
    } else if status.ok {
        StatusView {
            ok: false,
            message: "已更新到 "@ + or_empty(status.latest)
                + "，但服务未能自动重启，请稍后在设置页重启服务。"@,
            ..status
        }
    } else {
        status
    }
}

/// What an update comes to once the service was started after it. `back` is whether the service
/// is there.
pub fn finish_swap(state: &mut AppState, status: DshUpdateStatus, back: bool, zh: bool) -> (r: (
    DshUpdateStatus,
    Notice,
))
    ensures
        r.0@ == restarted(status@, back),
        r.1@ == update_notice(r.0@.ok, r.0@.message, zh),
        over(*old(state), r.0, *final(state)),
{
    let mut done = status;
    if back {
        if done.ok && begins(done.message.as_str(), "已更新到") {
            done.message = cat3(
                "已更新到 ",
                text_or_empty(&done.latest).as_str(),
                "，服务已自动重启",
            );
        }
    } else if done.ok {
        done.ok = false;
        done.message = cat3(
            "已更新到 ",
            text_or_empty(&done.latest).as_str(),
            "，但服务未能自动重启，请稍后在设置页重启服务。",
        );
    }
    let notice = notify_dsh_update(done.ok, done.message.as_str(), zh);
    end_update(state, &done);
    (done, notice)
}

/// Records that nothing is looked for, because the user does not want it.
pub fn auto_update_off(state: &mut AppState, current: Option<String>)
    ensures
        final(state).dsh_update is Some,
        final(state).dsh_update->0@ == (StatusView {
            ok: true,
            current: text::opt(current),
            ..state::blank_status()
        }),
        *final(state) == (AppState { dsh_update: final(state).dsh_update, ..*old(state) }),
{
    let d = DshUpdateStatus::default();
    state.set_dsh_update(DshUpdateStatus { ok: true, current, ..d });
}

/// Whether a new version that was found is downloaded by itself.
pub fn auto_update_once(found: &DshUpdateStatus) -> (r: bool)
    ensures
        r == (found.ok && found.update_available),
{
    found.ok && found.update_available
}

/// Whether an update can be called off: while it looks for a new version or downloads it.
pub open spec fn can_call_off(p: UpdateProgress) -> bool {
    p.can_cancel && (p.stage == UpdateStage::Checking || p.stage == UpdateStage::Downloading)
}

/// Calls an update off, where it can be.
pub fn cancel_dsh_update(state: &mut AppState)
    ensures
        *final(state) == (AppState {
            dsh_cancel: old(state).dsh_cancel || can_call_off(old(state).dsh_progress),
            ..*old(state)
        }),
{
    let p = state.dsh_progress();
    if p.can_cancel && (p.stage == UpdateStage::Checking || p.stage == UpdateStage::Downloading) {
        state.dsh_cancel = true;
    }
}

/// What was installed stays known: no look for a new version and no download loses it.
pub proof fn current_version_is_kept(
    ran: Ran,
    prev: Option<StatusView>,
    current: Seq<char>,
)
    ensures
        check_result(ran, prev, Some(current)).current == Some(current),
        download_end(ran, prev, Some(current)) matches Some((status, told)) ==> status.current
            == Some(current),
{
}

/// Once a new version is being put in place, the update cannot be called off: to call it off
/// then changes nothing.
pub proof fn swap_cannot_be_cancelled(stage: UpdateStage, can_cancel: bool)
    requires
        stage == UpdateStage::Swapping || stage == UpdateStage::Restarting,
    ensures
        !can_call_off(UpdateProgress::at(stage, can_cancel)),
{
}

/// An update that failed never claims to be well: where the service does not come back, what
/// is known after it is a failure.
pub proof fn service_lost_is_failure(status: StatusView)
    ensures
        !restarted(status, false).ok,
        restarted(status, false).latest == status.latest,
        restarted(status, true).ok == status.ok,
{
}

/// Wherever a look for a new version has brought a report that all is well, the latest version that
/// is known after it is the one in that report, whatever is installed; what is installed is not
/// changed by it. There is a new version just where the report's action says so.
pub proof fn latest_version_is_the_reported_one(
    end: InstallerEnd,
    out: Seq<char>,
    prev: Option<StatusView>,
    current: Option<Seq<char>>,
)
    requires
        node::installer_output(end) == Ok::<Seq<char>, Seq<char>>(out),
    ensures
        ({
            let report = node::report_of(out);
            let status = check_result(Ran::Ended(end), prev, current);
            &&& status.ok == report.ok
            &&& status.current == current
            &&& report.ok ==> {
                &&& status.latest == report.version
                &&& status.prerelease == report.prerelease
                &&& status.pre_available == report.pre_available
                &&& status.update_available == (report.action == "new-version-available"@
                    || report.action == "prerelease-available"@)
            }
            &&& report.ok && report.action == "new-version-available"@ ==> (
            report.version matches Some(v) ==> status.message == "发现新版本 "@ + v)
            &&& report.ok && report.action == "prerelease-available"@ ==> (
            report.prerelease matches Some(v) ==> status.message == "发现预发布版本 "@ + v)
            &&& report.ok && !status.update_available ==> (report.version matches Some(v)
                ==> text::trim(v).len() > 0 ==> status.message == "已是最新版本（"@ + v
                + "）"@)
            &&& !report.ok ==> {
                &&& !status.update_available
                &&& status.latest is None
                &&& report.message matches Some(m) ==> status.message == m
                &&& report.message is None ==> status.message == "暂时无法检查更新"@
            }
        }),
{
    reveal_strlit("new-version-available");
    reveal_strlit("prerelease-available");
    assert("new-version-available"@.len() != "prerelease-available"@.len());
}

/// After a look for a new version, what is known is what the installer reported; the user is notified
/// just of a new version, and another update can begin.
pub proof fn look_tells_what_was_reported(
    state: &mut AppState,
    end: InstallerEnd,
    current: Option<String>,
    zh: bool,
    out: Seq<char>,
    r: (DshUpdateStatus, Option<Notice>),
)
    requires
        call_ensures(check_update_flow, (state, Ran::Ended(end), current, zh), r),
        node::installer_output(end) == Ok::<Seq<char>, Seq<char>>(out),
    ensures
        r.0@.current == text::opt(current),
        r.0@.ok == node::report_of(out).ok,
        node::report_of(out).ok ==> r.0@.latest == node::report_of(out).version
            && r.0@.prerelease == node::report_of(out).prerelease && r.0@.update_available == (
        node::report_of(out).action == "new-version-available"@ || node::report_of(out).action
            == "prerelease-available"@),
        r.1 is Some <==> r.0@.ok && r.0@.update_available,
        r.1 matches Some(n) ==> n@.body == r.0@.message && n@.title == (if zh {
            "发现 DSH 新版本"@
        } else {
            "New DSH version available"@
        }),
        final(state).dsh_update == Some(r.0),
        !final(state).dsh_update_active,
        !final(state).dsh_cancel,
        final(state).dsh_progress.stage == UpdateStage::Idle,
        final(state).phase == old(state).phase,
{
    latest_version_is_the_reported_one(
        end,
        out,
        state::opt_status(old(state).dsh_update),
        text::opt(current),
    );
}

/// A look that could not be made says so, and one that was called off keeps what was known before.
pub proof fn failed_look_is_told(
    state: &mut AppState,
    ran: Ran,
    current: Option<String>,
    zh: bool,
    r: (DshUpdateStatus, Option<Notice>),
)
    requires
        call_ensures(check_update_flow, (state, ran, current, zh), r),
    ensures
        ran matches Ran::Ended(end) ==> (node::installer_output(end) matches Err(e) ==> {
            &&& !r.0@.ok
            &&& !r.0@.update_available
            &&& r.0@.message == "检查更新失败："@ + e
            &&& r.0@.current == text::opt(current)
            &&& r.1 is None
        }),
        ran is Cancelled ==> {
            &&& !r.0@.ok
            &&& r.0@.message == "已取消，可稍后重试。"@
            &&& current matches Some(c) ==> r.0@.current == Some(c@)
            &&& r.1 is None
            &&& old(state).dsh_update matches Some(known) ==> r.0@.latest == known@.latest
                && r.0@.update_available == known@.update_available && r.0@.prerelease
                == known@.prerelease
        },
{
}

/// A version is put in place just where the installer has reported that it was downloaded; the
/// report that was made is the one to go by, and the update cannot be called off from then on. Else
/// the update is over, and what was installed is still known to be.
pub proof fn only_a_download_is_put_in_place(
    state: &mut AppState,
    ran: Ran,
    current: Option<String>,
    zh: bool,
    r: Downloaded,
)
    requires
        call_ensures(apply_update_flow, (state, ran, current, zh), r),
    ensures
        r is Swap <==> ran is Ended && node::installer_output(ran->Ended_0) is Ok
            && node::report_of(node::installer_output(ran->Ended_0)->Ok_0).ok && node::report_of(
            node::installer_output(ran->Ended_0)->Ok_0,
        ).action == "downloaded"@,
        r matches Downloaded::Swap(report) ==> {
            &&& report@ == node::report_of(node::installer_output(ran->Ended_0)->Ok_0)
            &&& final(state).dsh_progress.stage == UpdateStage::Swapping
            &&& !final(state).dsh_progress.can_cancel
            &&& final(state).phase == BootPhase::ServiceStart
            &&& final(state).dsh_update_active == old(state).dsh_update_active
        },
        r matches Downloaded::Over(status, notice) ==> {
            &&& final(state).dsh_update == Some(status)
            &&& !final(state).dsh_update_active
            &&& current matches Some(c) ==> status@.current == Some(c@)
            &&& notice is Some <==> ran is Ended
            &&& ran is Cancelled ==> status@.message == "已取消，可稍后重试。"@ && !status@.ok && (
            old(state).dsh_update matches Some(known) ==> status@.latest == known@.latest)
            &&& ran matches Ran::Ended(end) ==> (node::installer_output(end) matches Err(e)
                ==> status@.message == "更新失败："@ + e && !status@.ok)
            &&& notice matches Some(n) ==> n@.title == (if status@.ok {
                if zh {
                    "DSH 更新完成"@
                } else {
                    "DSH update finished"@
                }
            } else if zh {
                "DSH 更新失败"@
            } else {
                "DSH update failed"@
            })
            &&& notice matches Some(n) ==> n@.body == text::replaced(
                status@.message,
                "。若提示文件被占用（其他 DSH 窗口、杀毒或残留进程），请稍后重试，持续失败请重启电脑。"@,
                Seq::empty(),
            )
            &&& ran matches Ran::Ended(end) ==> (node::installer_output(end) matches Ok(out) ==> {
                &&& status@.ok == node::report_of(out).ok
                &&& status@.latest == node::report_of(out).version
                &&& !status@.update_available
            })
        },
{
}

/// After an attempt to put a version in place, what is known is what the installer has reported of
/// it: the version that it put there, and whether it did. Where it could not be run, the version that
/// was downloaded is still the latest, and what was installed stays.
pub proof fn swap_tells_what_was_reported(
    state: &mut AppState,
    download: &InstallerResult,
    ran: Option<Result<String, String>>,
    previous: Option<String>,
    r: DshUpdateStatus,
)
    requires
        call_ensures(apply_swap, (state, download, ran, previous), r),
    ensures
        ran matches Some(Ok(out)) ==> ({
            let report = node::report_of(out@);
            &&& r@.ok == report.ok
            &&& r@.latest == report.version
            &&& report.current matches Some(c) ==> r@.current == Some(c)
            &&& report.current is None ==> r@.current == text::opt(previous)
            &&& report.ok && report.action == "updated"@ ==> (report.version matches Some(v)
                ==> r@.message == "已更新到 "@ + v)
            &&& !report.ok ==> (report.message matches Some(m) ==> r@.message == m
                + "。若提示文件被占用（其他 DSH 窗口、杀毒或残留进程），请稍后重试，持续失败请重启电脑。"@)
        }),
        ran is None || ran->0 is Err ==> !r@.ok && r@.latest == text::opt(download.version)
            && r@.current == text::opt(previous),
        ran matches Some(Err(e)) ==> r@.message == "更新替换失败："@ + e@
            + "。若提示文件被占用（其他 DSH 窗口、杀毒或残留进程），请稍后重试，持续失败请重启电脑。"@,
        ran is None ==> r@.message == "更新缺少暂存目录，已保留当前版本。"@,
        !r@.update_available,
        final(state).dsh_progress.stage == UpdateStage::Restarting,
        !final(state).dsh_progress.can_cancel,
{
}

/// An update is told to have succeeded just where the swap did and the service is back; the version
/// that it names is the latest one. Nothing else that is known changes.
pub proof fn update_succeeds_with_the_service(
    state: &mut AppState,
    status: DshUpdateStatus,
    back: bool,
    zh: bool,
    r: (DshUpdateStatus, Notice),
)
    requires
        call_ensures(finish_swap, (state, status, back, zh), r),
    ensures
        r.0@.ok == (status@.ok && back),
        r.0@.latest == status@.latest,
        r.0@.current == status@.current,
        r.0@.prerelease == status@.prerelease,
        !status@.ok ==> r.0@.message == status@.message,
        status@.ok && !back ==> (status@.latest matches Some(v) ==> r.0@.message == "已更新到 "@
            + v + "，但服务未能自动重启，请稍后在设置页重启服务。"@),
        status@.ok && back && "已更新到"@.is_prefix_of(status@.message) ==> (
        status@.latest matches Some(v) ==> r.0@.message == "已更新到 "@ + v
            + "，服务已自动重启"@),
        r.1@.title == (if r.0@.ok {
            if zh {
                "DSH 更新完成"@
            } else {
                "DSH update finished"@
            }
        } else if zh {
            "DSH 更新失败"@
        } else {
            "DSH update failed"@
        }),
        final(state).dsh_update == Some(r.0),
        !final(state).dsh_update_active,
        final(state).dsh_progress.stage == UpdateStage::Idle,
{
}

/// One update of DSH is under way at a time: a second one changes nothing, and a first one that
/// begins can be called off.
pub proof fn one_update_at_a_time(state: &mut AppState, stage: UpdateStage, r: Begun)
    requires
        call_ensures(try_begin_update, (state, stage), r),
    ensures
        r is Running <==> !old(state).dsh_update_active,
        r is Busy ==> *final(state) == *old(state),
        r is Busy ==> (old(state).dsh_update matches Some(known) ==> r->Busy_0@ == known@),
        r is Running ==> final(state).dsh_update_active && !final(state).dsh_cancel
            && final(state).dsh_progress.stage == stage && final(state).dsh_progress.can_cancel
            && final(state).dsh_update == old(state).dsh_update && final(state).phase == old(state).phase,
{
}

/// An update is called off only while it looks for a version or downloads it, and what was called
/// off stays so.
pub proof fn update_is_called_off_early(state: &mut AppState)
    requires
        call_ensures(cancel_dsh_update, (state,), ()),
    ensures
        old(state).dsh_cancel ==> final(state).dsh_cancel,
        final(state).dsh_cancel && !old(state).dsh_cancel <==> !old(state).dsh_cancel && old(state).dsh_progress.can_cancel && (old(state).dsh_progress.stage == UpdateStage::Checking || old(state).dsh_progress.stage == UpdateStage::Downloading),
        final(state).dsh_progress == old(state).dsh_progress,
        final(state).dsh_update_active == old(state).dsh_update_active,
{
}

/// A version is downloaded by itself just where a look has found one.
pub proof fn found_version_is_downloaded(found: &DshUpdateStatus, r: bool)
    requires
        call_ensures(auto_update_once, (found,), r),
    ensures
        r <==> found.ok && found.update_available,
{
}

/// Without updates by themselves nothing is looked for, and what is installed is still told; an update
/// that was torn off lets another begin and keeps what was known.
pub proof fn given_up_update_lets_another_begin(
    off: &mut AppState,
    torn: &mut AppState,
    current: Option<String>,
)
    requires
        call_ensures(auto_update_off, (off, current), ()),
        call_ensures(reset_update, (torn,), ()),
    ensures
        final(off).dsh_update is Some,
        final(off).dsh_update->0@.ok,
        !final(off).dsh_update->0@.update_available,
        final(off).dsh_update->0@.current == text::opt(current),
        final(off).dsh_update->0@.latest is None,
        final(off).dsh_update_active == old(off).dsh_update_active,
        !final(torn).dsh_update_active,
        !final(torn).dsh_cancel,
        final(torn).dsh_progress.stage == UpdateStage::Idle,
        final(torn).dsh_update == old(torn).dsh_update,
{
}

/// What is up to date is told with its version, where there is one.
pub proof fn current_version_is_told(version: &Option<String>, r: String)
    requires
        call_ensures(up_to_date_message, (version,), r),
    ensures
        version matches Some(v) ==> (text::trim(v@).len() > 0 ==> r@ == "已是最新版本（"@ + v@
            + "）"@),
        version is None ==> r@ == "已是最新版本"@,
{
}

} // verus!
