//! Updates of the application itself.
use crate::dsh_update;
use crate::dsh_update::{Notice, NoticeView, busy_status, dsh_update_active};
use crate::json;
use crate::json::{Json, JsonView};
use crate::state;
use crate::state::{AppState, DshUpdateStatus, StatusView, UpdateProgress, UpdateStage};
use crate::text;
use crate::text::{cat, holds};
use vstd::prelude::*;

verus! {

/// How long a look for a new version may take, in milliseconds.
pub const CHECK_TIMEOUT: u64 = 60_000;

/// How long a download may take, in milliseconds.
pub const DOWNLOAD_TIMEOUT: u64 = 1_200_000;

/// Whether a text is an address that nobody has filled in.
pub open spec fn placeholder(s: Seq<char>) -> bool {
    text::contains(s, "your-update-server"@) || text::contains(s, "<OWNER>"@)
}

/// Whether one of the values is an address that nobody has filled in.
pub open spec fn has_placeholder(items: Seq<JsonView>) -> bool {
    exists|i: int|
        0 <= i < items.len() && (#[trigger] items[i] is Str) && placeholder(items[i]->Str_0)
}

/// Whether there is a place to get updates from: a list of addresses that is not empty and was
/// filled in.
pub open spec fn has_source(updater: Option<JsonView>) -> bool {
    match updater {
        Some(v) => match json::member(v, "endpoints"@) {
            Some(JsonView::Array(items)) => items.len() > 0 && !has_placeholder(items),
            _ => false,
        },
        None => false,
    }
}

/// An optional value with its texts as characters.
pub open spec fn opt_json(j: Option<&Json>) -> Option<JsonView> {
    match j {
        Some(x) => Some(x@),
        None => None,
    }
}

/// Whether there is a place to get updates from. `updater` is what the configuration says of
/// the updater.
pub fn updater_configured(updater: Option<&Json>) -> (r: bool)
    ensures
        r == has_source(opt_json(updater)),
{
    let endpoints = match updater {
        Some(v) => v.get("endpoints"),
        None => None,
    };
    match endpoints {
        Some(Json::Array(items)) => {
            proof {
                json::lemma_items_view(items@);
            }
            if items.len() == 0 {
                return false;
            }
            let ghost all = json::items_view(items@);
            for i in 0..items.len()
                invariant
                    all == json::items_view(items@),
                    all.len() == items@.len(),
                    forall|k: int| 0 <= k < items@.len() ==> #[trigger] all[k] == items@[k]@,
                    has_source(opt_json(updater)) == (all.len() > 0 && !has_placeholder(all)),
                    forall|k: int|
                        0 <= k < i ==> !((#[trigger] all[k]) is Str && placeholder(
                            all[k]->Str_0,
                        )),
            {
                if let Json::Str(s) = &items[i] {
                    assert(all[i as int] == JsonView::Str(s@));
                    if holds(s.as_str(), "your-update-server") || holds(s.as_str(), "<OWNER>") {
                        return false;
                    }
                }
            }
            true
        },
        _ => false,
    }
}

/// What a look for a new version has found.
#[derive(Debug)]
pub enum Found {
    /// It could not be made, or failed, for this reason.
    Failed(String),
    /// It took too long.
    TimedOut,
    /// There is nothing newer.
    Latest,
    /// There is this version.
    New(String),
}

/// A notification with its title in Chinese or in English.
pub open spec fn titled(zh: bool, title_zh: Seq<char>, title_en: Seq<char>, body: Seq<char>) -> NoticeView {
    NoticeView {
        title: if zh {
            title_zh
        } else {
            title_en
        },
        body,
    }
}

fn notify_app(zh: bool, title_zh: &str, title_en: &str, body: &str) -> (r: Notice)
    ensures
        r@ == titled(zh, title_zh@, title_en@, body@),
{
    let title = if zh {
        title_zh.to_owned()
    } else {
        title_en.to_owned()
    };
    Notice { title, body: body.to_owned() }
}

/// What is known of an update of the application.
pub open spec fn app_status(
    ok: bool,
    available: bool,
    current: Seq<char>,
    latest: Option<Seq<char>>,
    message: Seq<char>,
) -> StatusView {
    StatusView {
        ok,
        update_available: available,
        current: Some(current),
        latest,
        message,
        ..state::blank_status()
    }
}

fn status_of(ok: bool, available: bool, current: &str, latest: Option<String>, message: String)
    -> (r: DshUpdateStatus)
    ensures
        r@ == app_status(ok, available, current@, text::opt(latest), message@),
{
    let d = DshUpdateStatus::default();
    DshUpdateStatus {
        ok,
        update_available: available,
        current: Some(current.to_owned()),
        latest,
        message,
        ..d
    }
}

/// What the begin of an update of the application comes to.
#[derive(Debug)]
pub enum AppBegun {
    /// There is nothing to do; this is what is known.
    Done(DshUpdateStatus),
    /// It is under way: a new version is to be looked for.
    Running,
}

/// Whether a state is another one in which an update of the application has just begun.
pub open spec fn app_begun(before: AppState, after: AppState) -> bool {
    after == (AppState {
        app_update_active: true,
        app_cancel: false,
        app_progress: UpdateProgress::at(UpdateStage::Checking, false),
        ..before
    })
}

/// Whether a state is another one in which an update of the application is over, with this known
/// of it.
pub open spec fn app_over(before: AppState, status: DshUpdateStatus, after: AppState) -> bool {
    after == (AppState {
        app_update: Some(status),
        app_update_active: false,
        app_cancel: false,
        app_progress: UpdateProgress::at(UpdateStage::Idle, false),
        ..before
    })
}

/// What is known of an update, with its texts as characters, and the state in which it is known.
pub open spec fn begin_result(
    configured: bool,
    checking: bool,
    current: Seq<char>,
    before: AppState,
    r: AppBegun,
    after: AppState,
) -> bool {
    if !configured {
        &&& r is Done
        &&& r->Done_0@ == app_status(checking, false, current, None, "未配置应用更新源"@)
        &&& after == (AppState { app_update: Some(r->Done_0), ..before })
    } else if before.app_update_active {
        &&& r is Done
        &&& r->Done_0@ == dsh_update::busy(state::opt_status(before.app_update))
        &&& after == before
    } else {
        &&& r is Running
        &&& app_begun(before, after)
    }
}

/// Begins an update of the application, or only a look for a new version: `checking` says which.
/// Nothing begins without a place to get updates from, nor while another one is under way.
pub fn try_begin_app_update(
    state: &mut AppState,
    configured: bool,
    checking: bool,
    current: &str,
) -> (r: AppBegun)
    ensures
        begin_result(configured, checking, current@, *old(state), r, *final(state)),
{
    if !configured {
        let status = status_of(checking, false, current, None, "未配置应用更新源".to_owned());
        state.set_app_update(status.clone());
        return AppBegun::Done(status);
    }
    if state.app_update_active {
        return AppBegun::Done(busy_status(state.app_update()));
    }
    state.app_update_active = true;
    state.app_cancel = false;
    state.set_app_progress(UpdateProgress::entering(UpdateStage::Checking, false));
    AppBegun::Running
}

/// Gives an update of the application up that was torn off in the middle, so that another one can
/// begin. What was known of it stays.
pub fn reset_app_update(state: &mut AppState)
    ensures
        *final(state) == (AppState {
            app_update_active: false,
            app_cancel: false,
            app_progress: UpdateProgress::at(UpdateStage::Idle, false),
            ..*old(state)
        }),
{
    state.app_update_active = false;
    state.app_cancel = false;
    state.set_app_progress(UpdateProgress::default());
}

fn end_app_update(state: &mut AppState, status: &DshUpdateStatus)
    ensures
        app_over(*old(state), *status, *final(state)),
{
    state.set_app_update(status.clone());
    reset_app_update(state);
}

/// What the user is told of a look for a new version that failed.
pub open spec fn search_failure(found: Found, failed: Seq<char>) -> Option<Seq<char>> {
    match found {
        Found::Failed(e) => Some(failed + e@),
        Found::TimedOut => Some("检查更新超时（已等待 60 秒），请检查网络后重试。"@),
        _ => None,
    }
}

fn failure_of(found: &Found, failed: &str) -> (r: Option<String>)
    ensures
        text::opt(r) == search_failure(*found, failed@),
{
    match found {
        Found::Failed(e) => Some(cat(failed, e.as_str())),
        Found::TimedOut => Some("检查更新超时（已等待 60 秒），请检查网络后重试。".to_owned()),
        _ => None,
    }
}

/// What is known after a look for a new version.
pub open spec fn app_checked(found: Found, current: Seq<char>) -> StatusView {
    match search_failure(found, "检查更新失败："@) {
        Some(message) => app_status(false, false, current, None, message),
        None => match found {
            Found::New(version) => app_status(
                true,
                true,
                current,
                Some(version@),
                "发现新版本 "@ + version@,
            ),
            _ => app_status(true, false, current, None, "已是最新版本"@),
        },
    }
}

/// What a look for a new version of the application, which was begun, comes to.
pub fn check_app_update(state: &mut AppState, found: Found, current: &str, zh: bool) -> (r: (
    DshUpdateStatus,
    Option<Notice>,
))
    ensures
        r.0@ == app_checked(found, current@),
        dsh_update::opt_notice(r.1) == (if !r.0@.ok {
            Some(titled(zh, "应用更新检查失败"@, "Update check failed"@, r.0@.message))
        } else if r.0@.update_available {
            Some(titled(zh, "发现应用新版本"@, "New app version available"@, r.0@.message))
        } else {
            None
        }),
        app_over(*old(state), r.0, *final(state)),
{
    let status = match failure_of(&found, "检查更新失败：") {
        Some(message) => status_of(false, false, current, None, message),
        None => match found {
            Found::New(version) => {
                let message = cat("发现新版本 ", version.as_str());
                status_of(true, true, current, Some(version), message)
            },
            _ => status_of(true, false, current, None, "已是最新版本".to_owned()),
        },
    };
    let notice = if !status.ok {
        Some(notify_app(zh, "应用更新检查失败", "Update check failed", status.message.as_str()))
    } else if status.update_available {
        Some(
            notify_app(
                zh,
                "发现应用新版本",
                "New app version available",
                status.message.as_str(),
            ),
        )
    } else {
        None
    };
    end_app_update(state, &status);
    (status, notice)
}

/// What a step of an update of the application comes to.
#[derive(Debug)]
pub enum AppStep {
    /// The update is over, with this known of it.
    Over(DshUpdateStatus, Option<Notice>),
    /// This version is to be downloaded.
    Download(String),
    /// The version that was downloaded is to be installed; the user is told so.
    Install(Notice),
}

/// The notification of an update that failed.
pub open spec fn failed_notice(zh: bool, message: Seq<char>) -> NoticeView {
    titled(zh, "应用更新失败"@, "App update failed"@, message)
}

/// Whether a step ends an update: this is known of it, the user is notified of a failure where
/// `told`, and the state is that after an update.
pub open spec fn ends_update(
    r: AppStep,
    status: StatusView,
    told: bool,
    zh: bool,
    before: AppState,
    after: AppState,
) -> bool {
    &&& r is Over
    &&& r->Over_0@ == status
    &&& dsh_update::opt_notice(r->Over_1) == (if told {
        Some(failed_notice(zh, status.message))
    } else {
        None
    })
    &&& app_over(before, r->Over_0, after)
}

fn finish(state: &mut AppState, status: DshUpdateStatus, told: bool, zh: bool) -> (r: AppStep)
    ensures
        ends_update(r, status@, told, zh, *old(state), *final(state)),
{
    let notice = if told {
        Some(notify_app(zh, "应用更新失败", "App update failed", status.message.as_str()))
    } else {
        None
    };
    end_app_update(state, &status);
    AppStep::Over(status, notice)
}

/// Whether a state is another one in which an update of the application has come to a stage, with
/// this known of it.
pub open spec fn app_stage(
    before: AppState,
    stage: UpdateStage,
    can_cancel: bool,
    status: StatusView,
    after: AppState,
) -> bool {
    &&& state::opt_status(after.app_update) == Some(status)
    &&& after == (AppState {
        app_cancel: false,
        app_progress: UpdateProgress::at(stage, can_cancel),
        app_update: after.app_update,
        ..before
    })
}

/// What an update of the application, which was begun, comes to once a new version was looked
/// for.
pub fn update_app(state: &mut AppState, found: Found, current: &str, zh: bool) -> (r: AppStep)
    ensures
        match search_failure(found, "更新失败："@) {
            Some(message) => ends_update(
                r,
                app_status(false, false, current@, None, message),
                true,
                zh,
                *old(state),
                *final(state),
            ),
            None => match found {
                Found::New(version) => {
                    &&& r is Download
                    &&& r->Download_0@ == version@
                    &&& app_stage(
                        *old(state),
                        UpdateStage::Downloading,
                        true,
                        app_status(
                            true,
                            true,
                            current@,
                            Some(version@),
                            "正在下载更新 "@ + version@,
                        ),
                        *final(state),
                    )
                },
                _ => ends_update(
                    r,
                    app_status(true, false, current@, None, "已是最新版本"@),
                    false,
                    zh,
                    *old(state),
                    *final(state),
                ),
            },
        },
{
    if let Some(message) = failure_of(&found, "更新失败：") {
        let status = status_of(false, false, current, None, message);
        return finish(state, status, true, zh);
    }
    match found {
        Found::New(version) => {
            state.app_cancel = false;
            state.set_app_progress(UpdateProgress::entering(UpdateStage::Downloading, true));
            let message = cat("正在下载更新 ", version.as_str());
            state.set_app_update(
                status_of(true, true, current, Some(version.clone()), message),
            );
            AppStep::Download(version)
        },
        _ => {
            let status = status_of(true, false, current, None, "已是最新版本".to_owned());
            finish(state, status, false, zh)
        },
    }
}

/// How much of a download has come in.
pub open spec fn received_so_far(p: UpdateProgress) -> nat {
    match p.received {
        Some(n) => n as nat,
        None => 0,
    }
}

/// Records that more of a download has come in. `total` is how much it is in all, where that
/// was said this time.
pub fn download_progress(state: &mut AppState, chunk: u64, total: Option<u64>)
    requires
        received_so_far(old(state).app_progress) + chunk <= u64::MAX,
    ensures
        ({
            let p = old(state).app_progress;
            *final(state) == (AppState {
                app_progress: UpdateProgress {
                    stage: UpdateStage::Downloading,
                    can_cancel: true,
                    received: Some((received_so_far(p) + chunk) as u64),
                    total: if total is Some {
                        total
                    } else {
                        p.total
                    },
                },
                ..*old(state)
            })
        }),
{
    let p = state.app_progress();
    let before: u64 = match p.received {
        Some(n) => n,
        None => 0,
    };
    let known = match total {
        Some(n) => Some(n),
        None => p.total,
    };
    state.set_app_progress(
        UpdateProgress {
            stage: UpdateStage::Downloading,
            can_cancel: true,
            received: Some(before + chunk),
            total: known,
        },
    );
}

/// How a download ended.
#[derive(Debug)]
pub enum DownloadEnd {
    /// It took too long.
    TimedOut,
    /// The user has called it off.
    Cancelled,
    /// It failed, for this reason.
    Failed(String),
    /// All of it is there.
    Complete,
}

/// What the user is told where a download brings the update to an end, and whether in a
/// notification. Nothing is installed while DSH is being updated.
pub open spec fn download_stop(end: DownloadEnd, dsh_updating: bool) -> Option<(Seq<char>, bool)> {
    match end {
        DownloadEnd::TimedOut => Some(
            ("下载更新超时（已等待 20 分钟），请检查网络后重试。"@, true),
        ),
        DownloadEnd::Cancelled => Some(("已取消，可稍后重试。"@, false)),
        DownloadEnd::Failed(e) => Some(("更新失败："@ + e@, true)),
        DownloadEnd::Complete => if dsh_updating {
            Some(("DSH 服务正在更新，无法同时安装应用，请稍后重试。"@, false))
        } else {
            None
        },
    }
}

/// What an update of the application comes to once the download of `latest` has ended.
pub fn finish_download(
    state: &mut AppState,
    end: DownloadEnd,
    current: &str,
    latest: &str,
    zh: bool,
) -> (r: AppStep)
    ensures
        match download_stop(end, old(state).dsh_update_active) {
            Some((message, told)) => ends_update(
                r,
                app_status(false, true, current@, Some(latest@), message),
                told,
                zh,
                *old(state),
                *final(state),
            ),
            None => {
                &&& r is Install
                &&& r->Install_0@ == titled(
                    zh,
                    "正在安装应用更新"@,
                    "Installing app update"@,
                    "正在安装更新，应用将自动重启…"@,
                )
                &&& app_stage(
                    *old(state),
                    UpdateStage::Installing,
                    false,
                    app_status(
                        true,
                        true,
                        current@,
                        Some(latest@),
                        "正在安装更新，应用将自动重启…"@,
                    ),
                    *final(state),
                )
            },
        },
{
    let stop: Option<(String, bool)> = match end {
        DownloadEnd::TimedOut => Some(
            ("下载更新超时（已等待 20 分钟），请检查网络后重试。".to_owned(), true),
        ),
        DownloadEnd::Cancelled => Some(("已取消，可稍后重试。".to_owned(), false)),
        DownloadEnd::Failed(e) => Some((cat("更新失败：", e.as_str()), true)),
        DownloadEnd::Complete => if dsh_update_active(state) {
            Some(("DSH 服务正在更新，无法同时安装应用，请稍后重试。".to_owned(), false))
        } else {
            None
        },
    };
    match stop {
        Some((message, told)) => {
            let status = status_of(false, true, current, Some(latest.to_owned()), message);
            finish(state, status, told, zh)
        },
        None => {
            state.app_cancel = false;
            state.set_app_progress(UpdateProgress::entering(UpdateStage::Installing, false));
            state.set_app_update(
                status_of(
                    true,
                    true,
                    current,
                    Some(latest.to_owned()),
                    "正在安装更新，应用将自动重启…".to_owned(),
                ),
            );
            AppStep::Install(
                notify_app(
                    zh,
                    "正在安装应用更新",
                    "Installing app update",
                    "正在安装更新，应用将自动重启…",
                ),
            )
        },
    }
}

/// What an update of the application comes to once `latest` was installed, or was not.
pub fn finish_install(
    state: &mut AppState,
    installed: Result<(), String>,
    current: &str,
    latest: &str,
    zh: bool,
) -> (r: (DshUpdateStatus, Notice))
    ensures
        match installed {
            Err(e) => {
                &&& r.0@ == app_status(
                    false,
                    true,
                    current@,
                    Some(latest@),
                    "更新失败："@ + e@,
                )
                &&& r.1@ == failed_notice(zh, r.0@.message)
            },
            Ok(_) => {
                &&& r.0@ == app_status(
                    true,
                    false,
                    latest@,
                    Some(latest@),
                    "已安装，重启应用后生效"@,
                )
                &&& r.1@ == titled(
                    zh,
                    "应用更新完成"@,
                    "App update completed"@,
                    r.0@.message,
                )
            },
        },
        app_over(*old(state), r.0, *final(state)),
{
    match installed {
        Err(e) => {
            let message = cat("更新失败：", e.as_str());
            let status = status_of(false, true, current, Some(latest.to_owned()), message);
            let notice = notify_app(
                zh,
                "应用更新失败",
                "App update failed",
                status.message.as_str(),
            );
            end_app_update(state, &status);
            (status, notice)
        },
        Ok(_) => {
            let status = status_of(
                true,
                false,
                latest,
                Some(latest.to_owned()),
                "已安装，重启应用后生效".to_owned(),
            );
            let notice = notify_app(
                zh,
                "应用更新完成",
                "App update completed",
                status.message.as_str(),
            );
            end_app_update(state, &status);
            (status, notice)
        },
    }
}

/// Calls an update of the application off, where it can be: while it is downloaded.
pub fn cancel_app_update(state: &mut AppState)
    ensures
        ({
            let p = old(state).app_progress;
            *final(state) == (AppState {
                app_cancel: old(state).app_cancel || (p.can_cancel && p.stage
                    == UpdateStage::Downloading),
                ..*old(state)
            })
        }),
{
    let p = state.app_progress();
    if p.can_cancel && p.stage == UpdateStage::Downloading {
        state.app_cancel = true;
    }
}

/// The application is never installed while DSH is being updated, and only what was downloaded
/// as a whole is.
pub proof fn install_waits_for_dsh(end: DownloadEnd, dsh_updating: bool)
    ensures
        download_stop(end, dsh_updating) is None <==> end is Complete && !dsh_updating,
{
}

/// A look for a new version of the application tells the version that was found, and what is
/// installed; the user is notified of a new one and of a failure.
pub proof fn look_tells_the_found_version(
    state: &mut AppState,
    found: Found,
    current: &str,
    zh: bool,
    r: (DshUpdateStatus, Option<Notice>),
)
    requires
        call_ensures(check_app_update, (state, found, current, zh), r),
    ensures
        r.0@.current == Some(current@),
        r.0@.ok <==> !(found is Failed) && !(found is TimedOut),
        r.0@.update_available <==> found is New,
        found matches Found::New(v) ==> r.0@.latest == Some(v@) && r.0@.message
            == "发现新版本 "@ + v@,
        !(found is New) ==> r.0@.latest is None,
        found matches Found::Failed(e) ==> r.0@.message == "检查更新失败："@ + e@,
        found is TimedOut ==> r.0@.message
            == "检查更新超时（已等待 60 秒），请检查网络后重试。"@,
        r.1 is Some <==> !r.0@.ok || r.0@.update_available,
        r.1 matches Some(n) ==> n@.body == r.0@.message && n@.title == (if r.0@.ok {
            if zh {
                "发现应用新版本"@
            } else {
                "New app version available"@
            }
        } else if zh {
            "应用更新检查失败"@
        } else {
            "Update check failed"@
        }),
        final(state).app_update == Some(r.0),
        !final(state).app_update_active,
        final(state).app_progress.stage == UpdateStage::Idle,
        final(state).phase == old(state).phase,
{
}

/// The version that was found is the one that is downloaded; where there is none, or the look failed,
/// the update is over.
pub proof fn found_version_is_downloaded(
    state: &mut AppState,
    found: Found,
    current: &str,
    zh: bool,
    r: AppStep,
)
    requires
        call_ensures(update_app, (state, found, current, zh), r),
    ensures
        r is Download <==> found is New,
        found matches Found::New(v) ==> r->Download_0@ == v@ && final(state).app_progress.stage
            == UpdateStage::Downloading && final(state).app_progress.can_cancel && final(state).app_update is Some && final(state).app_update->0@.latest == Some(v@) && final(state).app_update->0@.current == Some(current@) && final(state).app_update->0@.message
            == "正在下载更新 "@ + v@,
        r matches AppStep::Over(status, notice) ==> {
            &&& status@.current == Some(current@)
            &&& !status@.update_available
            &&& status@.ok <==> !(found is Failed) && !(found is TimedOut)
            &&& notice is Some <==> !status@.ok
            &&& found matches Found::Failed(e) ==> status@.message == "更新失败："@ + e@
            &&& final(state).app_update == Some(status)
            &&& !final(state).app_update_active
        },
        !(r is Install),
{
}

/// A download that is complete is installed, unless DSH is being updated; whatever else became of it
/// ends the update, with the new version still known and what is installed unchanged.
pub proof fn complete_download_is_installed(
    state: &mut AppState,
    end: DownloadEnd,
    current: &str,
    latest: &str,
    zh: bool,
    r: AppStep,
)
    requires
        call_ensures(finish_download, (state, end, current, latest, zh), r),
    ensures
        r is Install <==> end is Complete && !old(state).dsh_update_active,
        !(r is Download),
        r is Install ==> final(state).app_progress.stage == UpdateStage::Installing && !final(state).app_progress.can_cancel && final(state).app_update is Some && final(state).app_update->0@.latest == Some(latest@) && final(state).app_update->0@.ok,
        r matches AppStep::Over(status, notice) ==> {
            &&& !status@.ok
            &&& status@.update_available
            &&& status@.latest == Some(latest@)
            &&& status@.current == Some(current@)
            &&& notice is Some <==> end is TimedOut || end is Failed
            &&& end matches DownloadEnd::Failed(e) ==> status@.message == "更新失败："@ + e@
            &&& end is Cancelled ==> status@.message == "已取消，可稍后重试。"@
            &&& end is TimedOut ==> status@.message
                == "下载更新超时（已等待 20 分钟），请检查网络后重试。"@
            &&& end is Complete ==> status@.message
                == "DSH 服务正在更新，无法同时安装应用，请稍后重试。"@
            &&& final(state).app_update == Some(status)
            &&& !final(state).app_update_active
        },
{
}

/// Once the new version is installed it is the one that is there; where it could not be, what was
/// there still is.
pub proof fn installed_version_is_current(
    state: &mut AppState,
    installed: Result<(), String>,
    current: &str,
    latest: &str,
    zh: bool,
    r: (DshUpdateStatus, Notice),
)
    requires
        call_ensures(finish_install, (state, installed, current, latest, zh), r),
    ensures
        r.0@.ok <==> installed is Ok,
        r.0@.latest == Some(latest@),
        installed is Ok ==> r.0@.current == Some(latest@) && !r.0@.update_available,
        installed matches Err(e) ==> r.0@.current == Some(current@) && r.0@.update_available
            && r.0@.message == "更新失败："@ + e@,
        r.1@.body == r.0@.message,
        r.1@.title == (if installed is Ok {
            if zh {
                "应用更新完成"@
            } else {
                "App update completed"@
            }
        } else if zh {
            "应用更新失败"@
        } else {
            "App update failed"@
        }),
        final(state).app_update == Some(r.0),
        !final(state).app_update_active,
{
}

/// What has come in of a download adds up, and its size is the last one that was said.
pub proof fn downloaded_parts_add_up(state: &mut AppState, chunk: u64, total: Option<u64>)
    requires
        call_ensures(download_progress, (state, chunk, total), ()),
        received_so_far(old(state).app_progress) + chunk <= u64::MAX,
    ensures
        final(state).app_progress.received is Some,
        old(state).app_progress.received matches Some(n) ==> final(state).app_progress.received->0
            == n + chunk,
        old(state).app_progress.received is None ==> final(state).app_progress.received->0 == chunk,
        total is Some ==> final(state).app_progress.total == total,
        total is None ==> final(state).app_progress.total == old(state).app_progress.total,
        final(state).app_progress.can_cancel,
        final(state).app_progress.stage == UpdateStage::Downloading,
{
}

/// One update of the application is under way at a time, and none without a place to get it from.
pub proof fn one_app_update_at_a_time(
    state: &mut AppState,
    configured: bool,
    checking: bool,
    current: &str,
    r: AppBegun,
)
    requires
        call_ensures(try_begin_app_update, (state, configured, checking, current), r),
    ensures
        r is Running <==> configured && !old(state).app_update_active,
        r is Running ==> final(state).app_update_active && !final(state).app_cancel && final(state).app_progress.stage == UpdateStage::Checking && !final(state).app_progress.can_cancel,
        configured && old(state).app_update_active ==> *final(state) == *old(state),
        !configured ==> r->Done_0@.message == "未配置应用更新源"@ && r->Done_0@.ok == checking
            && r->Done_0@.current == Some(current@) && !r->Done_0@.update_available && final(state).app_update_active == old(state).app_update_active,
{
}

/// An update of the application is called off only while it is downloaded.
pub proof fn app_update_is_called_off_early(state: &mut AppState)
    requires
        call_ensures(cancel_app_update, (state,), ()),
    ensures
        final(state).app_cancel <==> old(state).app_cancel || (old(state).app_progress.can_cancel
            && old(state).app_progress.stage == UpdateStage::Downloading),
        final(state).app_progress == old(state).app_progress,
{
}

/// There is a place to get updates from where addresses are configured and none of them is a
/// placeholder.
pub proof fn placeholders_are_no_source(updater: Option<&Json>, items: Seq<JsonView>, r: bool)
    requires
        call_ensures(updater_configured, (updater,), r),
        updater is Some,
        json::member(updater->0@, "endpoints"@) == Some(JsonView::Array(items)),
    ensures
        items.len() == 0 ==> !r,
        r ==> forall|i: int|
            0 <= i < items.len() && (#[trigger] items[i] is Str) ==> !text::contains(
                items[i]->Str_0,
                "your-update-server"@,
            ) && !text::contains(items[i]->Str_0, "<OWNER>"@),
        items.len() > 0 && (forall|i: int|
            0 <= i < items.len() && (#[trigger] items[i] is Str) ==> !text::contains(
                items[i]->Str_0,
                "your-update-server"@,
            ) && !text::contains(items[i]->Str_0, "<OWNER>"@)) ==> r,
{
}

} // verus!
