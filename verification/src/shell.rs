//! The shell around the service: the texts of tray and menus, the language, the arguments of
//! the program, and what happens when a page has loaded.
use crate::json;
use crate::json::{Json, JsonView, print_compact};
use crate::service;
use crate::service::{IssueView, on_service_page, service_url};
use crate::state;
use crate::state::{AppState, BootPhase, StatusSnapshot};
use crate::text;
use crate::text::{
    begins, cat3, chars, cut, holds, number, same, split_words, strings_of, to_lower,
};
use vstd::prelude::*;

verus! {

/// What the tray shows.
pub open spec fn tooltip_of(phase: BootPhase, port: u16, degraded: bool, zh: bool) -> Seq<char> {
    let starting = if zh {
        "DSH 工作台：正在启动…"@
    } else {
        "DSH Workspace: starting…"@
    };
    match phase {
        BootPhase::Ready => if degraded {
            if zh {
                "DSH 工作台：服务多次启动失败"@
            } else {
                "DSH Workspace: service failed repeatedly"@
            }
        } else if port > 0 {
            if zh {
                "DSH 工作台：运行中（端口 "@ + text::decimal(port as nat) + "）"@
            } else {
                "DSH Workspace: running (port "@ + text::decimal(port as nat) + ")"@
            }
        } else {
            starting
        },
        BootPhase::Error => if zh {
            "DSH 工作台：遇到问题，请重试"@
        } else {
            "DSH Workspace: something went wrong"@
        },
        _ => starting,
    }
}

/// What the tray shows, in Chinese or in English.
pub fn update_tray_tooltip(state: &AppState, zh: bool) -> (r: String)
    ensures
        r@ == tooltip_of(state.phase, state.port, state.supervisor.degraded, zh),
{
    let port: u16 = state.port();
    match state.phase() {
        BootPhase::Ready => {
            if state.supervisor.is_degraded() {
                if zh {
                    "DSH 工作台：服务多次启动失败".to_owned()
                } else {
                    "DSH Workspace: service failed repeatedly".to_owned()
                }
            } else if port > 0 {
                if zh {
                    cat3("DSH 工作台：运行中（端口 ", number(port as u64).as_str(), "）")
                } else {
                    cat3("DSH Workspace: running (port ", number(port as u64).as_str(), ")")
                }
            } else if zh {
                "DSH 工作台：正在启动…".to_owned()
            } else {
                "DSH Workspace: starting…".to_owned()
            }
        },
        BootPhase::Error => {
            if zh {
                "DSH 工作台：遇到问题，请重试".to_owned()
            } else {
                "DSH Workspace: something went wrong".to_owned()
            }
        },
        _ => {
            if zh {
                "DSH 工作台：正在启动…".to_owned()
            } else {
                "DSH Workspace: starting…".to_owned()
            }
        },
    }
}

/// What the start page says of a phase.
pub open spec fn phase_words(p: BootPhase) -> Seq<char> {
    match p {
        BootPhase::NodeCheck => "正在准备程序…"@,
        BootPhase::DshInstall => "正在准备首次使用…"@,
        BootPhase::ServiceStart => "正在启动…"@,
        BootPhase::Ready => "已就绪"@,
        BootPhase::Error => "遇到了一点问题"@,
    }
}

/// What the start page says of a phase.
pub fn phase_text(p: BootPhase) -> (r: &'static str)
    ensures
        r@ == phase_words(p),
{
    match p {
        BootPhase::NodeCheck => "正在准备程序…",
        BootPhase::DshInstall => "正在准备首次使用…",
        BootPhase::ServiceStart => "正在启动…",
        BootPhase::Ready => "已就绪",
        BootPhase::Error => "遇到了一点问题",
    }
}

/// The words on the tray menu, from the top down.
#[derive(Debug)]
pub struct MenuWords {
    pub open: &'static str,
    pub settings: &'static str,
    pub restart: &'static str,
    pub quit: &'static str,
}

/// The words on the menus, in Chinese or in English.
pub fn menu_words(zh: bool) -> (r: MenuWords)
    ensures
        r.open@ == (if zh {
            "打开界面"@
        } else {
            "Open"@
        }),
        r.settings@ == (if zh {
            "设置"@
        } else {
            "Settings"@
        }),
        r.restart@ == (if zh {
            "重启服务"@
        } else {
            "Restart service"@
        }),
        r.quit@ == (if zh {
            "退出"@
        } else {
            "Quit"@
        }),
{
    if zh {
        MenuWords { open: "打开界面", settings: "设置", restart: "重启服务", quit: "退出" }
    } else {
        MenuWords { open: "Open", settings: "Settings", restart: "Restart service", quit: "Quit" }
    }
}

/// What an entry of a menu does.
#[derive(Debug, Clone, Copy, PartialEq, Eq, Structural)]
pub enum MenuAction {
    Show,
    Settings,
    Restart,
    Quit,
    Nothing,
}

/// What an entry of the tray menu does.
pub fn tray_action(id: &str) -> (r: MenuAction)
    ensures
        r == (if id@ == "show"@ {
            MenuAction::Show
        } else if id@ == "settings"@ {
            MenuAction::Settings
        } else if id@ == "restart"@ {
            MenuAction::Restart
        } else if id@ == "quit"@ {
            MenuAction::Quit
        } else {
            MenuAction::Nothing
        }),
{
    if same(id, "show") {
        MenuAction::Show
    } else if same(id, "settings") {
        MenuAction::Settings
    } else if same(id, "restart") {
        MenuAction::Restart
    } else if same(id, "quit") {
        MenuAction::Quit
    } else {
        MenuAction::Nothing
    }
}

/// What an entry of the context menu does.
pub fn handle_menu_event(id: &str) -> (r: MenuAction)
    ensures
        r == (if id@ == "ctx-settings"@ {
            MenuAction::Settings
        } else if id@ == "ctx-restart"@ {
            MenuAction::Restart
        } else if id@ == "ctx-quit"@ {
            MenuAction::Quit
        } else {
            MenuAction::Nothing
        }),
{
    if same(id, "ctx-settings") {
        MenuAction::Settings
    } else if same(id, "ctx-restart") {
        MenuAction::Restart
    } else if same(id, "ctx-quit") {
        MenuAction::Quit
    } else {
        MenuAction::Nothing
    }
}

/// Whether a window is hidden rather than closed.
pub fn handle_window_event(label: &str) -> (r: bool)
    ensures
        r == (label@ == "main"@ || label@ == "settings"@),
{
    same(label, "main") || same(label, "settings")
}

/// Whether a language of Windows is Chinese.
pub open spec fn chinese_code(code: u16) -> bool {
    code == 0x0804 || code == 0x1004 || code == 0x0404 || code == 0x0C04
}

/// The first value that is there.
pub open spec fn first_some(a: Option<Seq<char>>, b: Option<Seq<char>>, c: Option<Seq<char>>) -> Option<
    Seq<char>,
> {
    if a is Some {
        a
    } else if b is Some {
        b
    } else {
        c
    }
}

/// Whether the user reads Chinese: by the language of Windows, where there is one, and else by the
/// first of the environment's languages.
pub open spec fn reads_chinese(
    ui_language: Option<u16>,
    lang: Option<Seq<char>>,
    lc_all: Option<Seq<char>>,
    lc_messages: Option<Seq<char>>,
) -> bool {
    match ui_language {
        Some(code) => chinese_code(code),
        None => first_some(lang, lc_all, lc_messages) matches Some(v) && "zh"@.is_prefix_of(
            text::lowercase(v),
        ),
    }
}

/// Whether the user reads Chinese. `ui_language` is the language of Windows, where the system
/// is Windows; the others are the values of `LANG`, `LC_ALL` and `LC_MESSAGES`.
pub fn is_zh_locale(
    ui_language: Option<u16>,
    lang: Option<&str>,
    lc_all: Option<&str>,
    lc_messages: Option<&str>,
) -> (r: bool)
    ensures
        r == reads_chinese(
            ui_language,
            text::opt_str(lang),
            text::opt_str(lc_all),
            text::opt_str(lc_messages),
        ),
        ui_language is None ==> (first_some(
            text::opt_str(lang),
            text::opt_str(lc_all),
            text::opt_str(lc_messages),
        ) matches Some(v) ==> (text::ascii(v) ==> r == "zh"@.is_prefix_of(text::ascii_lower(v)))),
{
    if let Some(code) = ui_language {
        return code == 0x0804 || code == 0x1004 || code == 0x0404 || code == 0x0C04;
    }
    let value = match lang {
        Some(v) => Some(v),
        None => match lc_all {
            Some(v) => Some(v),
            None => lc_messages,
        },
    };
    match value {
        Some(v) => begins(to_lower(v).as_str(), "zh"),
        None => false,
    }
}

/// The arguments for the service among arguments: the words behind `--dsh-args=`, and those of
/// the argument that follows `--dsh-args`.
pub open spec fn extra_in(args: Seq<Seq<char>>) -> Seq<Seq<char>>
    decreases args.len(),
{
    if args.len() == 0 {
        Seq::empty()
    } else if "--dsh-args="@.is_prefix_of(args[0]) {
        text::words(args[0].subrange("--dsh-args="@.len() as int, args[0].len() as int)) + extra_in(
            args.subrange(1, args.len() as int),
        )
    } else if args[0] == "--dsh-args"@ {
        if args.len() >= 2 {
            text::words(args[1]) + extra_in(args.subrange(2, args.len() as int))
        } else {
            Seq::empty()
        }
    } else {
        extra_in(args.subrange(1, args.len() as int))
    }
}

fn push_words(out: &mut Vec<String>, s: &[char])
    ensures
        text::strs(final(out)@) == text::strs(old(out)@) + text::words(s@),
{
    let ghost before = out@;
    let pieces = split_words(s);
    let mut more = strings_of(pieces.as_slice());
    let ghost added = more@;
    out.append(&mut more);
    assert(text::strs(out@) =~= text::strs(before) + text::strs(added));
}

/// The arguments for the service among those of the program. The first one is the program.
pub fn parse_dsh_extra_args(args: &[String]) -> (r: Vec<String>)
    ensures
        text::strs(r@) == (if args@.len() == 0 {
            Seq::empty()
        } else {
            extra_in(text::strs(args@).subrange(1, args@.len() as int))
        }),
{
    let mut out: Vec<String> = Vec::new();
    assert(text::strs(out@) =~= Seq::<Seq<char>>::empty());
    if args.len() == 0 {
        return out;
    }
    let ghost all = text::strs(args@);
    let ghost given = all.subrange(1, all.len() as int);
    let mark = chars("--dsh-args=");
    let mut i: usize = 1;
    assert(text::strs(out@) + extra_in(given) =~= extra_in(given));
    while i < args.len()
        invariant
            1 <= i <= args@.len(),
            all == text::strs(args@),
            all.len() == args@.len(),
            mark@ == "--dsh-args="@,
            given == all.subrange(1, all.len() as int),
            extra_in(given) == text::strs(out@) + extra_in(all.subrange(i as int, all.len() as int)),
        decreases args@.len() - i,
    {
        let ghost rest = all.subrange(i as int, all.len() as int);
        let ghost before = text::strs(out@);
        let total: usize = args.len();
        assert(rest[0] == args@[i as int]@);
        assert(rest.subrange(1, rest.len() as int) =~= all.subrange(i + 1, all.len() as int));
        if begins(args[i].as_str(), "--dsh-args=") {
            let s = chars(args[i].as_str());
            let value = cut(s.as_slice(), mark.len(), s.len());
            push_words(&mut out, value);
            assert(before + (text::words(value@) + extra_in(
                all.subrange(i + 1, all.len() as int),
            )) =~= text::strs(out@) + extra_in(all.subrange(i + 1, all.len() as int)));
            i = i + 1;
        } else if same(args[i].as_str(), "--dsh-args") {
            if i + 1 < total {
                assert(rest[1] == args@[i + 1]@);
                assert(rest.subrange(2, rest.len() as int) =~= all.subrange(
                    i + 2,
                    all.len() as int,
                ));
                let s = chars(args[i + 1].as_str());
                push_words(&mut out, s.as_slice());
                assert(before + (text::words(s@) + extra_in(all.subrange(i + 2, all.len() as int)))
                    =~= text::strs(out@) + extra_in(all.subrange(i + 2, all.len() as int)));
                i = i + 2;
            } else {
                assert(before + Seq::<Seq<char>>::empty() =~= before);
                return out;
            }
        } else {
            i = i + 1;
        }
    }
    assert(extra_in(all.subrange(i as int, all.len() as int)) =~= Seq::<Seq<char>>::empty());
    assert(text::strs(out@) + Seq::<Seq<char>>::empty() =~= text::strs(out@));
    out
}

/// What the start page shows of a state, where the service has announced this address or none.
pub open spec fn status_shown(
    state: AppState,
    announced: Option<Seq<char>>,
    shown: StatusSnapshot,
) -> bool {
    &&& shown.phase == state.phase
    &&& shown.message@ == phase_words(state.phase)
    &&& shown.error == state.error_message
    &&& shown.port == state.port
    &&& text::opt(shown.service_url) == (if state.phase == BootPhase::Ready {
        Some(service::address_of(announced, state.port as nat))
    } else {
        None
    })
    &&& state::opt_recovery(shown.recovery) == state::opt_recovery(state.last_recovery)
}

/// A page that is loaded long after a failure still shows what has happened and what the user
/// can do about it.
pub proof fn failure_is_shown_to_late_pages(
    before: AppState,
    message: Seq<char>,
    issue: IssueView,
    after: AppState,
    announced: Option<Seq<char>>,
    shown: StatusSnapshot,
)
    requires
        service::failed_with(before, message, issue, after),
        status_shown(after, announced, shown),
    ensures
        shown.phase == BootPhase::Error,
        text::opt(shown.error) == Some(message),
        shown.service_url is None,
        state::opt_recovery(shown.recovery) == Some(service::recovery_for(issue)),
{
}

/// What the start page shows. Once the service is up that is its address; one that lets the
/// user in is kept for that.
pub fn get_status(
    state: &mut AppState,
    announced: Option<String>,
    dsh_version: Option<String>,
    node_version: Option<String>,
) -> (r: StatusSnapshot)
    ensures
        status_shown(*old(state), text::opt(announced), r),
        r.dsh_version == dsh_version,
        r.node_version == node_version,
        *final(state) == (AppState {
            pending_auth_url: final(state).pending_auth_url,
            ..*old(state)
        }),
        text::opt(final(state).pending_auth_url) == match r.service_url {
            Some(url) if lets_in(url@) => Some(url@),
            _ => text::opt(old(state).pending_auth_url),
        },
{
    let phase = state.phase();
    let mut service: Option<String> = None;
    if phase == BootPhase::Ready {
        let url = service_url(announced, state.port());
        if holds(url.as_str(), "?token=") {
            state.set_pending_auth_url(Some(url.clone()));
        }
        service = Some(url);
    }
    StatusSnapshot {
        phase,
        message: phase_text(phase).to_owned(),
        error: state.error(),
        port: state.port(),
        service_url: service,
        recovery: state.last_recovery(),
        dsh_version,
        node_version,
    }
}

/// Whether an address lets the user in.
pub open spec fn lets_in(url: Seq<char>) -> bool {
    text::contains(url, "?token="@)
}

/// The script that sends a page to an address.
pub open spec fn sending_script(url: Seq<char>) -> Seq<char> {
    "window.location.href = "@ + json::json_compact(JsonView::Str(url)) + ";"@
}

/// The address that a page which has loaded is sent to: the one that waits, where it lets the
/// user in and the page is one of the main window without a query.
pub open spec fn second_hop(
    pending: Option<Seq<char>>,
    scheme: Seq<char>,
    label: Seq<char>,
    has_query: bool,
) -> Option<Seq<char>> {
    match pending {
        Some(url) if scheme == "http"@ && label == "main"@ && !has_query && lets_in(url) => Some(
            url,
        ),
        _ => None,
    }
}

/// The user is let in by two hops, and once: an address that waits is used by the first page
/// without a query, and as it waits no longer then, by no other page.
pub proof fn user_is_let_in_once(
    url: Seq<char>,
    scheme: Seq<char>,
    label: Seq<char>,
    has_query: bool,
)
    requires
        lets_in(url),
    ensures
        second_hop(Some(url), "http"@, "main"@, false) == Some(url),
        second_hop(Some(url), "http"@, "main"@, true) is None,
        second_hop(None, scheme, label, has_query) is None,
{
}

/// What is done when a page has loaded. No menu is put into a page: one of the shell's own would
/// take the place of the page's.
#[derive(Debug)]
pub struct PageLoad {
    /// The page is one of the service and gets what it needs to work with the shell.
    pub shims: bool,
    /// A script that the page runs to let the user in.
    pub script: Option<String>,
}

/// What is done when a page has loaded: `scheme`, `host` and `has_query` are of its address, and
/// `label` is of its window. A page of the main window without a query is sent to the address
/// that lets the user in, once.
pub fn handle_page_load(
    state: &mut AppState,
    scheme: &str,
    label: &str,
    host: Option<&str>,
    has_query: bool,
) -> (r: PageLoad)
    ensures
        ({
            let ours = scheme@ == "http"@ && label@ == "main"@;
            let pending = text::opt(old(state).pending_auth_url);
            &&& r.shims == (ours && text::opt_str(host) == Some("127.0.0.1"@))
            &&& match second_hop(pending, scheme@, label@, has_query) {
                Some(url) => {
                    &&& text::opt(r.script) == Some(sending_script(url))
                    &&& *final(state) == (AppState { pending_auth_url: None, ..*old(state) })
                },
                None => {
                    &&& r.script is None
                    &&& *final(state) == *old(state)
                },
            }
        }),
{
    if !same(scheme, "http") || !same(label, "main") {
        return PageLoad { shims: false, script: None };
    }
    let shims = on_service_page(host);
    let mut script: Option<String> = None;
    if !has_query {
        if let Some(pending) = state.pending_auth_url() {
            if holds(pending.as_str(), "?token=") {
                state.set_pending_auth_url(None);
                let value = Json::Str(pending);
                script = Some(
                    cat3("window.location.href = ", print_compact(&value).as_str(), ";"),
                );
            }
        }
    }
    PageLoad { shims, script }
}

/// The language of Windows decides where it is known, whatever the environment says; else the first
/// of the environment's languages does, and without one the user does not read Chinese.
pub proof fn windows_language_goes_first(
    ui_language: Option<u16>,
    lang: Option<&str>,
    lc_all: Option<&str>,
    lc_messages: Option<&str>,
    r: bool,
)
    requires
        call_ensures(is_zh_locale, (ui_language, lang, lc_all, lc_messages), r),
    ensures
        ui_language matches Some(code) ==> (r <==> code == 0x0804 || code == 0x1004 || code == 0x0404
            || code == 0x0C04),
        ui_language is None && lang is Some ==> r == "zh"@.is_prefix_of(text::lowercase(lang->0@)),
        ui_language is None && lang is None && lc_all is Some ==> r == "zh"@.is_prefix_of(
            text::lowercase(lc_all->0@),
        ),
        ui_language is None && lang is None && lc_all is None && lc_messages is Some ==> r
            == "zh"@.is_prefix_of(text::lowercase(lc_messages->0@)),
        ui_language is None && lang is None && lc_all is None && lc_messages is None ==> !r,
{
}

/// Arguments for the service are the words behind `--dsh-args=` or in the argument behind
/// `--dsh-args`, from wherever they stand behind the program's name; other arguments give none.
pub proof fn arguments_for_the_service_are_words(
    program: Seq<char>,
    first: Seq<char>,
    rest: Seq<Seq<char>>,
    words: Seq<char>,
)
    ensures
        extra_in(seq!["--dsh-args="@ + words] + rest) == text::words(words) + extra_in(rest),
        extra_in(seq!["--dsh-args"@, words] + rest) == text::words(words) + extra_in(rest),
        !"--dsh-args="@.is_prefix_of(first) && first != "--dsh-args"@ ==> extra_in(
            seq![first] + rest,
        ) == extra_in(rest),
        extra_in(Seq::empty()) == Seq::<Seq<char>>::empty(),
        extra_in(seq!["--dsh-args"@]) == Seq::<Seq<char>>::empty(),
{
    reveal_strlit("--dsh-args=");
    reveal_strlit("--dsh-args");
    let mark = "--dsh-args="@;
    let joined = mark + words;
    let a = seq![joined] + rest;
    assert(a[0] == joined);
    assert(mark.is_prefix_of(joined));
    assert(joined.subrange(mark.len() as int, joined.len() as int) =~= words);
    assert(a.subrange(1, a.len() as int) =~= rest);
    let b = seq!["--dsh-args"@, words] + rest;
    assert(b[0] == "--dsh-args"@ && b[1] == words);
    assert(!mark.is_prefix_of("--dsh-args"@));
    assert(b.subrange(2, b.len() as int) =~= rest);
    let c = seq![first] + rest;
    assert(c[0] == first);
    assert(c.subrange(1, c.len() as int) =~= rest);
}

/// The arguments that were given to the program are looked through behind its name.
pub proof fn program_name_is_no_argument(args: &[String], r: Vec<String>)
    requires
        call_ensures(parse_dsh_extra_args, (args,), r),
    ensures
        args@.len() == 0 ==> r@.len() == 0,
        args@.len() > 0 ==> text::strs(r@) == extra_in(
            text::strs(args@).subrange(1, args@.len() as int),
        ),
{
    assert(text::strs(r@).len() == r@.len());
}

/// The status shows the phase, the error, the port and what can be recovered as they are; there is an
/// address just where the service is ready: the one that it announced, or else its port. One with a
/// token is kept for letting the window in.
pub proof fn status_shows_the_state(
    state: &mut AppState,
    announced: Option<String>,
    dsh_version: Option<String>,
    node_version: Option<String>,
    r: StatusSnapshot,
)
    requires
        call_ensures(get_status, (state, announced, dsh_version, node_version), r),
    ensures
        r.phase == old(state).phase,
        r.error == old(state).error_message,
        r.port == old(state).port,
        r.dsh_version == dsh_version,
        r.node_version == node_version,
        r.service_url is Some <==> old(state).phase == BootPhase::Ready,
        r.service_url is Some && announced is Some ==> r.service_url->0@ == announced->0@,
        r.service_url is Some && announced is None ==> r.service_url->0@ == "http://127.0.0.1:"@
            + text::decimal(old(state).port as nat),
        r.service_url is Some && text::contains(r.service_url->0@, "?token="@) ==> final(state).pending_auth_url is Some && final(state).pending_auth_url->0@ == r.service_url->0@,
        r.service_url is None || !text::contains(r.service_url->0@, "?token="@) ==> text::opt(
            final(state).pending_auth_url,
        ) == text::opt(old(state).pending_auth_url),
        final(state).phase == old(state).phase,
        old(state).phase == BootPhase::Ready ==> r.message@ == "已就绪"@,
        old(state).phase == BootPhase::Error ==> r.message@ == "遇到了一点问题"@,
        old(state).phase == BootPhase::NodeCheck ==> r.message@ == "正在准备程序…"@,
        old(state).phase == BootPhase::DshInstall ==> r.message@ == "正在准备首次使用…"@,
        old(state).phase == BootPhase::ServiceStart ==> r.message@ == "正在启动…"@,
        r.recovery is Some <==> old(state).last_recovery is Some,
        r.recovery is Some ==> r.recovery->0@ == old(state).last_recovery->0@,
{
}

/// A page of the service that the main window has loaded without a query is sent on to the address
/// with the token, once; other windows, other schemes and pages with a query are left alone. The
/// page gets the shims just where it is the service's own.
pub proof fn loaded_page_is_sent_to_the_token(
    state: &mut AppState,
    scheme: &str,
    label: &str,
    host: Option<&str>,
    has_query: bool,
    r: PageLoad,
)
    requires
        call_ensures(handle_page_load, (state, scheme, label, host, has_query), r),
    ensures
        r.script is Some <==> scheme@ == "http"@ && label@ == "main"@ && !has_query && old(state).pending_auth_url is Some && text::contains(
            old(state).pending_auth_url->0@,
            "?token="@,
        ),
        r.script matches Some(s) ==> s@ == "window.location.href = "@ + json::json_compact(
            JsonView::Str(old(state).pending_auth_url->0@),
        ) + ";"@,
        r.script is Some ==> final(state).pending_auth_url is None,
        r.script is None ==> *final(state) == *old(state),
        final(state).phase == old(state).phase,
        r.shims <==> scheme@ == "http"@ && label@ == "main"@ && host is Some && host->0@
            == "127.0.0.1"@,
{
}

/// The tray tells whether the service runs, and on which port, has failed repeatedly, is in trouble,
/// or still starts.
pub proof fn tray_tells_how_the_service_is(state: &AppState, zh: bool, r: String)
    requires
        call_ensures(update_tray_tooltip, (state, zh), r),
    ensures
        state.phase == BootPhase::Ready && !state.supervisor.degraded && state.port > 0 ==> r@ == (
        if zh {
            "DSH 工作台：运行中（端口 "@ + text::decimal(state.port as nat) + "）"@
        } else {
            "DSH Workspace: running (port "@ + text::decimal(state.port as nat) + ")"@
        }),
        state.phase == BootPhase::Ready && state.supervisor.degraded ==> r@ == (if zh {
            "DSH 工作台：服务多次启动失败"@
        } else {
            "DSH Workspace: service failed repeatedly"@
        }),
        state.phase == BootPhase::Error ==> r@ == (if zh {
            "DSH 工作台：遇到问题，请重试"@
        } else {
            "DSH Workspace: something went wrong"@
        }),
        (state.phase != BootPhase::Ready && state.phase != BootPhase::Error) || (state.phase
            == BootPhase::Ready && !state.supervisor.degraded && state.port == 0) ==> r@ == (if zh {
            "DSH 工作台：正在启动…"@
        } else {
            "DSH Workspace: starting…"@
        }),
{
}

/// Each entry of the tray menu does what it is named after, and an unknown one nothing.
pub proof fn menu_entries_do_what_they_say(id: &str, r: MenuAction)
    requires
        call_ensures(tray_action, (id,), r),
    ensures
        r is Show <==> id@ == "show"@,
        r is Settings <==> id@ == "settings"@,
        r is Restart <==> id@ == "restart"@,
        r is Quit <==> id@ == "quit"@,
{
    reveal_strlit("show");
    reveal_strlit("settings");
    reveal_strlit("restart");
    reveal_strlit("quit");
    assert("show"@[0] != "quit"@[0]);
    assert("show"@.len() == 4 && "settings"@.len() == 8 && "restart"@.len() == 7 && "quit"@.len()
        == 4);
}

/// The menu is worded in the user's language.
pub proof fn menu_speaks_the_language(zh: bool, r: MenuWords)
    requires
        call_ensures(menu_words, (zh,), r),
    ensures
        zh ==> r.open@ == "打开界面"@ && r.settings@ == "设置"@ && r.restart@ == "重启服务"@
            && r.quit@ == "退出"@,
        !zh ==> r.open@ == "Open"@ && r.settings@ == "Settings"@ && r.restart@
            == "Restart service"@ && r.quit@ == "Quit"@,
{
}

/// To close the main window or that of the settings only hides it.
pub proof fn closed_windows_are_hidden(label: &str, r: bool)
    requires
        call_ensures(handle_window_event, (label,), r),
    ensures
        r <==> label@ == "main"@ || label@ == "settings"@,
{
}

} // verus!
