//! The service process: how it is launched, watched, limited in its restarts and swept away.
use crate::paths;
use crate::paths::{Os, file_name, join_path, normalize_for_node, parent};
use crate::serviceout;
use crate::serviceout::{DEFAULT_LIMIT, FailureKind, ServiceCapture};
use crate::text;
use crate::text::{
    cat, cat3, char_width, chars, copy_list, cut, from_utf8_lossy, holds, join, number, same,
    string_of, to_lower,
};
use vstd::prelude::*;

verus! {

/// How many restarts are allowed within [`RESTART_WINDOW`].
pub const MAX_RESTARTS: usize = 3;

/// The stretch of time, in milliseconds, within which restarts are counted.
pub const RESTART_WINDOW: u64 = 300_000;

/// How long a health probe waits, in milliseconds.
pub const HEALTH_TIMEOUT: u64 = 300;

/// An address on this machine.
#[derive(Debug)]
pub struct Loopback {
    pub ip: String,
    pub port: u16,
}

/// The address of a port on this machine.
pub fn loopback(port: u16) -> (r: Loopback)
    ensures
        r.ip@ == "127.0.0.1"@,
        r.port == port,
{
    Loopback { ip: "127.0.0.1".to_owned(), port }
}

/// What a health probe sends.
pub open spec fn probe_text(port: nat) -> Seq<char> {
    "GET / HTTP/1.1\r\nHost: 127.0.0.1:"@ + text::decimal(port)
        + "\r\nConnection: close\r\nUser-Agent: dsh-desktop/0.1\r\n\r\n"@
}

/// What a health probe of a port sends. There is nothing to probe on port 0.
pub fn probe_request(port: u16) -> (r: Option<String>)
    ensures
        text::opt(r) == (if port == 0 {
            None
        } else {
            Some(probe_text(port as nat))
        }),
{
    if port == 0 {
        return None;
    }
    Some(
        cat3(
            "GET / HTTP/1.1\r\nHost: 127.0.0.1:",
            number(port as u64).as_str(),
            "\r\nConnection: close\r\nUser-Agent: dsh-desktop/0.1\r\n\r\n",
        ),
    )
}

/// Whether the reply to a health probe of a port comes from a server that speaks HTTP. `reply`
/// is what came back, where anything could be sent and read.
pub fn probe_port(port: u16, reply: Option<&[u8]>) -> (r: bool)
    ensures
        r == (port != 0 && (reply matches Some(bytes) && text::contains(
            text::utf8_lossy(bytes@),
            "HTTP/1"@,
        ))),
{
    if port == 0 {
        return false;
    }
    match reply {
        Some(bytes) => {
            let head = from_utf8_lossy(bytes);
            holds(head.as_str(), "HTTP/1")
        },
        None => false,
    }
}

/// The directory above `node_modules/@deepseek-ai`, going up from `at`. `below` is the part
/// that was left last.
pub open spec fn runtime_above(os: Os, at: Seq<char>, below: Option<Seq<char>>) -> Option<Seq<char>>
    decreases at.len(),
{
    match paths::name_of(os, at) {
        None => None,
        Some(name) => {
            if below == Some("@deepseek-ai"@) && name == "node_modules"@ {
                paths::parent_of(os, at)
            } else {
                match paths::parent_of(os, at) {
                    None => None,
                    Some(up) => {
                        proof {
                            paths::parent_is_shorter(os, at);
                        }
                        if up.len() < at.len() {
                            runtime_above(os, up, Some(name))
                        } else {
                            None
                        }
                    },
                }
            }
        },
    }
}

/// The runtime directory that a DSH entry file lies under.
pub open spec fn runtime_of(os: Os, bin: Seq<char>) -> Option<Seq<char>> {
    match paths::parent_of(os, bin) {
        None => None,
        Some(up) => runtime_above(os, up, None),
    }
}

proof fn lemma_runtime_above(os: Os, at: Seq<char>, below: Option<Seq<char>>)
    ensures
        runtime_above(os, at, below) matches Some(r) ==> r.len() < at.len() && r == at.subrange(
            0,
            r.len() as int,
        ),
    decreases at.len(),
{
    paths::parent_is_shorter(os, at);
    if let Some(up) = paths::parent_of(os, at) {
        if let Some(name) = paths::name_of(os, at) {
            lemma_runtime_above(os, up, Some(name));
            if let Some(r) = runtime_above(os, up, Some(name)) {
                assert(up.subrange(0, r.len() as int) =~= at.subrange(0, r.len() as int));
            }
        }
    }
}

/// The runtime directory of an entry file is one of the directories that the file lies in.
pub proof fn runtime_lies_above_bin(os: Os, bin: Seq<char>)
    ensures
        runtime_of(os, bin) matches Some(r) ==> r.len() < bin.len() && r == bin.subrange(
            0,
            r.len() as int,
        ),
{
    paths::parent_is_shorter(os, bin);
    if let Some(up) = paths::parent_of(os, bin) {
        lemma_runtime_above(os, up, None);
        if let Some(r) = runtime_above(os, up, None) {
            assert(up.subrange(0, r.len() as int) =~= bin.subrange(0, r.len() as int));
        }
    }
}

fn climb(os: Os, at: &str, below: Option<&str>) -> (r: Option<String>)
    ensures
        text::opt(r) == runtime_above(
            os,
            at@,
            text::opt_str(below),
        ),
    decreases at@.len(),
{
    let name = match file_name(os, at) {
        Some(n) => n,
        None => {
            return None;
        },
    };
    let scoped = match below {
        Some(b) => same(b, "@deepseek-ai"),
        None => false,
    };
    proof {
        paths::parent_is_shorter(os, at@);
    }
    if scoped && same(name.as_str(), "node_modules") {
        return parent(os, at);
    }
    match parent(os, at) {
        None => None,
        Some(up) => climb(os, up.as_str(), Some(name.as_str())),
    }
}

/// The runtime directory that a DSH entry file lies under.
pub fn runtime_dir_from_bin(os: Os, bin: &str) -> (r: Option<String>)
    ensures
        text::opt(r) == runtime_of(os, bin@),
{
    match parent(os, bin) {
        None => None,
        Some(up) => climb(os, up.as_str(), None),
    }
}

/// Each text in lower case.
pub open spec fn lowered(list: Seq<Seq<char>>) -> Seq<Seq<char>> {
    Seq::new(list.len(), |i: int| text::lowercase(list[i]))
}

/// Whether a command line, its words put together, holds one of the markers, upper and lower
/// case being the same.
pub open spec fn marked(cmd: Seq<Seq<char>>, markers: Seq<Seq<char>>) -> bool {
    exists|i: int|
        #![trigger markers[i]]
        0 <= i < markers.len() && text::contains(text::joined(lowered(cmd), " "@), text::lowercase(markers[i]))
}

/// Each text with the capital letters of ASCII made small.
pub open spec fn ascii_lowered(list: Seq<Seq<char>>) -> Seq<Seq<char>> {
    Seq::new(list.len(), |i: int| text::ascii_lower(list[i]))
}

/// Whether a command line in ASCII holds one of the markers, upper and lower case being the same.
pub open spec fn ascii_marked(cmd: Seq<Seq<char>>, markers: Seq<Seq<char>>) -> bool {
    exists|i: int|
        #![trigger markers[i]]
        0 <= i < markers.len() && text::contains(
            text::joined(ascii_lowered(cmd), " "@),
            text::ascii_lower(markers[i]),
        )
}

/// Whether every text is one in ASCII.
pub open spec fn all_ascii(list: Seq<Seq<char>>) -> bool {
    forall|i: int| 0 <= i < list.len() ==> text::ascii(#[trigger] list[i])
}

/// Whether a command line holds one of the markers.
pub fn cmd_matches_markers(cmd: &[String], markers: &[String]) -> (r: bool)
    ensures
        r == marked(text::strs(cmd@), text::strs(markers@)),
        all_ascii(text::strs(cmd@)) && all_ascii(text::strs(markers@)) ==> r == ascii_marked(
            text::strs(cmd@),
            text::strs(markers@),
        ),
{
    let mut low: Vec<String> = Vec::new();
    let ghost all = lowered(text::strs(cmd@));
    for i in 0..cmd.len()
        invariant
            all == lowered(text::strs(cmd@)),
            text::strs(low@) == all.subrange(0, i as int),
            forall|k: int|
                0 <= k < i ==> (text::ascii(#[trigger] text::strs(cmd@)[k]) ==> all[k]
                    == text::ascii_lower(text::strs(cmd@)[k])),
    {
        let ghost before = low@;
        low.push(to_lower(cmd[i].as_str()));
        assert(text::strs(low@) =~= text::strs(before).push(all[i as int]));
        assert(text::strs(low@) =~= all.subrange(0, i + 1));
    }
    assert(all.subrange(0, all.len() as int) =~= all);
    let hay = join(low.as_slice(), " ");
    proof {
        if all_ascii(text::strs(cmd@)) {
            assert forall|k: int| 0 <= k < all.len() implies all[k] == ascii_lowered(
                text::strs(cmd@),
            )[k] by {
                assert(text::ascii(text::strs(cmd@)[k]));
            }
            assert(all =~= ascii_lowered(text::strs(cmd@)));
        }
    }
    for i in 0..markers.len()
        invariant
            hay@ == text::joined(lowered(text::strs(cmd@)), " "@),
            all_ascii(text::strs(cmd@)) ==> hay@ == text::joined(
                ascii_lowered(text::strs(cmd@)),
                " "@,
            ),
            forall|k: int|
                0 <= k < i ==> (text::ascii(#[trigger] text::strs(markers@)[k]) ==> text::lowercase(
                    text::strs(markers@)[k],
                ) == text::ascii_lower(text::strs(markers@)[k])),
            forall|k: int|
                0 <= k < i ==> !text::contains(hay@, text::lowercase(#[trigger] text::strs(markers@)[k])),
    {
        let m = to_lower(markers[i].as_str());
        if holds(hay.as_str(), m.as_str()) {
            assert(text::strs(markers@)[i as int] == markers@[i as int]@);
            return true;
        }
    }
    false
}

/// What a poll of a child process found.
#[derive(Debug, Clone, Copy, PartialEq, Eq, Structural)]
pub enum ChildPoll {
    Exited,
    Running,
    Failed,
}

/// What the service is to be started with.
#[derive(Debug)]
pub struct ServiceOrder {
    pub node: String,
    pub dsh_bin: String,
    pub workspace: String,
    pub preferred_port: u16,
    pub extra_args: Vec<String>,
}

/// What the service is to be started with, with texts as characters.
pub struct OrderView {
    pub node: Seq<char>,
    pub dsh_bin: Seq<char>,
    pub workspace: Seq<char>,
    pub preferred_port: u16,
    pub extra_args: Seq<Seq<char>>,
}

impl View for ServiceOrder {
    type V = OrderView;

    open spec fn view(&self) -> OrderView {
        OrderView {
            node: self.node@,
            dsh_bin: self.dsh_bin@,
            workspace: self.workspace@,
            preferred_port: self.preferred_port,
            extra_args: text::strs(self.extra_args@),
        }
    }
}

/// How the service is to be launched.
#[derive(Debug)]
pub struct Launch {
    pub program: String,
    pub args: Vec<String>,
    pub cwd: String,
    pub log_file: Option<String>,
}

/// How the service is to be launched, with texts as characters.
#[verifier::ext_equal]
pub struct LaunchView {
    pub program: Seq<char>,
    pub args: Seq<Seq<char>>,
    pub cwd: Seq<char>,
    pub log_file: Option<Seq<char>>,
}

impl View for Launch {
    type V = LaunchView;

    open spec fn view(&self) -> LaunchView {
        LaunchView {
            program: self.program@,
            args: text::strs(self.args@),
            cwd: self.cwd@,
            log_file: text::opt(self.log_file),
        }
    }
}

/// How far a start of the process has come, and what is to be done next.
#[derive(Debug)]
pub enum Start {
    /// The process that is there, if any, is to be ended.
    Stopping { child: Option<u32> },
    /// The processes that earlier services have left behind are to be ended.
    Sweeping,
    /// A port is to be found.
    Picking,
    /// The process is to be launched for this port. Its output is read, unless it is to go
    /// straight to the log.
    Launching { port: u16, launch: Launch, redirect: bool },
    /// The process was started on this port, or not, for this reason.
    Done(Result<u16, String>),
}

/// How far a start of the process has come, with texts as characters.
pub enum StartView {
    Stopping { child: Option<u32> },
    Sweeping,
    Picking,
    Launching { port: u16, launch: LaunchView, redirect: bool },
    Done(Result<u16, Seq<char>>),
}

impl View for Start {
    type V = StartView;

    open spec fn view(&self) -> StartView {
        match self {
            Start::Stopping { child } => StartView::Stopping { child: *child },
            Start::Sweeping => StartView::Sweeping,
            Start::Picking => StartView::Picking,
            Start::Launching { port, launch, redirect } => StartView::Launching {
                port: *port,
                launch: launch@,
                redirect: *redirect,
            },
            Start::Done(Ok(port)) => StartView::Done(Ok(*port)),
            Start::Done(Err(e)) => StartView::Done(Err(e@)),
        }
    }
}

/// What has come of a step of the start.
#[derive(Debug)]
pub enum StartEvent {
    /// The process is gone.
    Stopped,
    /// What was left behind is gone.
    Swept,
    /// Whether somebody answers on the preferred port, and a port that the system has to spare.
    Ports { taken: bool, spare: Option<u16> },
    /// The number of the process that was launched.
    Launched(u32),
    /// The process could not be launched, for this reason.
    NotLaunched(String),
    /// There is no way to read the output of a process.
    NoPipe,
}

/// What has come of a step of the start, with texts as characters.
pub enum StartEventView {
    Stopped,
    Swept,
    Ports { taken: bool, spare: Option<u16> },
    Launched(u32),
    NotLaunched(Seq<char>),
    NoPipe,
}

impl View for StartEvent {
    type V = StartEventView;

    open spec fn view(&self) -> StartEventView {
        match self {
            StartEvent::Stopped => StartEventView::Stopped,
            StartEvent::Swept => StartEventView::Swept,
            StartEvent::Ports { taken, spare } => StartEventView::Ports {
                taken: *taken,
                spare: *spare,
            },
            StartEvent::Launched(pid) => StartEventView::Launched(*pid),
            StartEvent::NotLaunched(e) => StartEventView::NotLaunched(e@),
            StartEvent::NoPipe => StartEventView::NoPipe,
        }
    }
}

/// A process of this machine: its number and its command line.
#[derive(Debug)]
pub struct ProcessInfo {
    pub pid: u32,
    pub cmd: Vec<String>,
}

/// What is known of the service process and of its restarts.
pub struct Supervisor {
    /// The number of the process, where there is one.
    pub child: Option<u32>,
    /// The port that the process was started on.
    pub port: u16,
    /// When it was restarted, in milliseconds.
    pub restarts: Vec<u64>,
    /// Whether the last restart asked for was one too many.
    pub degraded: bool,
    /// Where its output is logged.
    pub log_dir: Option<String>,
    /// The entry file that it was last started from.
    pub dsh_bin: Option<String>,
    /// What it has printed, where that is read.
    pub capture: Option<ServiceCapture>,
    /// The number of its launch. Only what that launch prints counts.
    pub launch: u64,
}

/// The number of the launch after this one.
pub open spec fn next_launch(launch: u64) -> u64 {
    if launch == u64::MAX {
        0
    } else {
        (launch + 1) as u64
    }
}

/// The bytes of an optional capture.
pub open spec fn captured(capture: Option<ServiceCapture>) -> Option<Seq<u8>> {
    match capture {
        Some(c) => Some(c.bytes()),
        None => None,
    }
}

/// The arguments with which the service is started.
pub open spec fn service_args(os: Os, bin: Seq<char>, port: nat, extra: Seq<Seq<char>>) -> Seq<
    Seq<char>,
> {
    seq![paths::plain_path(os, bin), "web"@, "--no-open"@, "--port"@, text::decimal(port)] + extra
}

/// How the service is to be launched for a port.
pub open spec fn launch_of(
    os: Os,
    log_dir: Option<Seq<char>>,
    order: OrderView,
    port: nat,
) -> LaunchView {
    LaunchView {
        program: paths::plain_path(os, order.node),
        args: service_args(os, order.dsh_bin, port, order.extra_args),
        cwd: paths::plain_path(os, order.workspace),
        log_file: match log_dir {
            Some(dir) => Some(paths::joined_path(os, dir, "service.log"@)),
            None => None,
        },
    }
}

/// The port to use: the preferred one where nobody answers on it, else one that the system has
/// to spare, else 0.
pub open spec fn free_port(preferred: u16, taken: bool, spare: Option<u16>) -> u16 {
    if !taken {
        preferred
    } else if spare is Some {
        spare->0
    } else {
        0
    }
}

/// What a start of the process comes to. Where the output cannot be read the process is launched
/// with its output going straight to the log.
pub open spec fn start_next(
    os: Os,
    log_dir: Option<Seq<char>>,
    order: OrderView,
    at: StartView,
    event: StartEventView,
) -> StartView {
    match (at, event) {
        (StartView::Stopping { .. }, StartEventView::Stopped) => StartView::Sweeping,
        (StartView::Sweeping, StartEventView::Swept) => StartView::Picking,
        (StartView::Picking, StartEventView::Ports { taken, spare }) => {
            let port = free_port(order.preferred_port, taken, spare);
            if port == 0 {
                StartView::Done(Err("无法确定可用端口"@))
            } else {
                StartView::Launching {
                    port,
                    launch: launch_of(os, log_dir, order, port as nat),
                    redirect: false,
                }
            }
        },
        (StartView::Launching { port, .. }, StartEventView::Launched(_)) => StartView::Done(
            Ok(port),
        ),
        (StartView::Launching { .. }, StartEventView::NotLaunched(e)) => StartView::Done(
            Err("启动服务失败: "@ + e),
        ),
        (StartView::Launching { port, launch, redirect: _ }, StartEventView::NoPipe) => {
            StartView::Launching { port, launch, redirect: true }
        },
        _ => at,
    }
}

/// How far along a start of the process lies.
pub open spec fn start_rank(at: StartView) -> nat {
    match at {
        StartView::Stopping { .. } => 0,
        StartView::Sweeping => 1,
        StartView::Picking => 2,
        StartView::Launching { redirect, .. } => if redirect {
            4
        } else {
            3
        },
        StartView::Done(_) => 5,
    }
}

/// A start of the process goes forward, and in this order: the process that is there is ended,
/// then those left behind, then a port is found, and only then is a process launched, for that
/// port. It counts as started on a port only where one was launched for it.
pub proof fn launch_comes_last(
    os: Os,
    log_dir: Option<Seq<char>>,
    order: OrderView,
    at: StartView,
    event: StartEventView,
)
    ensures
        ({
            let next = start_next(os, log_dir, order, at, event);
            &&& next != at ==> start_rank(at) < start_rank(next)
            &&& next is Sweeping && !(at is Sweeping) ==> at is Stopping && event is Stopped
            &&& next is Picking && !(at is Picking) ==> at is Sweeping && event is Swept
            &&& next is Launching && !(at is Launching) ==> at is Picking && next->port != 0
                && next->launch == launch_of(os, log_dir, order, next->port as nat)
            &&& next is Launching && at is Launching ==> next->port == at->port && next->launch
                == at->launch
            &&& next is Done && next->Done_0 is Ok && !(at is Done) ==> at is Launching
                && event is Launched && next->Done_0->Ok_0 == at->port
        }),
{
}

/// The times at which a restart still counts at `now`.
pub open spec fn recent(times: Seq<u64>, now: u64) -> Seq<u64>
    decreases times.len(),
{
    if times.len() == 0 {
        Seq::empty()
    } else {
        let before = recent(times.drop_last(), now);
        if now - times.last() < RESTART_WINDOW {
            before.push(times.last())
        } else {
            before
        }
    }
}

/// What marks the command line of a process that a service from `bin` has left behind.
pub open spec fn stale_markers(os: Os, bin: Seq<char>) -> Seq<Seq<char>> {
    let plain = paths::plain_path(os, bin);
    let known = seq![text::lowercase(plain), "dsh-market-restart"@];
    match runtime_of(os, plain) {
        Some(runtime) => known.push(text::lowercase(runtime)),
        None => known,
    }
}

/// The processes, other than this one, that a service from `bin` has left behind.
pub open spec fn stale_of(
    markers: Seq<Seq<char>>,
    current: Option<u32>,
    processes: Seq<ProcessInfo>,
) -> Seq<u32>
    decreases processes.len(),
{
    if processes.len() == 0 {
        Seq::empty()
    } else {
        let before = stale_of(markers, current, processes.drop_last());
        let p = processes.last();
        if Some(p.pid) != current && marked(text::strs(p.cmd@), markers) {
            before.push(p.pid)
        } else {
            before
        }
    }
}

/// Whether one of the processes is not the child.
pub open spec fn has_other(pids: Seq<u32>, child: Option<u32>) -> bool {
    exists|i: int| 0 <= i < pids.len() && Some(#[trigger] pids[i]) != child
}

/// The end of a text, in at most `max` bytes and whole characters.
pub open spec fn byte_tail(s: Seq<char>, max: nat) -> Seq<char>
    decreases s.len(),
{
    if text::byte_len(s) <= max {
        s
    } else {
        byte_tail(s.subrange(1, s.len() as int), max)
    }
}

impl Supervisor {
    /// Whether nothing has been started yet.
    pub open spec fn is_new(self) -> bool {
        &&& self.child is None
        &&& self.port == 0
        &&& self.restarts@.len() == 0
        &&& !self.degraded
        &&& self.log_dir is None
        &&& self.dsh_bin is None
        &&& self.capture is None
        &&& self.launch == 0
    }

    /// No service yet.
    pub fn new() -> (r: Self)
        ensures
            r.is_new(),
    {
        Supervisor {
            child: None,
            port: 0,
            restarts: Vec::new(),
            degraded: false,
            log_dir: None,
            dsh_bin: None,
            capture: None,
            launch: 0,
        }
    }

    pub fn set_log_dir(&mut self, dir: String)
        ensures
            *final(self) == (Supervisor { log_dir: Some(dir), ..*old(self) }),
    {
        self.log_dir = Some(dir);
    }

    pub fn port(&self) -> (r: u16)
        ensures
            r == self.port,
    {
        self.port
    }

    pub fn is_degraded(&self) -> (r: bool)
        ensures
            r == self.degraded,
    {
        self.degraded
    }

    /// The port to use: the preferred one where nobody answers on it, else one that the system
    /// has to spare, else 0.
    pub fn pick_free_port(preferred: u16, taken: bool, spare: Option<u16>) -> (r: u16)
        ensures
            r == free_port(preferred, taken, spare),
    {
        if !taken {
            return preferred;
        }
        match spare {
            Some(port) => port,
            None => 0,
        }
    }

    /// Begins a start of the process: the one that is there is given up. The entry file is
    /// remembered, so that what an earlier service from it has left behind can be found.
    pub fn start(&mut self, dsh_bin: &str) -> (r: Start)
        ensures
            r@ == (StartView::Stopping { child: old(self).child }),
            text::opt(final(self).dsh_bin) == Some(dsh_bin@),
            *final(self) == (Supervisor {
                child: None,
                dsh_bin: final(self).dsh_bin,
                ..*old(self)
            }),
    {
        self.dsh_bin = Some(dsh_bin.to_owned());
        let child = self.stop();
        Start::Stopping { child }
    }

    fn plan_launch(&self, os: Os, order: &ServiceOrder, port: u16) -> (r: Launch)
        ensures
            r@ == launch_of(os, text::opt(self.log_dir), order@, port as nat),
    {
        let mut args: Vec<String> = Vec::new();
        args.push(normalize_for_node(os, order.dsh_bin.as_str()));
        args.push("web".to_owned());
        args.push("--no-open".to_owned());
        args.push("--port".to_owned());
        args.push(number(port as u64));
        let ghost fixed = args@;
        let mut extra = copy_list(order.extra_args.as_slice());
        let ghost more = extra@;
        args.append(&mut extra);
        assert(text::strs(args@) =~= text::strs(fixed) + text::strs(more));
        assert(text::strs(args@) =~= service_args(
            os,
            order@.dsh_bin,
            port as nat,
            order@.extra_args,
        ));
        let log_file = match &self.log_dir {
            Some(dir) => Some(join_path(os, dir.as_str(), "service.log")),
            None => None,
        };
        Launch {
            program: normalize_for_node(os, order.node.as_str()),
            args,
            cwd: normalize_for_node(os, order.workspace.as_str()),
            log_file,
        }
    }

    /// What a start of the process comes to. A process that was launched is the service from
    /// then on. What was captured of an earlier one no longer counts once a port is found, nor
    /// does what it may still print once the new one was launched.
    pub fn start_step(&mut self, os: Os, order: &ServiceOrder, at: Start, event: StartEvent) -> (r:
        Start)
        ensures
            r@ == start_next(os, text::opt(old(self).log_dir), order@, at@, event@),
            match (at@, event@) {
                (
                    StartView::Picking,
                    StartEventView::Ports { .. },
                ) => *final(self) == (if r@ is Launching {
                    Supervisor { capture: None, ..*old(self) }
                } else {
                    *old(self)
                }),
                (
                    StartView::Launching { port, redirect, .. },
                    StartEventView::Launched(pid),
                ) => {
                    &&& captured(final(self).capture) == (if redirect {
                        None
                    } else {
                        Some(Seq::<u8>::empty())
                    })
                    &&& final(self).capture matches Some(c) ==> c.limit()
                        == serviceout::DEFAULT_LIMIT
                    &&& *final(self) == (Supervisor {
                        child: Some(pid),
                        port,
                        capture: final(self).capture,
                        launch: next_launch(old(self).launch),
                        ..*old(self)
                    })
                },
                _ => *final(self) == *old(self),
            },
    {
        match (at, event) {
            (Start::Stopping { .. }, StartEvent::Stopped) => Start::Sweeping,
            (Start::Sweeping, StartEvent::Swept) => Start::Picking,
            (Start::Picking, StartEvent::Ports { taken, spare }) => {
                let port: u16 = Self::pick_free_port(order.preferred_port, taken, spare);
                if port == 0 {
                    Start::Done(Err("无法确定可用端口".to_owned()))
                } else {
                    let launch = self.plan_launch(os, order, port);
                    self.capture = None;
                    Start::Launching { port, launch, redirect: false }
                }
            },
            (Start::Launching { port, launch: _, redirect }, StartEvent::Launched(pid)) => {
                self.child = Some(pid);
                self.port = port;
                self.launch = if self.launch == u64::MAX {
                    0
                } else {
                    self.launch + 1
                };
                self.capture = if redirect {
                    None
                } else {
                    Some(ServiceCapture::new(DEFAULT_LIMIT))
                };
                Start::Done(Ok(port))
            },
            (Start::Launching { .. }, StartEvent::NotLaunched(e)) => {
                Start::Done(Err(cat("启动服务失败: ", e.as_str())))
            },
            (Start::Launching { port, launch, redirect: _ }, StartEvent::NoPipe) => {
                Start::Launching { port, launch, redirect: true }
            },
            (at, _) => at,
        }
    }

    /// Takes in what the process of a launch has printed next. What an earlier process prints
    /// after another one was launched is dropped.
    pub fn take_output(&mut self, launch: u64, chunk: &[u8])
        ensures
            captured(final(self).capture) == match old(self).capture {
                Some(c) => if launch == old(self).launch {
                    Some(serviceout::last_of(c.bytes() + chunk@, c.limit()))
                } else {
                    Some(c.bytes())
                },
                None => None,
            },
            final(self).capture matches Some(c) ==> c.limit() == old(self).capture->0.limit(),
            *final(self) == (Supervisor { capture: final(self).capture, ..*old(self) }),
    {
        if launch == self.launch {
            let held = self.capture.take();
            if let Some(mut c) = held {
                c.push_bytes(chunk);
                self.capture = Some(c);
            }
        }
    }

    /// Whether the process is gone. A poll that fails counts as gone, though the process may
    /// still be there.
    pub fn is_exited(&mut self, poll: ChildPoll) -> (r: bool)
        ensures
            r == (old(self).child is None || poll != ChildPoll::Running),
            *final(self) == (if poll == ChildPoll::Exited {
                Supervisor { child: None, ..*old(self) }
            } else {
                *old(self)
            }),
    {
        match self.child {
            None => true,
            Some(_) => match poll {
                ChildPoll::Exited => {
                    self.child = None;
                    true
                },
                ChildPoll::Running => false,
                ChildPoll::Failed => true,
            },
        }
    }

    /// The address that the service has announced.
    pub fn captured_url(&self) -> (r: Option<String>)
        ensures
            text::opt(r) == match captured(self.capture) {
                Some(bytes) if self.port != 0 => serviceout::announced_url(
                    text::utf8_lossy(bytes),
                    self.port as nat,
                ),
                _ => None,
            },
    {
        match &self.capture {
            Some(c) => {
                if self.port == 0 {
                    None
                } else {
                    c.captured_url(self.port)
                }
            },
            None => None,
        }
    }

    /// What kind of failure the output of the service tells of, where there is any output.
    pub fn failure_classify(&self) -> (r: Option<FailureKind>)
        ensures
            match captured(self.capture) {
                Some(bytes) => r is Some && r->0@ == serviceout::kind_of(text::utf8_lossy(bytes)),
                None => r is None,
            },
    {
        match &self.capture {
            Some(c) => Some(c.classify()),
            None => None,
        }
    }

    /// The end of the service's output, in at most `max` bytes and whole characters.
    pub fn output_tail(&self, max: usize) -> (r: String)
        ensures
            r@ == match captured(self.capture) {
                Some(bytes) => byte_tail(text::utf8_lossy(bytes), max as nat),
                None => Seq::<char>::empty(),
            },
    {
        match &self.capture {
            Some(c) => {
                let text = c.text();
                let s = chars(text.as_str());
                let ghost all = s@;
                let mut from: usize = s.len();
                let mut room: usize = max;
                while from > 0 && char_width(s[from - 1]) <= room
                    invariant
                        from <= s@.len(),
                        s@ == all,
                        room <= max,
                        text::byte_len(all.subrange(from as int, all.len() as int)) == max - room,
                    decreases from,
                {
                    let ghost before = all.subrange(from as int, all.len() as int);
                    let ghost more = all.subrange(from - 1, all.len() as int);
                    assert(more.subrange(1, more.len() as int) =~= before);
                    room = room - char_width(s[from - 1]);
                    from = from - 1;
                }
                proof {
                    assert(all.subrange(0, all.len() as int) =~= all);
                    if from > 0 {
                        let more = all.subrange(from - 1, all.len() as int);
                        assert(more.subrange(1, more.len() as int) =~= all.subrange(
                            from as int,
                            all.len() as int,
                        ));
                    }
                    lemma_byte_tail(all, from as int, max as nat, 0);
                }
                string_of(cut(s.as_slice(), from, s.len()))
            },
            None => String::new(),
        }
    }

    /// Whether one more restart is allowed now. One that is counts as made.
    pub fn allow_restart(&mut self, now: u64) -> (r: bool)
        ensures
            r == (recent(old(self).restarts@, now).len() < MAX_RESTARTS),
            final(self).degraded == !r,
            final(self).restarts@ == (if r {
                recent(old(self).restarts@, now).push(now)
            } else {
                recent(old(self).restarts@, now)
            }),
            *final(self) == (Supervisor {
                degraded: final(self).degraded,
                restarts: final(self).restarts,
                ..*old(self)
            }),
    {
        let ghost times = self.restarts@;
        let mut window: Vec<u64> = Vec::new();
        assert(recent(times.subrange(0, 0), now) =~= Seq::<u64>::empty());
        for i in 0..self.restarts.len()
            invariant
                times == self.restarts@,
                window@ == recent(times.subrange(0, i as int), now),
                *self == *old(self),
        {
            assert(times.subrange(0, i + 1).drop_last() =~= times.subrange(0, i as int));
            let t: u64 = self.restarts[i];
            if t >= now || now - t < RESTART_WINDOW {
                window.push(t);
            }
        }
        assert(times.subrange(0, times.len() as int) =~= times);
        let allowed = window.len() < MAX_RESTARTS;
        self.degraded = !allowed;
        if allowed {
            window.push(now);
        }
        self.restarts = window;
        allowed
    }

    /// Begins a restart of the process. Where there were too many of late, it is refused and the
    /// process that is there stays.
    pub fn restart(&mut self, now: u64, dsh_bin: &str) -> (r: Start)
        ensures
            ({
                let allowed = recent(old(self).restarts@, now).len() < MAX_RESTARTS;
                &&& final(self).degraded == !allowed
                &&& if allowed {
                    &&& r@ == (StartView::Stopping { child: old(self).child })
                    &&& text::opt(final(self).dsh_bin) == Some(dsh_bin@)
                    &&& final(self).restarts@ == recent(old(self).restarts@, now).push(now)
                    &&& *final(self) == (Supervisor {
                        child: None,
                        degraded: false,
                        restarts: final(self).restarts,
                        dsh_bin: final(self).dsh_bin,
                        ..*old(self)
                    })
                } else {
                    &&& r@ == StartView::Done(Err("服务多次启动失败"@))
                    &&& final(self).restarts@ == recent(old(self).restarts@, now)
                    &&& *final(self) == (Supervisor {
                        degraded: true,
                        restarts: final(self).restarts,
                        ..*old(self)
                    })
                }
            }),
    {
        if !self.allow_restart(now) {
            return Start::Done(Err("服务多次启动失败".to_owned()));
        }
        self.start(dsh_bin)
    }

    /// Gives the process up: its number, where there was one, is handed out to be ended.
    pub fn stop(&mut self) -> (r: Option<u32>)
        ensures
            r == old(self).child,
            *final(self) == (Supervisor { child: None, ..*old(self) }),
    {
        let child = self.child;
        self.child = None;
        child
    }

    /// The processes, other than this one, that earlier services have left behind. Before a
    /// first start nothing is known to look for.
    pub fn kill_stale_dsh(
        &self,
        os: Os,
        current: Option<u32>,
        processes: &[ProcessInfo],
    ) -> (r: Vec<u32>)
        ensures
            r@ == match self.dsh_bin {
                Some(bin) => stale_of(stale_markers(os, bin@), current, processes@),
                None => Seq::<u32>::empty(),
            },
    {
        let bin = match &self.dsh_bin {
            Some(b) => normalize_for_node(os, b.as_str()),
            None => {
                return Vec::new();
            },
        };
        let mut markers: Vec<String> = Vec::new();
        markers.push(to_lower(bin.as_str()));
        markers.push("dsh-market-restart".to_owned());
        if let Some(runtime) = runtime_dir_from_bin(os, bin.as_str()) {
            markers.push(to_lower(runtime.as_str()));
        }
        assert(text::strs(markers@) =~= stale_markers(os, self.dsh_bin->0@));
        let ghost known = text::strs(markers@);
        let mut out: Vec<u32> = Vec::new();
        assert(out@ =~= stale_of(known, current, processes@.subrange(0, 0)));
        for i in 0..processes.len()
            invariant
                text::strs(markers@) == known,
                out@ == stale_of(known, current, processes@.subrange(0, i as int)),
        {
            assert(processes@.subrange(0, i + 1).drop_last() =~= processes@.subrange(0, i as int));
            let pid: u32 = processes[i].pid;
            let own = match current {
                Some(c) => c == pid,
                None => false,
            };
            if !own && cmd_matches_markers(processes[i].cmd.as_slice(), markers.as_slice()) {
                out.push(pid);
            }
        }
        assert(processes@.subrange(0, processes@.len() as int) =~= processes@);
        out
    }

    /// Whether another process hosts DSH: one that is marked as the service is, and is neither
    /// this program nor the service itself.
    pub fn other_host_runs(
        &self,
        os: Os,
        current: Option<u32>,
        processes: &[ProcessInfo],
    ) -> (r: bool)
        ensures
            r == match self.dsh_bin {
                Some(bin) => has_other(
                    stale_of(stale_markers(os, bin@), current, processes@),
                    self.child,
                ),
                None => false,
            },
    {
        let found = self.kill_stale_dsh(os, current, processes);
        for i in 0..found.len()
            invariant
                found@ == match self.dsh_bin {
                    Some(bin) => stale_of(stale_markers(os, bin@), current, processes@),
                    None => Seq::<u32>::empty(),
                },
                forall|k: int| 0 <= k < i ==> Some(#[trigger] found@[k]) == self.child,
        {
            let pid: u32 = found[i];
            let own = match self.child {
                Some(c) => c == pid,
                None => false,
            };
            if !own {
                assert(Some(found@[i as int]) != self.child);
                return true;
            }
        }
        false
    }
}

proof fn lemma_byte_len_tail(s: Seq<char>, i: int, j: int)
    requires
        0 <= i <= j <= s.len(),
    ensures
        text::byte_len(s.subrange(j, s.len() as int)) <= text::byte_len(s.subrange(i, s.len() as int)),
        i < j ==> text::byte_len(s.subrange(j - 1, s.len() as int)) <= text::byte_len(
            s.subrange(i, s.len() as int),
        ),
    decreases j - i,
{
    if i < j {
        let t = s.subrange(i, s.len() as int);
        assert(t.subrange(1, t.len() as int) =~= s.subrange(i + 1, s.len() as int));
        lemma_byte_len_tail(s, i + 1, j);
    }
}

proof fn lemma_byte_tail(s: Seq<char>, from: int, max: nat, i: int)
    requires
        0 <= i <= from <= s.len(),
        text::byte_len(s.subrange(from, s.len() as int)) <= max,
        from > 0 ==> text::byte_len(s.subrange(from - 1, s.len() as int)) > max,
    ensures
        byte_tail(s.subrange(i, s.len() as int), max) == s.subrange(from, s.len() as int),
    decreases from - i,
{
    let t = s.subrange(i, s.len() as int);
    if i < from {
        assert(t.subrange(1, t.len() as int) =~= s.subrange(i + 1, s.len() as int));
        lemma_byte_len_tail(s, i, from);
        lemma_byte_tail(s, from, max, i + 1);
    }
}

/// The times that are remembered after requests for a restart at these times, one after the
/// other, from a supervisor that was never restarted.
pub open spec fn remembered(requests: Seq<u64>) -> Seq<u64>
    decreases requests.len(),
{
    if requests.len() == 0 {
        Seq::empty()
    } else {
        let kept = recent(remembered(requests.drop_last()), requests.last());
        if kept.len() < MAX_RESTARTS {
            kept.push(requests.last())
        } else {
            kept
        }
    }
}

/// The requests among these that were granted.
pub open spec fn granted(requests: Seq<u64>) -> Seq<u64>
    decreases requests.len(),
{
    if requests.len() == 0 {
        Seq::empty()
    } else {
        let before = granted(requests.drop_last());
        if recent(remembered(requests.drop_last()), requests.last()).len() < MAX_RESTARTS {
            before.push(requests.last())
        } else {
            before
        }
    }
}

/// Whether no time lies before an earlier one of the sequence.
pub open spec fn in_time_order(times: Seq<u64>) -> bool {
    forall|i: int, j: int| 0 <= i <= j < times.len() ==> times[i] <= times[j]
}

proof fn lemma_recent_is_suffix(times: Seq<u64>, now: u64)
    requires
        in_time_order(times),
    ensures
        recent(times, now).len() <= times.len(),
        recent(times, now) == times.subrange(
            times.len() - recent(times, now).len(),
            times.len() as int,
        ),
        forall|i: int|
            0 <= i < times.len() - recent(times, now).len() ==> now - #[trigger] times[i]
                >= RESTART_WINDOW,
    decreases times.len(),
{
    if times.len() > 0 {
        let front = times.drop_last();
        assert forall|i: int, j: int| 0 <= i <= j < front.len() implies front[i] <= front[j] by {
            assert(front[i] == times[i] && front[j] == times[j]);
        }
        lemma_recent_is_suffix(front, now);
        let kept = recent(times, now);
        let k = recent(front, now).len();
        if now - times.last() < RESTART_WINDOW {
            assert(kept =~= times.subrange(times.len() - kept.len(), times.len() as int));
            assert forall|i: int| 0 <= i < times.len() - kept.len() implies now
                - #[trigger] times[i] >= RESTART_WINDOW by {
                assert(front[i] == times[i]);
            }
        } else {
            if k > 0 {
                assert(recent(front, now)[0] == front[front.len() - k]);
                lemma_recent_holds(front, now);
                assert(times[front.len() - k] <= times[times.len() - 1]);
            }
            assert(kept =~= times.subrange(times.len() - kept.len(), times.len() as int));
            assert forall|i: int| 0 <= i < times.len() - kept.len() implies now
                - #[trigger] times[i] >= RESTART_WINDOW by {
                if i < front.len() {
                    assert(front[i] == times[i]);
                }
            }
        }
    } else {
        assert(recent(times, now) =~= times.subrange(0, 0));
    }
}

proof fn lemma_recent_holds(times: Seq<u64>, now: u64)
    ensures
        forall|i: int|
            0 <= i < recent(times, now).len() ==> now - #[trigger] recent(times, now)[i]
                < RESTART_WINDOW,
    decreases times.len(),
{
    if times.len() > 0 {
        let before = recent(times.drop_last(), now);
        lemma_recent_holds(times.drop_last(), now);
        assert forall|i: int| 0 <= i < recent(times, now).len() implies now - #[trigger] recent(
            times,
            now,
        )[i] < RESTART_WINDOW by {
            if i < before.len() {
                assert(recent(times, now)[i] == before[i]);
            }
        }
    }
}

proof fn lemma_remembered(requests: Seq<u64>)
    requires
        in_time_order(requests),
    ensures
        in_time_order(granted(requests)),
        forall|i: int|
            0 <= i < granted(requests).len() ==> requests.len() > 0 && #[trigger] granted(
                requests,
            )[i] <= requests.last(),
        remembered(requests).len() <= granted(requests).len(),
        remembered(requests) == granted(requests).subrange(
            granted(requests).len() - remembered(requests).len(),
            granted(requests).len() as int,
        ),
        forall|i: int|
            0 <= i < granted(requests).len() - remembered(requests).len() ==> requests.last()
                - #[trigger] granted(requests)[i] >= RESTART_WINDOW,
        forall|i: int|
            0 <= i < granted(requests).len() - MAX_RESTARTS ==> (#[trigger] granted(
                requests,
            )[i + MAX_RESTARTS]) - granted(requests)[i] >= RESTART_WINDOW,
    decreases requests.len(),
{
    if requests.len() == 0 {
        assert(remembered(requests) =~= granted(requests).subrange(0, 0));
    } else {
        let front = requests.drop_last();
        let now = requests.last();
        assert forall|i: int, j: int| 0 <= i <= j < front.len() implies front[i] <= front[j] by {
            assert(front[i] == requests[i] && front[j] == requests[j]);
        }
        lemma_remembered(front);
        let old_kept = remembered(front);
        let g = granted(front);
        let lost = g.len() - old_kept.len();
        assert forall|i: int, j: int| 0 <= i <= j < old_kept.len() implies old_kept[i]
            <= old_kept[j] by {
            assert(old_kept[i] == g[lost + i] && old_kept[j] == g[lost + j]);
        }
        lemma_recent_is_suffix(old_kept, now);
        let kept = recent(old_kept, now);
        if front.len() > 0 {
            assert(front.last() == requests[requests.len() - 2]);
            assert(front.last() <= now);
        }
        assert(kept =~= g.subrange(g.len() - kept.len(), g.len() as int)) by {
            assert forall|i: int| 0 <= i < kept.len() implies kept[i] == g[g.len() - kept.len()
                + i] by {
                assert(kept[i] == old_kept[old_kept.len() - kept.len() + i]);
            }
        }
        assert forall|i: int| 0 <= i < g.len() - kept.len() implies now - #[trigger] g[i]
            >= RESTART_WINDOW by {
            if i < lost {
            } else {
                assert(old_kept[i - lost] == g[i]);
            }
        }
        let all = granted(requests);
        if kept.len() < MAX_RESTARTS {
            assert(all =~= g.push(now));
            assert(remembered(requests) =~= all.subrange(
                all.len() - remembered(requests).len(),
                all.len() as int,
            ));
            assert forall|i: int| 0 <= i < all.len() - MAX_RESTARTS implies (
            #[trigger] all[i + MAX_RESTARTS]) - all[i] >= RESTART_WINDOW by {
                if i + MAX_RESTARTS == g.len() {
                    assert(now - g[i] >= RESTART_WINDOW);
                } else {
                    assert(g[i + MAX_RESTARTS] - g[i] >= RESTART_WINDOW);
                }
            }
        }
    }
}

/// However restarts are asked for, any one that is granted lies a whole window after the third
/// one granted before it: never more than [`MAX_RESTARTS`] within [`RESTART_WINDOW`].
pub proof fn restarts_are_limited(requests: Seq<u64>)
    requires
        in_time_order(requests),
    ensures
        forall|i: int|
            0 <= i < granted(requests).len() - MAX_RESTARTS ==> (#[trigger] granted(
                requests,
            )[i + MAX_RESTARTS]) - granted(requests)[i] >= RESTART_WINDOW,
{
    lemma_remembered(requests);
}

/// Once the window has passed since the last restart, a restart is allowed again.
pub proof fn restarts_are_forgiven(times: Seq<u64>, now: u64)
    requires
        forall|i: int| 0 <= i < times.len() ==> now - #[trigger] times[i] >= RESTART_WINDOW,
    ensures
        recent(times, now).len() == 0,
    decreases times.len(),
{
    if times.len() > 0 {
        assert(now - times[times.len() - 1] >= RESTART_WINDOW);
        assert forall|i: int| 0 <= i < times.drop_last().len() implies now
            - #[trigger] times.drop_last()[i] >= RESTART_WINDOW by {
            assert(times.drop_last()[i] == times[i]);
        }
        restarts_are_forgiven(times.drop_last(), now);
    }
}

/// Whether a process that was asked to end is given more time, `waited` milliseconds after it
/// was asked.
pub fn keep_waiting(waited: u64, poll: ChildPoll) -> (r: bool)
    ensures
        r == (waited < 5000 && poll == ChildPoll::Running),
{
    waited < 5000 && poll == ChildPoll::Running
}

/// Whether processes left behind are looked for once more: as long as the last search found
/// any, and not after the fourth.
pub fn sweep_again(done: u32, found: bool) -> (r: bool)
    ensures
        r == (found && done < 4),
{
    found && done < 4
}

/// What is asked of a port is the page at its root, of this machine and that port, and it counts as a
/// service just where the reply is one of HTTP. Port 0 is asked nothing.
pub proof fn port_is_asked_for_its_page(
    port: u16,
    reply: Option<&[u8]>,
    asked: Option<String>,
    there: bool,
    place: Loopback,
)
    requires
        call_ensures(probe_request, (port,), asked),
        call_ensures(probe_port, (port, reply), there),
        call_ensures(loopback, (port,), place),
    ensures
        asked is Some <==> port != 0,
        asked matches Some(t) ==> t@ == "GET / HTTP/1.1\r\nHost: 127.0.0.1:"@ + text::decimal(
            port as nat,
        ) + "\r\nConnection: close\r\nUser-Agent: dsh-desktop/0.1\r\n\r\n"@,
        there <==> port != 0 && reply is Some && text::contains(
            text::utf8_lossy(reply->0@),
            "HTTP/1"@,
        ),
        place.ip@ == "127.0.0.1"@,
        place.port == port,
{
}

/// A service is first stopped, then what is left of earlier ones is swept away, then a port is picked:
/// the wanted one unless it is taken, else a spare one. It is launched with node from the entry file,
/// on that port, without opening a window, with the arguments that were given for it, in the
/// workspace.
pub proof fn service_is_launched_on_its_port(
    os: Os,
    log_dir: Option<Seq<char>>,
    order: OrderView,
    child: Option<u32>,
    taken: bool,
    spare: Option<u16>,
)
    ensures
        start_next(os, log_dir, order, StartView::Stopping { child }, StartEventView::Stopped)
            == StartView::Sweeping,
        start_next(os, log_dir, order, StartView::Sweeping, StartEventView::Swept)
            == StartView::Picking,
        ({
            let next = start_next(
                os,
                log_dir,
                order,
                StartView::Picking,
                StartEventView::Ports { taken, spare },
            );
            let port = if !taken {
                order.preferred_port
            } else if spare is Some {
                spare->0
            } else {
                0
            };
            &&& port == 0 ==> next == StartView::Done(Err("无法确定可用端口"@))
            &&& port != 0 ==> {
                &&& next is Launching
                &&& next->port == port
                &&& !next->redirect
                &&& next->launch.program == paths::plain_path(os, order.node)
                &&& next->launch.cwd == paths::plain_path(os, order.workspace)
                &&& next->launch.args == seq![
                    paths::plain_path(os, order.dsh_bin),
                    "web"@,
                    "--no-open"@,
                    "--port"@,
                    text::decimal(port as nat),
                ] + order.extra_args
                &&& log_dir matches Some(dir) ==> next->launch.log_file == Some(
                    paths::joined_path(os, dir, "service.log"@),
                )
                &&& log_dir is None ==> next->launch.log_file is None
            }
        }),
{
}

/// A service that was launched is the child on the port that was picked, and its output is taken in
/// afresh; one that was not launched fails with the reason. Where no pipe can be had it is launched
/// once more, into a file.
pub proof fn launched_service_is_the_child(
    sup: &mut Supervisor,
    os: Os,
    order: &ServiceOrder,
    at: Start,
    event: StartEvent,
    r: Start,
)
    requires
        call_ensures(Supervisor::start_step, (sup, os, order, at, event), r),
    ensures
        r@ == start_next(os, text::opt(old(sup).log_dir), order@, at@, event@),
        at@ is Launching && event@ is Launched ==> {
            &&& r@ == StartView::Done(Ok(at@->port))
            &&& final(sup).child == Some(event@->Launched_0)
            &&& final(sup).port == at@->port
            &&& !at@->redirect ==> final(sup).capture is Some && final(sup).capture->0.bytes().len() == 0
            &&& at@->redirect ==> final(sup).capture is None
            &&& final(sup).launch != old(sup).launch
        },
        at@ is Launching && event@ is NotLaunched ==> r@ == StartView::Done(
            Err("启动服务失败: "@ + event@->NotLaunched_0),
        ) && *final(sup) == *old(sup),
        at@ is Launching && event@ is NoPipe ==> r@ is Launching && r@->redirect && r@->port
            == at@->port && r@->launch == at@->launch,
        final(sup).restarts@ == old(sup).restarts@,
        final(sup).degraded == old(sup).degraded,
{
}

/// To start a service ends the one that runs and remembers the entry file; to stop it forgets the
/// child, which is to be ended.
pub proof fn running_service_is_ended_first(
    sup: &mut Supervisor,
    other: &mut Supervisor,
    bin: &str,
    r: Start,
    stopped: Option<u32>,
)
    requires
        call_ensures(Supervisor::start, (sup, bin), r),
        call_ensures(Supervisor::stop, (other,), stopped),
    ensures
        r@ is Stopping && r@->child == old(sup).child,
        final(sup).child is None,
        final(sup).dsh_bin is Some && final(sup).dsh_bin->0@ == bin@,
        final(sup).restarts@ == old(sup).restarts@,
        stopped == old(other).child,
        final(other).child is None,
        final(other).port == old(other).port,
        final(other).dsh_bin == old(other).dsh_bin,
{
}

/// Output is taken in only from the service that was launched last, behind what is there, and the end
/// of it is kept.
pub proof fn output_of_the_last_launch_counts(sup: &mut Supervisor, launch: u64, chunk: &[u8])
    requires
        call_ensures(Supervisor::take_output, (sup, launch, chunk), ()),
        old(sup).capture is Some,
    ensures
        final(sup).capture is Some,
        launch != old(sup).launch ==> final(sup).capture->0.bytes() == old(sup).capture->0.bytes(),
        launch == old(sup).launch && old(sup).capture->0.bytes().len() + chunk@.len() <= old(sup).capture->0.limit() ==> final(sup).capture->0.bytes() == old(sup).capture->0.bytes()
            + chunk@,
        launch == old(sup).launch ==> final(sup).capture->0.bytes().is_suffix_of(
            old(sup).capture->0.bytes() + chunk@,
        ),
        final(sup).child == old(sup).child,
        final(sup).port == old(sup).port,
{
    let all = old(sup).capture->0.bytes() + chunk@;
    serviceout::capture_keeps_the_end(all, old(sup).capture->0.limit());
}

/// A service has gone where there is no child, or where the child is found to have ended, which is
/// then forgotten.
pub proof fn ended_child_is_forgotten(sup: &mut Supervisor, poll: ChildPoll, r: bool)
    requires
        call_ensures(Supervisor::is_exited, (sup, poll), r),
    ensures
        r <==> old(sup).child is None || poll != ChildPoll::Running,
        poll == ChildPoll::Exited ==> final(sup).child is None,
        poll != ChildPoll::Exited ==> *final(sup) == *old(sup),
        final(sup).port == old(sup).port,
{
}

/// The address and the failure are read out of the output of the service that runs, for its port.
pub proof fn output_is_read_for_its_port(
    sup: &Supervisor,
    url: Option<String>,
    kind: Option<FailureKind>,
)
    requires
        call_ensures(Supervisor::captured_url, (sup,), url),
        call_ensures(Supervisor::failure_classify, (sup,), kind),
    ensures
        sup.capture is None ==> url is None && kind is None,
        sup.port == 0 ==> url is None,
        sup.capture is Some && sup.port != 0 ==> text::opt(url) == serviceout::announced_url(
            text::utf8_lossy(sup.capture->0.bytes()),
            sup.port as nat,
        ),
        sup.capture is Some ==> kind is Some && kind->0@ == serviceout::kind_of(
            text::utf8_lossy(sup.capture->0.bytes()),
        ),
{
}

/// The end of an output that is shown is a suffix of it, all of it where it is short enough, and no
/// longer in bytes than it may be.
pub proof fn shown_output_is_the_end(s: Seq<char>, max: nat)
    ensures
        byte_tail(s, max).is_suffix_of(s),
        text::byte_len(byte_tail(s, max)) <= max,
        text::byte_len(s) <= max ==> byte_tail(s, max) == s,
        byte_tail(s, max).len() < s.len() ==> text::byte_len(
            s.subrange(s.len() - byte_tail(s, max).len() - 1, s.len() as int),
        ) > max,
    decreases s.len(),
{
    if text::byte_len(s) > max {
        let rest = s.subrange(1, s.len() as int);
        shown_output_is_the_end(rest, max);
        let t = byte_tail(s, max);
        assert(t =~= s.subrange(s.len() - t.len(), s.len() as int)) by {
            assert(t =~= rest.subrange(rest.len() - t.len(), rest.len() as int));
        }
        if t.len() < rest.len() {
            assert(rest.subrange(rest.len() - t.len() - 1, rest.len() as int) =~= s.subrange(
                s.len() - t.len() - 1,
                s.len() as int,
            ));
        } else {
            assert(s.subrange(0, s.len() as int) =~= s);
        }
    } else {
        assert(s.subrange(0, s.len() as int) =~= s);
    }
}

/// Restarts are allowed while fewer than the limit were made within the window; an allowed one is
/// remembered, and a refused one marks the service as failing.
pub proof fn restart_is_allowed_below_the_limit(sup: &mut Supervisor, now: u64, r: bool)
    requires
        call_ensures(Supervisor::allow_restart, (sup, now), r),
    ensures
        ({
            let held = old(sup).restarts@.filter(|t: u64| now - t < 300_000);
            &&& r <==> held.len() < 3
            &&& final(sup).restarts@ == (if r {
                held.push(now)
            } else {
                held
            })
        }),
        final(sup).degraded <==> !r,
        final(sup).child == old(sup).child,
        final(sup).port == old(sup).port,
{
    lemma_recent_is_filter(old(sup).restarts@, now);
}

proof fn lemma_recent_is_filter(times: Seq<u64>, now: u64)
    ensures
        recent(times, now) == times.filter(|t: u64| now - t < 300_000),
    decreases times.len(),
{
    reveal(Seq::filter);
    if times.len() > 0 {
        lemma_recent_is_filter(times.drop_last(), now);
    }
}

/// A restart that is allowed begins as a start does; one that is not fails at once and leaves the
/// service alone.
pub proof fn refused_restart_leaves_the_service(
    sup: &mut Supervisor,
    now: u64,
    bin: &str,
    r: Start,
)
    requires
        call_ensures(Supervisor::restart, (sup, now, bin), r),
    ensures
        r@ is Stopping <==> old(sup).restarts@.filter(|t: u64| now - t < 300_000).len()
            < 3,
        r@ is Stopping ==> r@->child == old(sup).child && final(sup).child is None && final(sup).dsh_bin is Some && final(sup).dsh_bin->0@ == bin@ && !final(sup).degraded,
        !(r@ is Stopping) ==> r@ == StartView::Done(Err("服务多次启动失败"@)) && final(sup).child == old(sup).child && final(sup).degraded,
{
    lemma_recent_is_filter(old(sup).restarts@, now);
}

/// The processes that are swept away are those whose command line names the entry file, its runtime
/// or a restart of the market, whatever the case of the letters, but for the application itself.
pub proof fn stale_processes_are_found(
    sup: &Supervisor,
    os: Os,
    current: Option<u32>,
    processes: &[ProcessInfo],
    r: Vec<u32>,
)
    requires
        call_ensures(Supervisor::kill_stale_dsh, (sup, os, current, processes), r),
    ensures
        sup.dsh_bin is None ==> r@.len() == 0,
        sup.dsh_bin matches Some(bin) ==> r@ == processes@.filter(
            |p: ProcessInfo|
                Some(p.pid) != current && marked(text::strs(p.cmd@), stale_markers(os, bin@)),
        ).map_values(|p: ProcessInfo| p.pid),
        sup.dsh_bin matches Some(bin) ==> {
            &&& stale_markers(os, bin@).contains(text::lowercase(paths::plain_path(os, bin@)))
            &&& stale_markers(os, bin@).contains("dsh-market-restart"@)
            &&& runtime_of(os, paths::plain_path(os, bin@)) matches Some(rt) ==> stale_markers(
                os,
                bin@,
            ).contains(text::lowercase(rt))
            &&& stale_markers(os, bin@).len() <= 3
        },
{
    if let Some(bin) = sup.dsh_bin {
        let marks = stale_markers(os, bin@);
        lemma_stale(marks, current, processes@);
        assert(marks[0] == text::lowercase(paths::plain_path(os, bin@)));
        assert(marks[1] == "dsh-market-restart"@);
        if let Some(rt) = runtime_of(os, paths::plain_path(os, bin@)) {
            assert(marks[2] == text::lowercase(rt));
        }
    }
}

proof fn lemma_stale(
    markers: Seq<Seq<char>>,
    current: Option<u32>,
    processes: Seq<ProcessInfo>,
)
    ensures
        stale_of(markers, current, processes) == processes.filter(
            |p: ProcessInfo| Some(p.pid) != current && marked(text::strs(p.cmd@), markers),
        ).map_values(|p: ProcessInfo| p.pid),
    decreases processes.len(),
{
    let stale = |p: ProcessInfo| Some(p.pid) != current && marked(text::strs(p.cmd@), markers);
    let pid = |p: ProcessInfo| p.pid;
    reveal(Seq::filter);
    if processes.len() > 0 {
        lemma_stale(markers, current, processes.drop_last());
        let front = processes.drop_last().filter(stale);
        if stale(processes.last()) {
            assert(processes.filter(stale) == front.push(processes.last()));
            assert(front.push(processes.last()).map_values(pid) =~= front.map_values(pid).push(
                pid(processes.last()),
            ));
        } else {
            assert(processes.filter(stale) == front);
        }
    } else {
        assert(stale_of(markers, current, processes) =~= processes.filter(stale).map_values(pid));
    }
}

/// A command line is marked where one of the markers stands in it, whatever the case of the letters.
pub proof fn marker_stands_in_the_command_line(cmd: &[String], markers: &[String], r: bool)
    requires
        call_ensures(cmd_matches_markers, (cmd, markers), r),
    ensures
        r <==> exists|i: int|
            0 <= i < markers@.len() && text::contains(
                text::joined(
                    Seq::new(cmd@.len(), |k: int| text::lowercase(cmd@[k]@)),
                    " "@,
                ),
                text::lowercase((#[trigger] markers@[i])@),
            ),
{
    let low = Seq::new(cmd@.len(), |k: int| text::lowercase(cmd@[k]@));
    assert(lowered(text::strs(cmd@)) =~= low);
    let marks = text::strs(markers@);
    if marked(text::strs(cmd@), marks) {
        let i = choose|i: int|
            #![trigger marks[i]]
            0 <= i < marks.len() && text::contains(text::joined(low, " "@), text::lowercase(marks[i]));
        assert(marks[i] == markers@[i]@);
    }
    if exists|i: int|
        0 <= i < markers@.len() && text::contains(
            text::joined(low, " "@),
            text::lowercase((#[trigger] markers@[i])@),
        ) {
        let i = choose|i: int|
            0 <= i < markers@.len() && text::contains(
                text::joined(low, " "@),
                text::lowercase((#[trigger] markers@[i])@),
            );
        assert(marks[i] == markers@[i]@);
    }
}

/// Another host runs where a stale process is found that is not the application's own child.
pub proof fn other_host_is_not_the_child(
    sup: &Supervisor,
    os: Os,
    current: Option<u32>,
    processes: &[ProcessInfo],
    stale: Vec<u32>,
    r: bool,
)
    requires
        call_ensures(Supervisor::kill_stale_dsh, (sup, os, current, processes), stale),
        call_ensures(Supervisor::other_host_runs, (sup, os, current, processes), r),
    ensures
        r <==> exists|i: int| 0 <= i < stale@.len() && Some(#[trigger] stale@[i]) != sup.child,
{
}

/// A child that was told to end is waited for a while, and a sweep is repeated while it finds
/// anything, but not forever.
pub proof fn waiting_has_an_end(
    waited: u64,
    poll: ChildPoll,
    done: u32,
    found: bool,
    more: bool,
    again: bool,
    preferred: u16,
    taken: bool,
    spare: Option<u16>,
    port: u16,
)
    requires
        call_ensures(keep_waiting, (waited, poll), more),
        call_ensures(sweep_again, (done, found), again),
        call_ensures(Supervisor::pick_free_port, (preferred, taken, spare), port),
    ensures
        more <==> waited < 5000 && poll == ChildPoll::Running,
        again <==> found && done < 4,
        !taken ==> port == preferred,
        taken && spare is Some ==> port == spare->0,
        taken && spare is None ==> port == 0,
{
}

/// The runtime is found from the entry file alone, and what is shown of an output is its end, in no
/// more bytes than were asked for.
pub proof fn runtime_is_found_from_the_entry_file(
    os: Os,
    bin: &str,
    sup: &Supervisor,
    max: usize,
    runtime: Option<String>,
    shown: String,
)
    requires
        call_ensures(runtime_dir_from_bin, (os, bin), runtime),
        call_ensures(Supervisor::output_tail, (sup, max), shown),
    ensures
        text::opt(runtime) == runtime_of(os, bin@),
        sup.capture is None ==> shown@.len() == 0,
        sup.capture matches Some(c) ==> shown@.is_suffix_of(text::utf8_lossy(c.bytes()))
            && text::byte_len(shown@) <= max,
{
    if let Some(c) = sup.capture {
        shown_output_is_the_end(text::utf8_lossy(c.bytes()), max as nat);
    }
}

/// A supervisor tells the port and the trouble that it knows of, and keeps the directory for its log.
pub proof fn supervisor_tells_what_it_knows(
    sup: &Supervisor,
    other: &mut Supervisor,
    dir: String,
    port: u16,
    degraded: bool,
)
    requires
        call_ensures(Supervisor::port, (sup,), port),
        call_ensures(Supervisor::is_degraded, (sup,), degraded),
        call_ensures(Supervisor::set_log_dir, (other, dir), ()),
    ensures
        port == sup.port,
        degraded == sup.degraded,
        final(other).log_dir == Some(dir),
        final(other).child == old(other).child,
{
}

/// The runtime of the entry file that lies in a runtime is that runtime.
pub proof fn entry_file_leads_to_its_runtime(os: Os, runtime: Seq<char>)
    requires
        os != Os::Windows,
        runtime.len() > 0,
        runtime.last() != '/',
        runtime.last() != '.',
    ensures
        runtime_of(os, runtime + "/node_modules/@deepseek-ai/dsh/lib/bin.js"@) == Some(runtime),
{
    reveal_strlit("/node_modules/@deepseek-ai/dsh/lib/bin.js");
    reveal_strlit("node_modules");
    reveal_strlit("@deepseek-ai");
    reveal_strlit("dsh");
    reveal_strlit("lib");
    reveal_strlit("bin.js");
    let a = runtime + seq!['/'] + "node_modules"@;
    let b = a + seq!['/'] + "@deepseek-ai"@;
    let c = b + seq!['/'] + "dsh"@;
    let d = c + seq!['/'] + "lib"@;
    let e = d + seq!['/'] + "bin.js"@;
    assert(e =~= runtime + "/node_modules/@deepseek-ai/dsh/lib/bin.js"@);
    reveal_with_fuel(slash_free, 14);
    lemma_no_slash("node_modules"@);
    lemma_no_slash("@deepseek-ai"@);
    lemma_no_slash("dsh"@);
    lemma_no_slash("lib"@);
    lemma_no_slash("bin.js"@);
    paths::unix_path_has_its_parent_and_name(os, runtime, "node_modules"@);
    paths::unix_path_has_its_parent_and_name(os, a, "@deepseek-ai"@);
    paths::unix_path_has_its_parent_and_name(os, b, "dsh"@);
    paths::unix_path_has_its_parent_and_name(os, c, "lib"@);
    paths::unix_path_has_its_parent_and_name(os, d, "bin.js"@);
    reveal_with_fuel(runtime_above, 6);
    assert("dsh"@[0] != "lib"@[0]);
    assert("lib"@.len() != "node_modules"@.len() && "dsh"@.len() != "node_modules"@.len());
    assert("@deepseek-ai"@[0] != "node_modules"@[0]);
}

spec fn slash_free(s: Seq<char>, n: int) -> bool
    decreases n,
{
    n <= 0 || (s[n - 1] != '/' && slash_free(s, n - 1))
}

proof fn lemma_slash_free(s: Seq<char>, n: int)
    requires
        slash_free(s, n),
    ensures
        forall|i: int| 0 <= i < n ==> #[trigger] s[i] != '/',
    decreases n,
{
    if n > 0 {
        lemma_slash_free(s, n - 1);
    }
}

proof fn lemma_no_slash(s: Seq<char>)
    requires
        slash_free(s, s.len() as int),
    ensures
        !s.contains('/'),
{
    lemma_slash_free(s, s.len() as int);
}

} // verus!
