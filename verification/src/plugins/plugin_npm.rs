//! How npm is run, and what its failures are made into.
use crate::disk;
use crate::disk::{Disk, FileView};
use crate::paths;
use crate::paths::{Os, join_path, normalize_for_node, parent};
use crate::serviceout;
use crate::text;
use crate::text::{
    begins, cat, cat3, chars, cut, cut_both, join, same, split_lines, string_of, text_in,
};
use vstd::prelude::*;

verus! {

/// How long an installation from a registry may take, in milliseconds.
pub const NPM_TIMEOUT: u64 = 600_000;

/// How long an installation from a repository or a directory may take, in milliseconds.
pub const GIT_TIMEOUT: u64 = 1_800_000;

/// A path followed by `node_modules/npm/bin/npm-cli.js`.
pub open spec fn npm_under(os: Os, dir: Seq<char>) -> Seq<char> {
    paths::joined_path(
        os,
        paths::joined_path(os, paths::joined_path(os, paths::joined_path(os, dir, "node_modules"@), "npm"@), "bin"@),
        "npm-cli.js"@,
    )
}

/// Where npm may lie beside a node executable, in the order in which it is looked for.
pub open spec fn npm_candidates(os: Os, node: Seq<char>) -> Seq<Seq<char>> {
    match paths::parent_of(os, node) {
        None => Seq::empty(),
        Some(dir) => seq![
            npm_under(os, dir),
            npm_under(os, paths::joined_path(os, paths::joined_path(os, dir, ".."@), "lib"@)),
            npm_under(os, paths::joined_path(os, dir, "lib"@)),
        ],
    }
}

/// The first path that is there.
pub open spec fn first_present(files: Map<Seq<char>, FileView>, paths: Seq<Seq<char>>) -> Option<
    Seq<char>,
>
    decreases paths.len(),
{
    if paths.len() == 0 {
        None
    } else if disk::present(files, paths[0]) {
        Some(paths[0])
    } else {
        first_present(files, paths.subrange(1, paths.len() as int))
    }
}

fn npm_below(os: Os, dir: &str) -> (r: String)
    ensures
        r@ == npm_under(os, dir@),
{
    let modules = join_path(os, dir, "node_modules");
    let npm = join_path(os, modules.as_str(), "npm");
    let bin = join_path(os, npm.as_str(), "bin");
    join_path(os, bin.as_str(), "npm-cli.js")
}

/// Where npm may lie beside a node executable. These files have to be looked at before npm is
/// asked for.
pub fn npm_questions(os: Os, node: &str) -> (r: Vec<String>)
    ensures
        text::strs(r@) == npm_candidates(os, node@),
{
    let mut out: Vec<String> = Vec::new();
    if let Some(dir) = parent(os, node) {
        out.push(npm_below(os, dir.as_str()));
        let up = join_path(os, join_path(os, dir.as_str(), "..").as_str(), "lib");
        out.push(npm_below(os, up.as_str()));
        out.push(npm_below(os, join_path(os, dir.as_str(), "lib").as_str()));
    }
    assert(text::strs(out@) =~= npm_candidates(os, node@));
    out
}

/// The first of the paths that is there.
pub fn find_first(disk: &Disk, list: &[String]) -> (r: Option<String>)
    ensures
        text::opt(r) == first_present(disk@, text::strs(list@)),
{
    let ghost all = text::strs(list@);
    assert(all.subrange(0, all.len() as int) =~= all);
    for i in 0..list.len()
        invariant
            all == text::strs(list@),
            first_present(disk@, all) == first_present(
                disk@,
                all.subrange(i as int, all.len() as int),
            ),
    {
        let ghost rest = all.subrange(i as int, all.len() as int);
        assert(rest[0] == list@[i as int]@);
        assert(rest.subrange(1, rest.len() as int) =~= all.subrange(i + 1, all.len() as int));
        if disk.is_there(list[i].as_str()) {
            return Some(list[i].clone());
        }
    }
    None
}

/// The npm that comes with a node executable.
pub fn npm_cli_path(os: Os, disk: &Disk, node: &str) -> (r: Option<String>)
    ensures
        text::opt(r) == first_present(disk@, npm_candidates(os, node@)),
{
    let list = npm_questions(os, node);
    find_first(disk, list.as_slice())
}

/// The flag that chooses a registry, where one is chosen.
pub open spec fn registry_flags(source: Seq<char>) -> Seq<Seq<char>> {
    if source == "npmjs"@ {
        seq!["--registry"@, "https://registry.npmjs.org"@]
    } else if source == "npmmirror"@ {
        seq!["--registry"@, "https://registry.npmmirror.com"@]
    } else {
        Seq::empty()
    }
}

/// The flag that chooses a registry, where one is chosen.
pub fn registry_flag(source: &str) -> (r: Vec<String>)
    ensures
        text::strs(r@) == registry_flags(source@),
{
    let mut out: Vec<String> = Vec::new();
    if same(source, "npmjs") {
        out.push("--registry".to_owned());
        out.push("https://registry.npmjs.org".to_owned());
    } else if same(source, "npmmirror") {
        out.push("--registry".to_owned());
        out.push("https://registry.npmmirror.com".to_owned());
    }
    assert(text::strs(out@) =~= registry_flags(source@));
    out
}

/// The last `n` characters of a text.
pub fn tail(text: &str, n: usize) -> (r: String)
    ensures
        r@ == serviceout::last_of(text@, n as nat),
{
    let s = chars(text);
    if s.len() <= n {
        return text.to_owned();
    }
    string_of(cut(s.as_slice(), s.len() - n, s.len()))
}

/// Whether a line of npm's output reports an error.
pub open spec fn reports_error(line: Seq<char>) -> bool {
    "npm error"@.is_prefix_of(line) || "npm ERR!"@.is_prefix_of(line)
}

/// The lines that report errors, without white space around them.
pub open spec fn error_lines(ls: Seq<Seq<char>>) -> Seq<Seq<char>>
    decreases ls.len(),
{
    if ls.len() == 0 {
        Seq::empty()
    } else if reports_error(ls.last()) {
        error_lines(ls.drop_last()).push(text::trim(ls.last()))
    } else {
        error_lines(ls.drop_last())
    }
}

/// The first `n` of some texts.
pub open spec fn first_of(ls: Seq<Seq<char>>, n: int) -> Seq<Seq<char>> {
    if ls.len() <= n {
        ls
    } else {
        ls.subrange(0, n)
    }
}

/// What the user is told of a failure of npm: the first six errors that it reports, or the end
/// of what it printed.
pub open spec fn npm_failure(stderr: Seq<char>, stdout: Seq<char>) -> Seq<char> {
    let all = stderr + "\n"@ + stdout;
    let errors = error_lines(text::lines(all));
    "安装失败：\n"@ + (if errors.len() > 0 {
        text::joined(first_of(errors, 6), "\n"@)
    } else {
        serviceout::last_of(text::trim(all), 600)
    })
}

/// What the user is told of a failure of npm.
pub fn friendly_npm_error(stderr: &str, stdout: &str) -> (r: String)
    ensures
        r@ == npm_failure(stderr@, stdout@),
{
    let combined = cat3(stderr, "\n", stdout);
    let s = chars(combined.as_str());
    let ls = split_lines(s.as_slice());
    let ghost all = text::lines(combined@);
    let mut errors: Vec<String> = Vec::new();
    assert(text::strs(errors@) =~= error_lines(all.subrange(0, 0)));
    for i in 0..ls.len()
        invariant
            text::char_vecs(ls@) == all,
            text::strs(errors@) == error_lines(all.subrange(0, i as int)),
    {
        let ghost before = errors@;
        assert(all.subrange(0, i + 1).drop_last() =~= all.subrange(0, i as int));
        assert(all.subrange(0, i + 1).last() == ls@[i as int]@);
        let line = string_of(ls[i].as_slice());
        if begins(line.as_str(), "npm error") || begins(line.as_str(), "npm ERR!") {
            errors.push(string_of(cut_both(ls[i].as_slice())));
            assert(text::strs(errors@) =~= text::strs(before).push(text::trim(ls@[i as int]@)));
        }
    }
    assert(all.subrange(0, all.len() as int) =~= all);
    assert(text::strs(errors@).len() == errors@.len());
    if errors.len() > 0 {
        let ghost found = text::strs(errors@);
        if errors.len() > 6 {
            errors.truncate(6);
        }
        assert(text::strs(errors@) =~= first_of(found, 6));
        cat("安装失败：\n", join(errors.as_slice(), "\n").as_str())
    } else {
        let body = string_of(cut_both(s.as_slice()));
        cat("安装失败：\n", tail(body.as_str(), 600).as_str())
    }
}

/// How npm is to be started.
#[derive(Debug)]
pub struct NpmCommand {
    pub program: String,
    pub args: Vec<String>,
    pub cwd: String,
}

/// How npm is to be started in a directory with arguments, where it is there.
pub fn run_npm(os: Os, disk: &Disk, node: &str, cwd: &str, args: &[String]) -> (r: Result<
    NpmCommand,
    String,
>)
    ensures
        match first_present(disk@, npm_candidates(os, node@)) {
            None => r is Err && r->Err_0@ == "内置 npm 不完整，请重新安装本应用。"@,
            Some(npm) => {
                &&& r is Ok
                &&& r->Ok_0.program@ == paths::plain_path(os, node@)
                &&& text::strs(r->Ok_0.args@) == seq![paths::plain_path(os, npm)] + text::strs(args@)
                &&& r->Ok_0.cwd@ == paths::plain_path(os, cwd@)
            },
        },
{
    let npm = match npm_cli_path(os, disk, node) {
        Some(p) => p,
        None => {
            return Err("内置 npm 不完整，请重新安装本应用。".to_owned());
        },
    };
    let mut full: Vec<String> = Vec::new();
    full.push(normalize_for_node(os, npm.as_str()));
    let ghost head = text::strs(full@);
    assert(head =~= seq![paths::plain_path(os, npm@)]);
    for i in 0..args.len()
        invariant
            text::strs(full@) == head + text::strs(args@).subrange(0, i as int),
    {
        let ghost before = full@;
        full.push(args[i].clone());
        assert(text::strs(full@) =~= text::strs(before).push(args@[i as int]@));
        assert(text::strs(full@) =~= head + text::strs(args@).subrange(0, i + 1));
    }
    assert(text::strs(args@).subrange(0, args@.len() as int) =~= text::strs(args@));
    Ok(
        NpmCommand {
            program: normalize_for_node(os, node),
            args: full,
            cwd: normalize_for_node(os, cwd),
        },
    )
}

/// What a look at a running npm found.
#[derive(Debug)]
pub enum NpmPoll {
    /// It could not be started, for this reason.
    NotStarted(String),
    /// There is no way to read its output, for this reason.
    NoPipe(String),
    /// It has ended; this is all that it printed.
    Exited { success: bool, stdout: Vec<u8>, stderr: Vec<u8> },
    /// It goes on.
    Running,
    /// It could not be looked at, for this reason.
    Failed(String),
}

/// What is to be done about a running npm.
#[derive(Debug)]
pub enum NpmNext {
    /// Look again after this many milliseconds.
    Sleep(u64),
    /// End it, and then report this.
    Kill(String),
    /// It is over, with this result.
    Done(Result<(), String>),
}

/// What is to be done about npm, `elapsed` milliseconds after it was to be started. It may run for
/// `timeout`.
pub fn npm_step(poll: NpmPoll, elapsed: u64, timeout: u64) -> (r: NpmNext)
    ensures
        match poll {
            NpmPoll::NotStarted(reason) => r is Done && r->Done_0 is Err && r->Done_0->Err_0@
                == "无法启动 npm: "@ + reason@,
            NpmPoll::NoPipe(reason) => r is Done && r->Done_0 is Err && r->Done_0->Err_0@
                == "无法创建管道: "@ + reason@,
            NpmPoll::Exited { success, stdout, stderr } => {
                &&& r is Done
                &&& r->Done_0 is Ok <==> success
                &&& r->Done_0 matches Err(e) ==> e@ == npm_failure(
                    text::utf8_text(stderr@),
                    text::utf8_text(stdout@),
                )
            },
            NpmPoll::Failed(reason) => r is Done && r->Done_0 is Err && r->Done_0->Err_0@
                == "npm 进程异常: "@ + reason@,
            NpmPoll::Running => if elapsed >= timeout {
                r is Kill && r->Kill_0@ == "安装超时（已终止），请检查网络后重试。"@
            } else {
                r == NpmNext::Sleep(250)
            },
        },
{
    match poll {
        NpmPoll::NotStarted(reason) => NpmNext::Done(
            Err(cat("无法启动 npm: ", reason.as_str())),
        ),
        NpmPoll::NoPipe(reason) => NpmNext::Done(Err(cat("无法创建管道: ", reason.as_str()))),
        NpmPoll::Exited { success, stdout, stderr } => {
            if success {
                NpmNext::Done(Ok(()))
            } else {
                let err = text_in(stderr);
                let out = text_in(stdout);
                NpmNext::Done(Err(friendly_npm_error(err.as_str(), out.as_str())))
            }
        },
        NpmPoll::Failed(reason) => NpmNext::Done(Err(cat("npm 进程异常: ", reason.as_str()))),
        NpmPoll::Running => {
            if elapsed >= timeout {
                NpmNext::Kill("安装超时（已终止），请检查网络后重试。".to_owned())
            } else {
                NpmNext::Sleep(250)
            }
        },
    }
}

/// What the user is told of a failed installation are the lines in which npm reports an error, the
/// first six of them without white space around them, from both of its outputs; where it reports
/// none, it is the end of all that it printed.
pub proof fn npm_failure_tells_the_errors(stderr: &str, stdout: &str, r: String)
    requires
        call_ensures(friendly_npm_error, (stderr, stdout), r),
    ensures
        ({
            let all = stderr@ + "\n"@ + stdout@;
            let errors = text::lines(all).filter(
                |l: Seq<char>| "npm error"@.is_prefix_of(l) || "npm ERR!"@.is_prefix_of(l),
            ).map_values(|l: Seq<char>| text::trim(l));
            &&& 0 < errors.len() <= 6 ==> r@ == "安装失败：\n"@ + text::joined(errors, "\n"@)
            &&& errors.len() > 6 ==> r@ == "安装失败：\n"@ + text::joined(
                errors.subrange(0, 6),
                "\n"@,
            )
            &&& errors.len() == 0 && text::trim(all).len() <= 600 ==> r@ == "安装失败：\n"@
                + text::trim(all)
            &&& errors.len() == 0 && text::trim(all).len() > 600 ==> r@ == "安装失败：\n"@
                + text::trim(all).subrange(text::trim(all).len() - 600, text::trim(all).len() as int)
        }),
{
    lemma_error_lines(text::lines(stderr@ + "\n"@ + stdout@));
}

proof fn lemma_error_lines(ls: Seq<Seq<char>>)
    ensures
        error_lines(ls) == ls.filter(
            |l: Seq<char>| "npm error"@.is_prefix_of(l) || "npm ERR!"@.is_prefix_of(l),
        ).map_values(|l: Seq<char>| text::trim(l)),
    decreases ls.len(),
{
    let errs = |l: Seq<char>| "npm error"@.is_prefix_of(l) || "npm ERR!"@.is_prefix_of(l);
    let cut = |l: Seq<char>| text::trim(l);
    reveal(Seq::filter);
    if ls.len() > 0 {
        lemma_error_lines(ls.drop_last());
        let front = ls.drop_last().filter(errs);
        if errs(ls.last()) {
            assert(ls.filter(errs) == front.push(ls.last()));
            assert(front.push(ls.last()).map_values(cut) =~= front.map_values(cut).push(
                cut(ls.last()),
            ));
        } else {
            assert(ls.filter(errs) == front);
        }
    } else {
        assert(error_lines(ls) =~= ls.filter(errs).map_values(cut));
    }
}

/// npm is the first of its places beside the node executable that is there, and is run by that
/// executable, in the given directory, with the given arguments.
pub proof fn npm_is_run_by_its_node(
    os: Os,
    disk: &Disk,
    node: &str,
    cwd: &str,
    args: &[String],
    dir: Seq<char>,
    r: Result<NpmCommand, String>,
)
    requires
        call_ensures(run_npm, (os, disk, node, cwd, args), r),
        paths::parent_of(os, node@) == Some(dir),
    ensures
        ({
            let beside = npm_under(os, dir);
            let above = npm_under(
                os,
                paths::joined_path(os, paths::joined_path(os, dir, ".."@), "lib"@),
            );
            let below = npm_under(os, paths::joined_path(os, dir, "lib"@));
            let npm = if disk::present(disk@, beside) {
                Some(beside)
            } else if disk::present(disk@, above) {
                Some(above)
            } else if disk::present(disk@, below) {
                Some(below)
            } else {
                None
            };
            &&& npm is None ==> r is Err && r->Err_0@ == "内置 npm 不完整，请重新安装本应用。"@
            &&& npm matches Some(file) ==> {
                &&& r is Ok
                &&& r->Ok_0.program@ == paths::plain_path(os, node@)
                &&& r->Ok_0.cwd@ == paths::plain_path(os, cwd@)
                &&& r->Ok_0.args@.len() == args@.len() + 1
                &&& text::strs(r->Ok_0.args@)[0] == paths::plain_path(os, file)
                &&& forall|i: int|
                    0 <= i < args@.len() ==> text::strs(r->Ok_0.args@)[i + 1] == (
                    #[trigger] args@[i])@
            }
        }),
{
    let list = npm_candidates(os, node@);
    let l1 = list.subrange(1, 3);
    let l2 = l1.subrange(1, 2);
    assert(l1[0] == list[1] && l2[0] == list[2]);
    assert(l2.subrange(1, 1).len() == 0);
    reveal_with_fuel(first_present, 5);
    if r is Ok {
        assert(text::strs(r->Ok_0.args@).len() == r->Ok_0.args@.len());
        assert(text::strs(args@).len() == args@.len());
        assert forall|i: int| 0 <= i < args@.len() implies text::strs(r->Ok_0.args@)[i + 1] == (
        #[trigger] args@[i])@ by {
            assert(text::strs(args@)[i] == args@[i]@);
        }
    }
}

/// npm lies in its own package below a directory.
pub proof fn npm_lies_in_its_package(os: Os, dir: Seq<char>)
    ensures
        npm_under(os, dir) == paths::joined_path(
            os,
            paths::joined_path(
                os,
                paths::joined_path(os, paths::joined_path(os, dir, "node_modules"@), "npm"@),
                "bin"@,
            ),
            "npm-cli.js"@,
        ),
{
}

/// A registry that was chosen is told to npm, and none where the choice is left to it.
pub proof fn npm_is_told_the_registry(source: &str, r: Vec<String>)
    requires
        call_ensures(registry_flag, (source,), r),
    ensures
        source@ == "npmjs"@ ==> text::strs(r@) == seq![
            "--registry"@,
            "https://registry.npmjs.org"@,
        ],
        source@ == "npmmirror"@ ==> text::strs(r@) == seq![
            "--registry"@,
            "https://registry.npmmirror.com"@,
        ],
        source@ != "npmjs"@ && source@ != "npmmirror"@ ==> r@.len() == 0,
{
    reveal_strlit("npmjs");
    reveal_strlit("npmmirror");
    assert("npmjs"@.len() != "npmmirror"@.len());
    assert(text::strs(r@).len() == r@.len());
}

/// A run of npm that has ended is over, with success just where it went well; one that goes on is
/// looked at again until its time is over, and then ended.
pub proof fn npm_is_waited_for(poll: NpmPoll, elapsed: u64, timeout: u64, r: NpmNext)
    requires
        call_ensures(npm_step, (poll, elapsed, timeout), r),
    ensures
        poll is Running <==> !(r is Done),
        r is Kill <==> poll is Running && elapsed >= timeout,
        r matches NpmNext::Sleep(ms) ==> ms == 250,
        r matches NpmNext::Done(done) ==> (done is Ok <==> poll is Exited && poll->success),
{
}

/// The places of npm that are asked after are those among which it is sought.
pub proof fn npm_is_asked_after_where_it_is_sought(
    os: Os,
    disk: &Disk,
    node: &str,
    dir: Seq<char>,
    asked: Vec<String>,
    found: Option<String>,
)
    requires
        call_ensures(npm_questions, (os, node), asked),
        call_ensures(npm_cli_path, (os, disk, node), found),
        paths::parent_of(os, node@) == Some(dir),
    ensures
        text::strs(asked@) == seq![
            npm_under(os, dir),
            npm_under(os, paths::joined_path(os, paths::joined_path(os, dir, ".."@), "lib"@)),
            npm_under(os, paths::joined_path(os, dir, "lib"@)),
        ],
        found matches Some(p) ==> text::strs(asked@).contains(p@) && disk::present(disk@, p@),
        found is None ==> forall|i: int|
            0 <= i < asked@.len() ==> !disk::present(disk@, text::strs(asked@)[i]),
{
    lemma_first_present(disk@, text::strs(asked@));
    assert(text::strs(asked@).len() == asked@.len());
}

proof fn lemma_first_present(files: Map<Seq<char>, FileView>, places: Seq<Seq<char>>)
    ensures
        first_present(files, places) matches Some(p) ==> places.contains(p) && disk::present(
            files,
            p,
        ),
        first_present(files, places) is None ==> forall|i: int|
            0 <= i < places.len() ==> !disk::present(files, #[trigger] places[i]),
    decreases places.len(),
{
    if places.len() > 0 && !disk::present(files, places[0]) {
        let rest = places.subrange(1, places.len() as int);
        lemma_first_present(files, rest);
        if let Some(p) = first_present(files, places) {
            let k = choose|k: int| 0 <= k < rest.len() && rest[k] == p;
            assert(places[k + 1] == p);
        } else {
            assert forall|i: int| 0 <= i < places.len() implies !disk::present(
                files,
                #[trigger] places[i],
            ) by {
                if i > 0 {
                    assert(rest[i - 1] == places[i]);
                }
            }
        }
    } else if places.len() > 0 {
        assert(places[0] == first_present(files, places)->0);
    }
}

} // verus!
