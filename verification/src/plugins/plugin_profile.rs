//! The profile that plugins are installed into: its manifest, its layers and its patch file.
use crate::disk;
use crate::disk::{Disk, FileView};
use crate::json;
use crate::json::{
    Json, JsonView, collect_names, collect_texts, parse_json, place_of, print_compact, print_json,
    text_of,
};
use crate::paths;
use crate::paths::{Os, file_name, is_absolute, join_path, parent, with_extension};
use crate::text;
use crate::text::{
    begins, cat, cat3, chars, copy_list, cut, cut_both, cut_end, cut_start, cut_start_set, in_list,
    join, same, split_lines, string_of, strings_of,
};
use crate::yaml;
use crate::yaml::{Yaml, YamlView, yaml_from_str, yaml_of, yaml_pair, yaml_to_string};
use vstd::prelude::*;

verus! {

/// Where a path that begins with `~` leads.
pub open spec fn expanded(os: Os, path: Seq<char>, home: Option<Seq<char>>) -> Seq<char> {
    match home {
        Some(h) if path == "~"@ => h,
        Some(h) if path.len() >= 2 && path[0] == '~' && paths::slash(path[1]) => paths::joined_path(
            os,
            h,
            path.subrange(2, path.len() as int),
        ),
        _ => path,
    }
}

fn expand_tilde(os: Os, path: &str, home: Option<&str>) -> (r: String)
    ensures
        r@ == expanded(os, path@, text::opt_str(home)),
{
    let s = chars(path);
    proof {
        reveal_strlit("~");
        assert("~"@ =~= seq!['~']);
    }
    match home {
        Some(h) => {
            if same(path, "~") {
                h.to_owned()
            } else if s.len() >= 2 && s[0] == '~' && (s[1] == '\\' || s[1] == '/') {
                join_path(os, h, string_of(cut(s.as_slice(), 2, s.len())).as_str())
            } else {
                path.to_owned()
            }
        },
        None => path.to_owned(),
    }
}

/// A path, seen from the working directory where it is relative.
pub open spec fn made_absolute(os: Os, path: Seq<char>, cwd: Option<Seq<char>>) -> Seq<char> {
    match cwd {
        Some(c) if !paths::absolute(os, path) => paths::joined_path(os, c, path),
        _ => path,
    }
}

/// The directory that DSH keeps its data in: the one configured, unless that is blank, else
/// `.dsh` under the home directory.
pub open spec fn home_of(
    os: Os,
    configured: Option<Seq<char>>,
    home: Option<Seq<char>>,
    cwd: Option<Seq<char>>,
) -> Seq<char> {
    match configured {
        Some(p) if text::trim(p).len() > 0 => made_absolute(os, expanded(os, p, home), cwd),
        _ => match home {
            Some(h) => paths::joined_path(os, h, ".dsh"@),
            None => ".dsh"@,
        },
    }
}

/// The directory that DSH keeps its data in, where the home directory is known.
pub fn dsh_home_from(
    os: Os,
    configured: Option<&str>,
    home: Option<&str>,
    cwd: Option<&str>,
) -> (r: String)
    ensures
        r@ == home_of(os, text::opt_str(configured), text::opt_str(home), text::opt_str(cwd)),
{
    if let Some(p) = configured {
        let s = chars(p);
        if cut_both(s.as_slice()).len() > 0 {
            let path = expand_tilde(os, p, home);
            return match cwd {
                Some(c) => {
                    if is_absolute(os, path.as_str()) {
                        path
                    } else {
                        join_path(os, c, path.as_str())
                    }
                },
                None => path,
            };
        }
    }
    match home {
        Some(h) => join_path(os, h, ".dsh"),
        None => ".dsh".to_owned(),
    }
}

/// The home directory of the user, by `dirs::home_dir`. It depends on the environment, so
/// nothing is claimed of it.
#[verifier::external_body]
fn home_dir() -> (r: Option<String>) {
    dirs::home_dir().map(|p| p.to_string_lossy().into_owned())
}

/// The directory that DSH keeps its data in. `configured` is the value of `DSH_HOME`, and `cwd`
/// the working directory.
pub fn dsh_home(os: Os, configured: Option<&str>, cwd: Option<&str>) -> (r: String)
    ensures
        exists|home: Option<Seq<char>>|
            r@ == #[trigger] home_of(os, text::opt_str(configured), home, text::opt_str(cwd)),
{
    match home_dir() {
        Some(h) => {
            let r = dsh_home_from(os, configured, Some(h.as_str()), cwd);
            assert(r@ == home_of(os, text::opt_str(configured), Some(h@), text::opt_str(cwd)));
            r
        },
        None => {
            let r = dsh_home_from(os, configured, None, cwd);
            assert(r@ == home_of(os, text::opt_str(configured), None, text::opt_str(cwd)));
            r
        },
    }
}

/// The profile under the data directory.
pub open spec fn profile_of(os: Os, home: Seq<char>) -> Seq<char> {
    paths::joined_path(os, paths::joined_path(os, home, "profiles"@), "web"@)
}

/// The profile under the data directory.
pub fn profile_dir(os: Os, home: &str) -> (r: String)
    ensures
        r@ == profile_of(os, home@),
{
    join_path(os, join_path(os, home, "profiles").as_str(), "web")
}

/// The manifest of a package directory.
pub open spec fn manifest_path(os: Os, dir: Seq<char>) -> Seq<char> {
    paths::joined_path(os, dir, "package.json"@)
}

/// The bundles that every profile has.
pub open spec fn template_bundles() -> Seq<Seq<char>> {
    seq!["@deepseek-ai/dsh-base"@, "@deepseek-ai/dsh-web-app"@]
}

/// The manifest of a profile that was just made.
pub open spec fn first_manifest(basename: Seq<char>) -> JsonView {
    JsonView::Object(
        seq![
            ("dependencies"@, JsonView::Object(Seq::empty())),
            ("dsh"@, layers_value(template_items())),
            ("name"@, JsonView::Str("dsh-profile-"@ + basename)),
            ("private"@, JsonView::Bool(true)),
        ],
    )
}

/// The bundles that every profile has, as values.
pub open spec fn template_items() -> Seq<JsonView> {
    text_values(template_bundles())
}

/// Texts as JSON values.
pub open spec fn text_values(texts: Seq<Seq<char>>) -> Seq<JsonView> {
    Seq::new(texts.len(), |i: int| JsonView::Str(texts[i]))
}

/// The `dsh` entry of a manifest that says nothing but which bundles the profile has.
pub open spec fn layers_value(items: Seq<JsonView>) -> JsonView {
    JsonView::Object(seq![("profile"@, bundles_value(items))])
}

/// The `profile` entry of a manifest that says nothing but which bundles the profile has.
pub open spec fn bundles_value(items: Seq<JsonView>) -> JsonView {
    JsonView::Object(seq![("bundles"@, JsonView::Array(items))])
}

/// A file to be written. Where that fails the message is `failure` and the reason.
#[derive(Debug)]
pub struct FileWrite {
    pub path: String,
    pub text: String,
    pub failure: String,
}

/// A file to be written, with texts as characters.
#[verifier::ext_equal]
pub struct WriteView {
    pub path: Seq<char>,
    pub text: Seq<char>,
    pub failure: Seq<char>,
}

impl View for FileWrite {
    type V = WriteView;

    open spec fn view(&self) -> WriteView {
        WriteView { path: self.path@, text: self.text@, failure: self.failure@ }
    }
}

/// Files to be written, with texts as characters.
pub open spec fn writes(v: Seq<FileWrite>) -> Seq<WriteView> {
    Seq::new(v.len(), |i: int| v[i]@)
}

/// The text of a manifest file.
pub open spec fn manifest_file(m: JsonView) -> Result<Seq<char>, Seq<char>> {
    match json::json_pretty(m) {
        Ok(t) => Ok(t + "\n"@),
        Err(e) => Err(e),
    }
}

/// The comments that a new patch file begins with.
pub open spec fn patch_comments() -> Seq<Seq<char>> {
    seq![
        "# Your patch layer for this dsh profile, applied after every bundle layer:"@,
        "# a top-level YAML array of loader patch entries (id-targeted config"@,
        "# overrides, disables, and insert lists; `!!js` expressions allowed)."@,
    ]
}

/// What a new patch file says: nothing yet but its comments.
pub open spec fn patch_template() -> Seq<char> {
    yaml::under_comments(patch_comments())
}

spec fn printable(s: Seq<char>, n: int) -> bool
    decreases n,
{
    n <= 0 || (' ' <= s[n - 1] <= '~' && printable(s, n - 1))
}

proof fn lemma_printable(s: Seq<char>, n: int)
    requires
        printable(s, n),
    ensures
        forall|i: int| 0 <= i < n ==> ' ' <= #[trigger] s[i] <= '~',
    decreases n,
{
    if n > 0 {
        lemma_printable(s, n - 1);
    }
}

proof fn lemma_patch_comments()
    ensures
        forall|i: int|
            0 <= i < patch_comments().len() ==> yaml::is_comment(#[trigger] patch_comments()[i]),
        patch_template() == "# Your patch layer for this dsh profile, applied after every bundle layer:"@ + "\n"@
            + ("# a top-level YAML array of loader patch entries (id-targeted config"@ + "\n"@
            + ("# overrides, disables, and insert lists; `!!js` expressions allowed)."@ + "\n"@ + "[]\n"@)),
{
    reveal_with_fuel(printable, 80);
    assert(yaml::is_comment("# Your patch layer for this dsh profile, applied after every bundle layer:"@)) by {
        reveal_strlit("# Your patch layer for this dsh profile, applied after every bundle layer:");
        lemma_printable("# Your patch layer for this dsh profile, applied after every bundle layer:"@, "# Your patch layer for this dsh profile, applied after every bundle layer:"@.len() as int);
    }
    assert(yaml::is_comment("# a top-level YAML array of loader patch entries (id-targeted config"@)) by {
        reveal_strlit("# a top-level YAML array of loader patch entries (id-targeted config");
        lemma_printable("# a top-level YAML array of loader patch entries (id-targeted config"@, "# a top-level YAML array of loader patch entries (id-targeted config"@.len() as int);
    }
    assert(yaml::is_comment("# overrides, disables, and insert lists; `!!js` expressions allowed)."@)) by {
        reveal_strlit("# overrides, disables, and insert lists; `!!js` expressions allowed).");
        lemma_printable("# overrides, disables, and insert lists; `!!js` expressions allowed)."@, "# overrides, disables, and insert lists; `!!js` expressions allowed)."@.len() as int);
    }
    let c = patch_comments();
    reveal_with_fuel(yaml::under_comments, 4);
    assert(c.subrange(1, 3)[0] == c[1]);
    assert(c.subrange(1, 3).subrange(1, 2)[0] == c[2]);
}

fn new_patch() -> (r: String)
    ensures
        r@ == patch_template(),
        patch_entries(r@) == Some(Seq::<YamlView>::empty()),
{
    let list = cat3(
        "# overrides, disables, and insert lists; `!!js` expressions allowed).",
        "\n",
        "[]\n",
    );
    let lower = cat3(
        "# a top-level YAML array of loader patch entries (id-targeted config",
        "\n",
        list.as_str(),
    );
    let text = cat3(
        "# Your patch layer for this dsh profile, applied after every bundle layer:",
        "\n",
        lower.as_str(),
    );
    proof {
        lemma_patch_comments();
        assert(patch_comments()[0][0] == '#');
        assert(text@[0] == '#');
        assert(!order_mark().contains('#'));
    }
    let read = yaml_from_str(text.as_str());
    assert(read is Some);
    text
}

/// What a new workspace file says.
pub open spec fn workspace_template() -> Seq<char> {
    "packages:\n  - .\n\nnodeLinker: hoisted\nautoInstallPeers: false\n"@
}

/// The name of the directory, by which the manifest of a new profile goes.
pub open spec fn profile_name(os: Os, dir: Seq<char>) -> Seq<char> {
    match paths::name_of(os, dir) {
        Some(name) => name,
        None => "web"@,
    }
}

/// The files that a profile directory lacks, in the order in which they are written.
pub open spec fn missing_files(os: Os, files: Map<Seq<char>, FileView>, dir: Seq<char>) -> Result<
    Seq<WriteView>,
    Seq<char>,
> {
    let patch = paths::joined_path(os, dir, "cordis.patch.yml"@);
    let workspace = paths::joined_path(os, dir, "pnpm-workspace.yaml"@);
    let rest = (if disk::present(files, patch) {
        Seq::empty()
    } else {
        seq![
            WriteView { path: patch, text: patch_template(), failure: "创建补丁文件失败: "@ },
        ]
    }) + (if disk::present(files, workspace) {
        Seq::empty()
    } else {
        seq![
            WriteView {
                path: workspace,
                text: workspace_template(),
                failure: "创建 pnpm-workspace 失败: "@,
            },
        ]
    });
    if disk::present(files, manifest_path(os, dir)) {
        Ok(rest)
    } else {
        match manifest_file(first_manifest(profile_name(os, dir))) {
            Err(e) => Err(e),
            Ok(t) => Ok(
                seq![
                    WriteView {
                        path: manifest_path(os, dir),
                        text: t,
                        failure: "写入 profile 配置失败: "@,
                    },
                ] + rest,
            ),
        }
    }
}

/// The first manifest of a profile is in order, and is read back as it is.
pub proof fn lemma_first_manifest(basename: Seq<char>)
    ensures
        json::ordered(first_manifest(basename)),
        json::exact(first_manifest(basename), json::DEPTH_LIMIT as nat),
{
    reveal_strlit("dependencies");
    reveal_strlit("dsh");
    reveal_strlit("name");
    reveal_strlit("private");
    reveal_with_fuel(json::comes_before, 3);
    reveal_with_fuel(json::ordered, 5);
    reveal_with_fuel(json::exact, 6);
}

fn text_array(texts: Vec<String>) -> (r: Json)
    ensures
        r@ == JsonView::Array(text_values(text::strs(texts@))),
{
    let ghost all = text_values(text::strs(texts@));
    let mut out: Vec<Json> = Vec::new();
    for i in 0..texts.len()
        invariant
            all == text_values(text::strs(texts@)),
            json::items_view(out@) == all.subrange(0, i as int),
    {
        let ghost before = out@;
        out.push(Json::Str(texts[i].clone()));
        assert(out@.drop_last() =~= before);
        assert(out@.last()@ == JsonView::Str(texts@[i as int]@));
        assert(all[i as int] == JsonView::Str(text::strs(texts@)[i as int]));
        assert(json::items_view(out@) =~= json::items_view(before).push(all[i as int]));
        assert(json::items_view(out@) =~= all.subrange(0, i + 1));
    }
    assert(all.subrange(0, all.len() as int) =~= all);
    Json::Array(out)
}

fn single(name: &str, value: Json) -> (r: Json)
    ensures
        r@ == JsonView::Object(seq![(name@, value@)]),
{
    let mut members: Vec<(String, Json)> = Vec::new();
    members.push((name.to_owned(), value));
    proof {
        json::lemma_members_view(members@);
        assert(json::members_view(members@) =~= seq![(name@, value@)]);
    }
    Json::Object(members)
}

fn new_manifest(basename: &str) -> (r: Json)
    ensures
        r@ == first_manifest(basename@),
{
    let mut bundles: Vec<String> = Vec::new();
    bundles.push("@deepseek-ai/dsh-base".to_owned());
    bundles.push("@deepseek-ai/dsh-web-app".to_owned());
    assert(text::strs(bundles@) =~= template_bundles());
    let dsh = single("profile", single("bundles", text_array(bundles)));
    let mut members: Vec<(String, Json)> = Vec::new();
    let none: Vec<(String, Json)> = Vec::new();
    assert(json::members_view(none@) =~= Seq::empty());
    members.push(("dependencies".to_owned(), Json::Object(none)));
    members.push(("dsh".to_owned(), dsh));
    members.push(("name".to_owned(), Json::Str(cat("dsh-profile-", basename))));
    members.push(("private".to_owned(), Json::Bool(true)));
    proof {
        json::lemma_members_view(members@);
        assert(json::members_view(members@) =~= first_manifest(basename@)->Object_0);
    }
    Json::Object(members)
}

/// The text of a manifest file.
pub fn write_manifest(manifest: &Json) -> (r: Result<String, String>)
    requires
        json::ordered(manifest@),
    ensures
        match r {
            Ok(t) => manifest_file(manifest@) == Ok::<Seq<char>, Seq<char>>(t@) && (json::exact(
                manifest@,
                json::DEPTH_LIMIT as nat,
            ) ==> json::json_parsed(t@) == Ok::<JsonView, Seq<char>>(manifest@)),
            Err(e) => manifest_file(manifest@) == Err::<Seq<char>, Seq<char>>(e@),
        },
{
    match print_json(manifest) {
        Ok(t) => {
            proof {
                reveal_strlit("\n");
                assert("\n"@ =~= seq!['\n']);
            }
            Ok(cat(t.as_str(), "\n"))
        },
        Err(e) => Err(e),
    }
}

/// The files that a profile directory, which is there, still lacks. The files that are there
/// are left alone.
pub fn ensure_profile(os: Os, disk: &Disk, dir: &str) -> (r: Result<Vec<FileWrite>, String>)
    ensures
        match r {
            Ok(w) => {
                &&& missing_files(os, disk@, dir@) == Ok::<Seq<WriteView>, Seq<char>>(writes(w@))
                &&& !disk::present(disk@, manifest_path(os, dir@)) ==> json::json_parsed(
                    writes(w@)[0].text,
                ) == Ok::<JsonView, Seq<char>>(first_manifest(profile_name(os, dir@)))
                &&& !disk::present(disk@, paths::joined_path(os, dir@, "cordis.patch.yml"@)) ==> {
                    let k: int = if disk::present(disk@, manifest_path(os, dir@)) {
                        0
                    } else {
                        1
                    };
                    &&& writes(w@)[k].path == paths::joined_path(os, dir@, "cordis.patch.yml"@)
                    &&& patch_entries(writes(w@)[k].text) == Some(Seq::<YamlView>::empty())
                }
            },
            Err(e) => missing_files(os, disk@, dir@) == Err::<Seq<WriteView>, Seq<char>>(e@),
        },
{
    let mut out: Vec<FileWrite> = Vec::new();
    let manifest = join_path(os, dir, "package.json");
    if !disk.is_there(manifest.as_str()) {
        let basename = match file_name(os, dir) {
            Some(n) => n,
            None => "web".to_owned(),
        };
        let first = new_manifest(basename.as_str());
        proof {
            lemma_first_manifest(basename@);
        }
        match write_manifest(&first) {
            Ok(text) => {
                out.push(
                    FileWrite {
                        path: manifest,
                        text,
                        failure: "写入 profile 配置失败: ".to_owned(),
                    },
                );
            },
            Err(e) => {
                return Err(e);
            },
        }
    }
    let patch = join_path(os, dir, "cordis.patch.yml");
    if !disk.is_there(patch.as_str()) {
        out.push(
            FileWrite {
                path: patch,
                text: new_patch(),
                failure: "创建补丁文件失败: ".to_owned(),
            },
        );
    }
    let workspace = join_path(os, dir, "pnpm-workspace.yaml");
    if !disk.is_there(workspace.as_str()) {
        out.push(
            FileWrite {
                path: workspace,
                text:
                    "packages:\n  - .\n\nnodeLinker: hoisted\nautoInstallPeers: false\n".to_owned(),
                failure: "创建 pnpm-workspace 失败: ".to_owned(),
            },
        );
    }
    proof {
        match missing_files(os, disk@, dir@) {
            Ok(all) => {
                assert(writes(out@) =~= all);
            },
            Err(_) => {},
        }
    }
    Ok(out)
}

/// Only files that are not there are written, and once they are, nothing more is to be written.
pub proof fn ensuring_twice_writes_nothing(
    os: Os,
    before: Map<Seq<char>, FileView>,
    after: Map<Seq<char>, FileView>,
    dir: Seq<char>,
)
    requires
        missing_files(os, before, dir) is Ok,
        forall|p: Seq<char>| #[trigger] disk::present(before, p) ==> disk::present(after, p),
        forall|i: int|
            0 <= i < missing_files(os, before, dir)->Ok_0.len() ==> disk::present(
                after,
                (#[trigger] missing_files(os, before, dir)->Ok_0[i]).path,
            ),
    ensures
        forall|i: int|
            0 <= i < missing_files(os, before, dir)->Ok_0.len() ==> !disk::present(
                before,
                (#[trigger] missing_files(os, before, dir)->Ok_0[i]).path,
            ),
        missing_files(os, after, dir) == Ok::<Seq<WriteView>, Seq<char>>(Seq::empty()),
{
    let due = missing_files(os, before, dir)->Ok_0;
    let manifest = manifest_path(os, dir);
    let patch = paths::joined_path(os, dir, "cordis.patch.yml"@);
    let workspace = paths::joined_path(os, dir, "pnpm-workspace.yaml"@);
    if !disk::present(before, manifest) {
        assert(due[0].path == manifest);
    }
    if !disk::present(before, patch) {
        assert(due[if disk::present(before, manifest) { 0 } else { 1int }].path == patch);
    }
    if !disk::present(before, workspace) {
        assert(due[due.len() - 1].path == workspace);
    }
    assert(disk::present(after, manifest));
    assert(disk::present(after, patch));
    assert(disk::present(after, workspace));
    assert(missing_files(os, after, dir)->Ok_0 =~= Seq::<WriteView>::empty());
}

/// The manifest of a package directory: a JSON object.
pub open spec fn manifest_at(os: Os, files: Map<Seq<char>, FileView>, dir: Seq<char>) -> Result<
    JsonView,
    Seq<char>,
> {
    let path = manifest_path(os, dir);
    match disk::contents(files, path) {
        Err(e) => Err("读取 profile 配置失败（"@ + path + "）: "@ + e),
        Ok(text) => match json::json_parsed(text) {
            Err(e) => Err("profile 配置不是有效 JSON（"@ + path + "）: "@ + e),
            Ok(m) => if m is Object {
                Ok(m)
            } else {
                Err("profile 配置必须是 JSON 对象（"@ + path + "）"@)
            },
        },
    }
}

/// Reads the manifest of a package directory.
pub fn read_manifest(os: Os, disk: &Disk, dir: &str) -> (r: Result<Json, String>)
    ensures
        match r {
            Ok(j) => manifest_at(os, disk@, dir@) == Ok::<JsonView, Seq<char>>(j@) && json::ordered(j@)
                && j@ is Object,
            Err(e) => manifest_at(os, disk@, dir@) == Err::<JsonView, Seq<char>>(e@),
        },
{
    let path = join_path(os, dir, "package.json");
    match disk.read(path.as_str()) {
        Err(e) => Err(
            cat(
                cat3("读取 profile 配置失败（", path.as_str(), "）: ").as_str(),
                e.as_str(),
            ),
        ),
        Ok(text) => match parse_json(text.as_str()) {
            Err(e) => Err(
                cat(
                    cat3("profile 配置不是有效 JSON（", path.as_str(), "）: ").as_str(),
                    e.as_str(),
                ),
            ),
            Ok(m) => if m.is_object() {
                Ok(m)
            } else {
                Err(cat3("profile 配置必须是 JSON 对象（", path.as_str(), "）"))
            },
        },
    }
}

/// A manifest is found in the profile whose manifest file holds a text that is read as it.
pub proof fn written_manifest_is_read(
    os: Os,
    files: Map<Seq<char>, FileView>,
    dir: Seq<char>,
    manifest: JsonView,
    text: Seq<char>,
)
    requires
        manifest is Object,
        disk::file_at(files, manifest_path(os, dir)) == FileView::Text(text),
        json::json_parsed(text) == Ok::<JsonView, Seq<char>>(manifest),
    ensures
        manifest_at(os, files, dir) == Ok::<JsonView, Seq<char>>(manifest),
{
}

/// The packages that a manifest depends on, in the order of their names.
pub open spec fn dependencies(m: JsonView) -> Seq<Seq<char>> {
    json::names_of(json::member(m, "dependencies"@))
}

/// The packages that a manifest depends on.
pub fn dep_keys(manifest: &Json) -> (r: Vec<String>)
    ensures
        text::strs(r@) == dependencies(manifest@),
{
    collect_names(manifest.get("dependencies"))
}

/// The value that a file of JSON text holds.
pub open spec fn json_at(files: Map<Seq<char>, FileView>, path: Seq<char>) -> Option<JsonView> {
    match disk::readable(files, path) {
        Some(text) => match json::json_parsed(text) {
            Ok(v) => Some(v),
            Err(_) => None,
        },
        None => None,
    }
}

fn json_in(disk: &Disk, path: &str) -> (r: Option<Json>)
    ensures
        match r {
            Some(j) => json_at(disk@, path@) == Some(j@) && json::ordered(j@),
            None => json_at(disk@, path@) is None,
        },
{
    match disk.read(path) {
        Ok(text) => match parse_json(text.as_str()) {
            Ok(j) => Some(j),
            Err(_) => None,
        },
        Err(_) => None,
    }
}

/// The version in the manifest of a package directory.
pub open spec fn version_at(os: Os, files: Map<Seq<char>, FileView>, dir: Seq<char>) -> Option<
    Seq<char>,
> {
    match json_at(files, manifest_path(os, dir)) {
        Some(m) => json::as_text(json::member(m, "version"@)),
        None => None,
    }
}

/// The version in the manifest of a package directory.
pub fn read_version(os: Os, disk: &Disk, dir: &str) -> (r: Option<String>)
    ensures
        text::opt(r) == version_at(os, disk@, dir@),
{
    match json_in(disk, join_path(os, dir, "package.json").as_str()) {
        Some(m) => text_of(m.get("version")),
        None => None,
    }
}

/// Where a package would lie for code in a directory.
pub open spec fn package_in(os: Os, dir: Seq<char>, name: Seq<char>) -> Seq<char> {
    paths::joined_path(os, paths::joined_path(os, dir, "node_modules"@), name)
}

/// The package that code in a directory gets: the nearest one, going up.
pub open spec fn package_above(
    os: Os,
    files: Map<Seq<char>, FileView>,
    dir: Seq<char>,
    name: Seq<char>,
) -> Option<Seq<char>>
    decreases dir.len(),
{
    if disk::present(files, manifest_path(os, package_in(os, dir, name))) {
        Some(package_in(os, dir, name))
    } else {
        match paths::parent_of(os, dir) {
            None => None,
            Some(up) => {
                proof {
                    paths::parent_is_shorter(os, dir);
                }
                if up.len() < dir.len() {
                    package_above(os, files, up, name)
                } else {
                    None
                }
            },
        }
    }
}

/// The manifests that decide which package code in a directory gets.
pub open spec fn manifests_above(os: Os, dir: Seq<char>, name: Seq<char>) -> Seq<Seq<char>>
    decreases dir.len(),
{
    let here = manifest_path(os, package_in(os, dir, name));
    match paths::parent_of(os, dir) {
        None => seq![here],
        Some(up) => {
            proof {
                paths::parent_is_shorter(os, dir);
            }
            if up.len() < dir.len() {
                seq![here] + manifests_above(os, up, name)
            } else {
                seq![here]
            }
        },
    }
}

/// The package that code in a file gets.
pub open spec fn package_from(
    os: Os,
    files: Map<Seq<char>, FileView>,
    anchor: Seq<char>,
    name: Seq<char>,
) -> Option<Seq<char>> {
    match paths::parent_of(os, anchor) {
        None => None,
        Some(dir) => package_above(os, files, dir, name),
    }
}

fn climb(os: Os, disk: &Disk, dir: &str, name: &str) -> (r: Option<String>)
    ensures
        text::opt(r) == package_above(os, disk@, dir@, name@),
    decreases dir@.len(),
{
    let candidate = join_path(os, join_path(os, dir, "node_modules").as_str(), name);
    if disk.is_there(join_path(os, candidate.as_str(), "package.json").as_str()) {
        return Some(candidate);
    }
    match parent(os, dir) {
        None => None,
        Some(up) => climb(os, disk, up.as_str(), name),
    }
}

fn climb_paths(os: Os, dir: &str, name: &str) -> (r: Vec<String>)
    ensures
        text::strs(r@) == manifests_above(os, dir@, name@),
    decreases dir@.len(),
{
    let candidate = join_path(os, join_path(os, dir, "node_modules").as_str(), name);
    let here = join_path(os, candidate.as_str(), "package.json");
    let mut out: Vec<String> = Vec::new();
    out.push(here);
    assert(text::strs(out@) =~= seq![here@]);
    if let Some(up) = parent(os, dir) {
        let mut more = climb_paths(os, up.as_str(), name);
        let ghost tail = text::strs(more@);
        let ghost head = out@;
        out.append(&mut more);
        assert(text::strs(out@) =~= seq![here@] + tail);
    }
    out
}

/// The package that code in a file gets: the nearest `node_modules` that holds it, going up.
pub fn package_dir_from_anchor(os: Os, disk: &Disk, anchor_file: &str, package_name: &str) -> (r:
    Option<String>)
    ensures
        text::opt(r) == package_from(os, disk@, anchor_file@, package_name@),
{
    match parent(os, anchor_file) {
        None => None,
        Some(dir) => climb(os, disk, dir.as_str(), package_name),
    }
}

/// Where packages are looked for: in the installed runtime first, then in the profile.
pub struct Site<'a> {
    pub os: Os,
    pub disk: &'a Disk,
    pub runtime: &'a str,
    pub profile: &'a str,
}

/// Where packages are looked for, with texts as characters.
pub struct SiteView {
    pub os: Os,
    pub files: Map<Seq<char>, FileView>,
    pub runtime: Seq<char>,
    pub profile: Seq<char>,
}

impl<'a> View for Site<'a> {
    type V = SiteView;

    open spec fn view(&self) -> SiteView {
        SiteView {
            os: self.os,
            files: self.disk@,
            runtime: self.runtime@,
            profile: self.profile@,
        }
    }
}

/// The manifest of the installed DSH, from which its packages are looked for.
pub open spec fn install_anchor(os: Os, runtime: Seq<char>) -> Seq<char> {
    paths::joined_path(
        os,
        paths::joined_path(
            os,
            paths::joined_path(os, paths::joined_path(os, runtime, "node_modules"@), "@deepseek-ai"@),
            "dsh"@,
        ),
        "package.json"@,
    )
}

fn anchor_of(os: Os, runtime: &str) -> (r: String)
    ensures
        r@ == install_anchor(os, runtime@),
{
    let modules = join_path(os, runtime, "node_modules");
    let scope = join_path(os, modules.as_str(), "@deepseek-ai");
    let dsh = join_path(os, scope.as_str(), "dsh");
    join_path(os, dsh.as_str(), "package.json")
}

/// The directory of a package.
pub open spec fn bundle_dir(site: SiteView, name: Seq<char>) -> Option<Seq<char>> {
    match package_from(site.os, site.files, install_anchor(site.os, site.runtime), name) {
        Some(dir) => Some(dir),
        None => package_from(site.os, site.files, manifest_path(site.os, site.profile), name),
    }
}

/// The directory of a package: as the runtime finds it, else as the profile does.
pub fn resolve_bundle_dir(site: &Site, package_name: &str) -> (r: Option<String>)
    ensures
        text::opt(r) == bundle_dir(site@, package_name@),
{
    let first = anchor_of(site.os, site.runtime);
    if let Some(dir) = package_dir_from_anchor(site.os, site.disk, first.as_str(), package_name) {
        return Some(dir);
    }
    let second = join_path(site.os, site.profile, "package.json");
    package_dir_from_anchor(site.os, site.disk, second.as_str(), package_name)
}

/// The manifests above a file that decide which package code in it gets.
pub open spec fn manifests_from(os: Os, anchor: Seq<char>, name: Seq<char>) -> Seq<Seq<char>> {
    match paths::parent_of(os, anchor) {
        None => Seq::empty(),
        Some(dir) => manifests_above(os, dir, name),
    }
}

/// The manifests that decide where a package lies.
pub open spec fn deciding_manifests(
    os: Os,
    runtime: Seq<char>,
    profile: Seq<char>,
    name: Seq<char>,
) -> Seq<Seq<char>> {
    manifests_from(os, install_anchor(os, runtime), name) + manifests_from(
        os,
        manifest_path(os, profile),
        name,
    )
}

/// The manifests that have to be looked at before a package is asked for.
pub fn bundle_questions(os: Os, runtime: &str, profile: &str, package_name: &str) -> (r: Vec<
    String,
>)
    ensures
        text::strs(r@) == deciding_manifests(os, runtime@, profile@, package_name@),
{
    let mut out: Vec<String> = match parent(os, anchor_of(os, runtime).as_str()) {
        Some(dir) => climb_paths(os, dir.as_str(), package_name),
        None => Vec::new(),
    };
    let ghost first = text::strs(out@);
    assert(first =~= manifests_from(os, install_anchor(os, runtime@), package_name@));
    let mut more: Vec<String> = match parent(
        os,
        join_path(os, profile, "package.json").as_str(),
    ) {
        Some(dir) => climb_paths(os, dir.as_str(), package_name),
        None => Vec::new(),
    };
    let ghost second = text::strs(more@);
    assert(second =~= manifests_from(os, manifest_path(os, profile@), package_name@));
    out.append(&mut more);
    assert(text::strs(out@) =~= first + second);
    out
}

/// Whether two findings tell the same of each path in a list.
pub open spec fn agree(
    a: Map<Seq<char>, FileView>,
    b: Map<Seq<char>, FileView>,
    paths: Seq<Seq<char>>,
) -> bool {
    forall|i: int|
        0 <= i < paths.len() ==> disk::file_at(a, #[trigger] paths[i]) == disk::file_at(b, paths[i])
}

proof fn lemma_package_above(
    os: Os,
    a: Map<Seq<char>, FileView>,
    b: Map<Seq<char>, FileView>,
    dir: Seq<char>,
    name: Seq<char>,
)
    requires
        agree(a, b, manifests_above(os, dir, name)),
    ensures
        package_above(os, a, dir, name) == package_above(os, b, dir, name),
        package_above(os, a, dir, name) matches Some(d) ==> manifests_above(
            os,
            dir,
            name,
        ).contains(manifest_path(os, d)),
    decreases dir.len(),
{
    let all = manifests_above(os, dir, name);
    assert(all[0] == manifest_path(os, package_in(os, dir, name)));
    paths::parent_is_shorter(os, dir);
    if let Some(up) = paths::parent_of(os, dir) {
        let rest = manifests_above(os, up, name);
        assert(all =~= seq![all[0]] + rest);
        assert forall|i: int| 0 <= i < rest.len() implies disk::file_at(a, #[trigger] rest[i])
            == disk::file_at(b, rest[i]) by {
            assert(all[i + 1] == rest[i]);
        }
        lemma_package_above(os, a, b, up, name);
        if let Some(d) = package_above(os, a, up, name) {
            let k = choose|k: int| 0 <= k < rest.len() && rest[k] == manifest_path(os, d);
            assert(all[k + 1] == manifest_path(os, d));
        }
    }
}

proof fn lemma_package_from(
    os: Os,
    a: Map<Seq<char>, FileView>,
    b: Map<Seq<char>, FileView>,
    anchor: Seq<char>,
    name: Seq<char>,
)
    requires
        agree(a, b, manifests_from(os, anchor, name)),
    ensures
        package_from(os, a, anchor, name) == package_from(os, b, anchor, name),
        package_from(os, a, anchor, name) matches Some(d) ==> manifests_from(
            os,
            anchor,
            name,
        ).contains(manifest_path(os, d)),
{
    if let Some(dir) = paths::parent_of(os, anchor) {
        lemma_package_above(os, a, b, dir, name);
    }
}

/// Where a package lies, and whether it is a layer, is decided by the manifests that
/// [`bundle_questions`] lists, and by nothing else.
pub proof fn package_depends_on_questions(
    os: Os,
    a: Map<Seq<char>, FileView>,
    b: Map<Seq<char>, FileView>,
    runtime: Seq<char>,
    profile: Seq<char>,
    name: Seq<char>,
)
    requires
        agree(a, b, deciding_manifests(os, runtime, profile, name)),
    ensures
        bundle_dir(SiteView { os, files: a, runtime, profile }, name) == bundle_dir(
            SiteView { os, files: b, runtime, profile },
            name,
        ),
        bundle_dir(SiteView { os, files: a, runtime, profile }, name) matches Some(d)
            ==> deciding_manifests(os, runtime, profile, name).contains(manifest_path(os, d)),
        is_layer(SiteView { os, files: a, runtime, profile }, name) == is_layer(
            SiteView { os, files: b, runtime, profile },
            name,
        ),
{
    let all = deciding_manifests(os, runtime, profile, name);
    let one = manifests_from(os, install_anchor(os, runtime), name);
    let two = manifests_from(os, manifest_path(os, profile), name);
    assert forall|i: int| 0 <= i < one.len() implies disk::file_at(a, #[trigger] one[i])
        == disk::file_at(b, one[i]) by {
        assert(all[i] == one[i]);
    }
    assert forall|i: int| 0 <= i < two.len() implies disk::file_at(a, #[trigger] two[i])
        == disk::file_at(b, two[i]) by {
        assert(all[one.len() + i] == two[i]);
    }
    lemma_package_from(os, a, b, install_anchor(os, runtime), name);
    lemma_package_from(os, a, b, manifest_path(os, profile), name);
    if let Some(d) = bundle_dir(SiteView { os, files: a, runtime, profile }, name) {
        let path = manifest_path(os, d);
        if one.contains(path) {
            let k = choose|k: int| 0 <= k < one.len() && one[k] == path;
            assert(all[k] == path);
        } else {
            let k = choose|k: int| 0 <= k < two.len() && two[k] == path;
            assert(all[one.len() + k] == path);
        }
        let k = choose|k: int| 0 <= k < all.len() && all[k] == path;
        assert(disk::file_at(a, all[k]) == disk::file_at(b, all[k]));
    }
}

/// The patch file that a package's manifest names, relative to the package.
pub open spec fn declared_patch(m: JsonView) -> Option<Seq<char>> {
    json::as_text(json::at_path(m, seq!["dsh"@, "bundle"@, "patch"@]))
}

/// Whether a package is a layer of the profile: its manifest names a patch file.
pub open spec fn is_layer(site: SiteView, name: Seq<char>) -> bool {
    match bundle_dir(site, name) {
        Some(dir) => match json_at(site.files, manifest_path(site.os, dir)) {
            Some(m) => declared_patch(m) matches Some(p) && p.len() > 0,
            None => false,
        },
        None => false,
    }
}

fn patch_named(manifest: &Json) -> (r: Option<String>)
    ensures
        text::opt(r) == declared_patch(manifest@),
{
    let names: Vec<&str> = vec!["dsh", "bundle", "patch"];
    assert(json::slices(names@) =~= seq!["dsh"@, "bundle"@, "patch"@]);
    text_of(manifest.pointer(names.as_slice()))
}

/// Whether a package is a layer of the profile.
pub fn exports_patch(site: &Site, package_name: &str) -> (r: bool)
    ensures
        r == is_layer(site@, package_name@),
{
    match resolve_bundle_dir(site, package_name) {
        Some(dir) => match json_in(
            site.disk,
            join_path(site.os, dir.as_str(), "package.json").as_str(),
        ) {
            Some(m) => match patch_named(&m) {
                Some(p) => chars(p.as_str()).len() > 0,
                None => false,
            },
            None => false,
        },
        None => false,
    }
}

/// The path in a manifest under which the bundles of the profile stand.
pub open spec fn bundles_path() -> Seq<Seq<char>> {
    seq!["dsh"@, "profile"@, "bundles"@]
}

/// The bundles that a manifest names, in order.
pub open spec fn bundles_in(m: JsonView) -> Seq<Seq<char>> {
    json::texts_of(json::at_path(m, bundles_path()))
}

/// The bundles that a manifest names, in order.
pub fn bundles_of(manifest: &Json) -> (r: Vec<String>)
    ensures
        text::strs(r@) == bundles_in(manifest@),
{
    let names: Vec<&str> = vec!["dsh", "profile", "bundles"];
    assert(json::slices(names@) =~= bundles_path());
    collect_texts(manifest.pointer(names.as_slice()))
}

/// The `dsh` entry with other bundles in it.
pub open spec fn dsh_with(d: Seq<(Seq<char>, JsonView)>, items: Seq<JsonView>) -> JsonView {
    match json::lookup(d, "profile"@) {
        Some(JsonView::Object(p)) => JsonView::Object(
            json::put(d, "profile"@, JsonView::Object(json::put(p, "bundles"@, JsonView::Array(items)))),
        ),
        _ => JsonView::Object(json::put(d, "profile"@, bundles_value(items))),
    }
}

/// A manifest with other bundles in it, and all else as it was.
pub open spec fn with_bundles(m: Seq<(Seq<char>, JsonView)>, items: Seq<JsonView>) -> JsonView {
    match json::lookup(m, "dsh"@) {
        Some(JsonView::Object(d)) => JsonView::Object(json::put(m, "dsh"@, dsh_with(d, items))),
        _ => JsonView::Object(json::put(m, "dsh"@, layers_value(items))),
    }
}

proof fn lemma_plain_items(items: Seq<JsonView>)
    requires
        forall|i: int| 0 <= i < items.len() ==> #[trigger] items[i] is Str,
    ensures
        json::ordered(JsonView::Array(items)),
        json::ordered(bundles_value(items)),
        json::ordered(layers_value(items)),
        json::lookup(bundles_value(items)->Object_0, "bundles"@) == Some(JsonView::Array(items)),
        json::lookup(layers_value(items)->Object_0, "profile"@) == Some(bundles_value(items)),
{
    let inner = bundles_value(items)->Object_0;
    let outer = layers_value(items)->Object_0;
    assert(inner[0] == ("bundles"@, JsonView::Array(items)));
    assert(outer[0] == ("profile"@, bundles_value(items)));
    assert forall|i: int| 0 <= i < items.len() implies json::ordered(#[trigger] items[i]) by {
        assert(items[i] is Str);
    }
    assert(json::ordered(JsonView::Array(items)));
    assert(json::ordered(JsonView::Object(inner)));
    assert(json::ordered(JsonView::Object(outer)));
}

proof fn lemma_lookup_ordered(members: Seq<(Seq<char>, JsonView)>, name: Seq<char>)
    requires
        json::ordered(JsonView::Object(members)),
    ensures
        json::lookup(members, name) matches Some(x) ==> json::ordered(x),
{
    json::lemma_member_ordered(JsonView::Object(members), name);
}

proof fn lemma_three_steps(m: JsonView)
    ensures
        json::at_path(m, bundles_path()) == match json::member(m, "dsh"@) {
            Some(d) => match json::member(d, "profile"@) {
                Some(p) => json::member(p, "bundles"@),
                None => None,
            },
            None => None,
        },
{
    reveal_with_fuel(json::at_path, 4);
    let all = bundles_path();
    assert(all.subrange(1, 3) =~= seq!["profile"@, "bundles"@]);
    assert(all.subrange(1, 3).subrange(1, 2) =~= seq!["bundles"@]);
    assert(all.subrange(1, 3).subrange(1, 2).subrange(1, 1) =~= Seq::<Seq<char>>::empty());
}

/// Putting bundles into a manifest keeps it in order and every other entry in place, and the
/// bundles are then what the manifest names.
pub proof fn lemma_with_bundles(m: Seq<(Seq<char>, JsonView)>, items: Seq<JsonView>)
    requires
        json::ordered(JsonView::Object(m)),
        forall|i: int| 0 <= i < items.len() ==> #[trigger] items[i] is Str,
    ensures
        json::ordered(with_bundles(m, items)),
        with_bundles(m, items) is Object,
        json::at_path(with_bundles(m, items), bundles_path()) == Some(JsonView::Array(items)),
        forall|other: Seq<char>|
            other != "dsh"@ ==> #[trigger] json::member(with_bundles(m, items), other) == json::lookup(
                m,
                other,
            ),
{
    lemma_plain_items(items);
    lemma_lookup_ordered(m, "dsh"@);
    let after = with_bundles(m, items);
    match json::lookup(m, "dsh"@) {
        Some(JsonView::Object(d)) => {
            lemma_lookup_ordered(d, "profile"@);
            match json::lookup(d, "profile"@) {
                Some(JsonView::Object(p)) => {
                    json::lemma_put(p, "bundles"@, JsonView::Array(items));
                    let inner = JsonView::Object(json::put(p, "bundles"@, JsonView::Array(items)));
                    json::lemma_put(d, "profile"@, inner);
                },
                _ => {
                    json::lemma_put(d, "profile"@, bundles_value(items));
                },
            }
            json::lemma_put(m, "dsh"@, dsh_with(d, items));
        },
        _ => {
            json::lemma_put(m, "dsh"@, layers_value(items));
        },
    }
    lemma_three_steps(after);
}

fn set_member(members: Vec<(String, Json)>, k: usize, name: &str, value: Json) -> (r: Vec<
    (String, Json),
>)
    requires
        k <= members@.len(),
    ensures
        json::members_view(r@) == json::members_view(members@).insert(k as int, (name@, value@)),
{
    let mut out = members;
    out.insert(k, (name.to_owned(), value));
    proof {
        json::lemma_members_view(members@);
        json::lemma_members_view(out@);
        assert(json::members_view(out@) =~= json::members_view(members@).insert(k as int, (name@, value@)));
    }
    out
}

fn dsh_entry(d: Vec<(String, Json)>, items: Json, Ghost(texts): Ghost<Seq<JsonView>>) -> (r: Json)
    requires
        json::ordered(JsonView::Object(json::members_view(d@))),
        items@ == JsonView::Array(texts),
    ensures
        r@ == dsh_with(json::members_view(d@), texts),
{
    let ghost all = json::members_view(d@);
    let mut rest = d;
    let (k, there) = place_of(rest.as_slice(), "profile");
    proof {
        json::lemma_members_view(d@);
        lemma_lookup_ordered(all, "profile"@);
    }
    let inner = if there {
        let (_, old_value) = rest.remove(k);
        proof {
            json::lemma_members_view(rest@);
            assert(json::members_view(rest@) =~= all.remove(k as int));
        }
        match old_value {
            Json::Object(p) => {
                let ghost pv = json::members_view(p@);
                let mut left = p;
                let (j, has) = place_of(left.as_slice(), "bundles");
                proof {
                    json::lemma_members_view(p@);
                }
                if has {
                    left.remove(j);
                    proof {
                        json::lemma_members_view(left@);
                        assert(json::members_view(left@) =~= pv.remove(j as int));
                    }
                }
                let put_in = set_member(left, j, "bundles", items);
                assert(json::members_view(put_in@) =~= json::put(pv, "bundles"@, JsonView::Array(texts)));
                Json::Object(put_in)
            },
            _ => single("bundles", items),
        }
    } else {
        single("bundles", items)
    };
    let ghost inner_view = inner@;
    let out = set_member(rest, k, "profile", inner);
    assert(json::members_view(out@) =~= json::put(all, "profile"@, inner_view));
    Json::Object(out)
}

fn put_bundles(manifest: Json, bundles: Vec<String>) -> (r: Json)
    requires
        json::ordered(manifest@),
        manifest@ is Object,
    ensures
        r@ == with_bundles(manifest@->Object_0, text_values(text::strs(bundles@))),
        json::ordered(r@),
{
    let ghost texts = text_values(text::strs(bundles@));
    let items = text_array(bundles);
    match manifest {
        Json::Object(m) => {
            let ghost all = json::members_view(m@);
            let mut rest = m;
            let (k, there) = place_of(rest.as_slice(), "dsh");
            proof {
                json::lemma_members_view(m@);
                lemma_lookup_ordered(all, "dsh"@);
                lemma_with_bundles(all, texts);
            }
            let dsh = if there {
                let (_, old_value) = rest.remove(k);
                proof {
                    json::lemma_members_view(rest@);
                    assert(json::members_view(rest@) =~= all.remove(k as int));
                }
                match old_value {
                    Json::Object(d) => dsh_entry(d, items, Ghost(texts)),
                    _ => single("profile", single("bundles", items)),
                }
            } else {
                single("profile", single("bundles", items))
            };
            let ghost dsh_view = dsh@;
            let out = set_member(rest, k, "dsh", dsh);
            assert(json::members_view(out@) =~= json::put(all, "dsh"@, dsh_view));
            Json::Object(out)
        },
        other => other,
    }
}

/// The bundles with each dependency added that is a layer and not among them.
pub open spec fn added_layers(
    site: SiteView,
    bundles: Seq<Seq<char>>,
    deps: Seq<Seq<char>>,
) -> Seq<Seq<char>>
    decreases deps.len(),
{
    if deps.len() == 0 {
        bundles
    } else {
        let before = added_layers(site, bundles, deps.drop_last());
        let name = deps.last();
        if is_layer(site, name) && !before.contains(name) {
            before.push(name)
        } else {
            before
        }
    }
}

/// Whether a bundle stays: a dependency does while it is a layer, and what is no dependency
/// does unless it was one before.
pub open spec fn stays(
    site: SiteView,
    before: Seq<Seq<char>>,
    deps: Seq<Seq<char>>,
    name: Seq<char>,
) -> bool {
    if deps.contains(name) {
        is_layer(site, name)
    } else {
        !before.contains(name)
    }
}

/// The bundles that stay, in order.
pub open spec fn kept_layers(
    site: SiteView,
    before: Seq<Seq<char>>,
    deps: Seq<Seq<char>>,
    bundles: Seq<Seq<char>>,
) -> Seq<Seq<char>>
    decreases bundles.len(),
{
    if bundles.len() == 0 {
        Seq::empty()
    } else {
        let front = kept_layers(site, before, deps, bundles.drop_last());
        if stays(site, before, deps, bundles.last()) {
            front.push(bundles.last())
        } else {
            front
        }
    }
}

/// The bundles that a profile should name, where it names `bundles`, depends on `deps`, and
/// depended on `before`.
pub open spec fn due_layers(
    site: SiteView,
    before: Seq<Seq<char>>,
    deps: Seq<Seq<char>>,
    bundles: Seq<Seq<char>>,
) -> Seq<Seq<char>> {
    kept_layers(site, before, deps, added_layers(site, bundles, deps))
}

/// The manifest that a profile should have, where that is another one than it has.
pub open spec fn reconciled(site: SiteView, before: Seq<Seq<char>>, m: JsonView) -> Option<
    JsonView,
> {
    let due = due_layers(site, before, dependencies(m), bundles_in(m));
    if due == bundles_in(m) {
        None
    } else {
        Some(with_bundles(m->Object_0, text_values(due)))
    }
}

proof fn lemma_added(site: SiteView, bundles: Seq<Seq<char>>, deps: Seq<Seq<char>>)
    ensures
        forall|n: Seq<char>| #[trigger]
            added_layers(site, bundles, deps).contains(n) <==> bundles.contains(n) || (
            deps.contains(n) && is_layer(site, n)),
    decreases deps.len(),
{
    let all = added_layers(site, bundles, deps);
    if deps.len() > 0 {
        let front = deps.drop_last();
        let before = added_layers(site, bundles, front);
        lemma_added(site, bundles, front);
        assert forall|n: Seq<char>| #[trigger] all.contains(n) <==> bundles.contains(n) || (
        deps.contains(n) && is_layer(site, n)) by {
            if front.contains(n) {
                let k = choose|k: int| 0 <= k < front.len() && front[k] == n;
                assert(deps[k] == n);
            }
            if deps.contains(n) && !front.contains(n) {
                let k = choose|k: int| 0 <= k < deps.len() && deps[k] == n;
                assert(k == deps.len() - 1) by {
                    if k < front.len() {
                        assert(front[k] == n);
                    }
                }
            }
            assert(deps.contains(deps.last())) by {
                assert(deps[deps.len() - 1] == deps.last());
            }
            if is_layer(site, deps.last()) && !before.contains(deps.last()) {
                assert(all =~= before.push(deps.last()));
                if before.contains(n) {
                    let k = choose|k: int| 0 <= k < before.len() && before[k] == n;
                    assert(all[k] == n);
                }
                if n == deps.last() {
                    assert(all[before.len() as int] == n);
                }
                if all.contains(n) {
                    let k = choose|k: int| 0 <= k < all.len() && all[k] == n;
                    if k < before.len() {
                        assert(before[k] == n);
                    }
                }
            }
        }
    }
}

proof fn lemma_kept(
    site: SiteView,
    before: Seq<Seq<char>>,
    deps: Seq<Seq<char>>,
    bundles: Seq<Seq<char>>,
)
    ensures
        forall|n: Seq<char>| #[trigger]
            kept_layers(site, before, deps, bundles).contains(n) <==> bundles.contains(n) && stays(
                site,
                before,
                deps,
                n,
            ),
    decreases bundles.len(),
{
    let all = kept_layers(site, before, deps, bundles);
    if bundles.len() > 0 {
        let front = bundles.drop_last();
        let kept = kept_layers(site, before, deps, front);
        lemma_kept(site, before, deps, front);
        assert forall|n: Seq<char>| #[trigger] all.contains(n) <==> bundles.contains(n) && stays(
            site,
            before,
            deps,
            n,
        ) by {
            if front.contains(n) {
                let k = choose|k: int| 0 <= k < front.len() && front[k] == n;
                assert(bundles[k] == n);
            }
            if bundles.contains(n) && !front.contains(n) {
                let k = choose|k: int| 0 <= k < bundles.len() && bundles[k] == n;
                assert(k == bundles.len() - 1) by {
                    if k < front.len() {
                        assert(front[k] == n);
                    }
                }
            }
            assert(bundles.contains(bundles.last())) by {
                assert(bundles[bundles.len() - 1] == bundles.last());
            }
            if stays(site, before, deps, bundles.last()) {
                if kept.contains(n) {
                    let k = choose|k: int| 0 <= k < kept.len() && kept[k] == n;
                    assert(all[k] == n);
                }
                if n == bundles.last() {
                    assert(all[kept.len() as int] == n);
                }
                if all.contains(n) {
                    let k = choose|k: int| 0 <= k < all.len() && all[k] == n;
                    if k < kept.len() {
                        assert(kept[k] == n);
                    }
                }
            }
        }
    } else {
        assert(forall|n: Seq<char>| !all.contains(n));
    }
}

proof fn lemma_all_kept(
    site: SiteView,
    before: Seq<Seq<char>>,
    deps: Seq<Seq<char>>,
    bundles: Seq<Seq<char>>,
)
    requires
        forall|n: Seq<char>| #[trigger] bundles.contains(n) ==> stays(site, before, deps, n),
    ensures
        kept_layers(site, before, deps, bundles) == bundles,
    decreases bundles.len(),
{
    if bundles.len() > 0 {
        let front = bundles.drop_last();
        assert forall|n: Seq<char>| #[trigger] front.contains(n) implies stays(
            site,
            before,
            deps,
            n,
        ) by {
            let k = choose|k: int| 0 <= k < front.len() && front[k] == n;
            assert(bundles[k] == n);
            assert(bundles.contains(n));
        }
        lemma_all_kept(site, before, deps, front);
        assert(bundles[bundles.len() - 1] == bundles.last());
        assert(bundles.contains(bundles.last()));
        assert(front.push(bundles.last()) =~= bundles);
    }
}

proof fn lemma_none_added(site: SiteView, bundles: Seq<Seq<char>>, deps: Seq<Seq<char>>)
    requires
        forall|n: Seq<char>| #[trigger]
            deps.contains(n) && is_layer(site, n) ==> bundles.contains(n),
    ensures
        added_layers(site, bundles, deps) == bundles,
    decreases deps.len(),
{
    if deps.len() > 0 {
        let front = deps.drop_last();
        assert forall|n: Seq<char>| #[trigger] front.contains(n) && is_layer(
            site,
            n,
        ) implies bundles.contains(n) by {
            let k = choose|k: int| 0 <= k < front.len() && front[k] == n;
            assert(deps[k] == n);
            assert(deps.contains(n));
        }
        lemma_none_added(site, bundles, front);
        assert(deps[deps.len() - 1] == deps.last());
        assert(deps.contains(deps.last()));
    }
}

proof fn lemma_texts(texts: Seq<Seq<char>>)
    ensures
        json::texts_in(text_values(texts)) == texts,
    decreases texts.len(),
{
    if texts.len() > 0 {
        let values = text_values(texts);
        assert(values.drop_last() =~= text_values(texts.drop_last()));
        lemma_texts(texts.drop_last());
        assert(texts.drop_last().push(texts.last()) =~= texts);
    }
}

/// What the bundles of a reconciled profile are: of the dependencies, those that are layers;
/// of all else, what was there and never was a dependency.
pub proof fn reconciled_bundles(
    site: SiteView,
    before: Seq<Seq<char>>,
    deps: Seq<Seq<char>>,
    bundles: Seq<Seq<char>>,
    name: Seq<char>,
)
    ensures
        due_layers(site, before, deps, bundles).contains(name) == (if deps.contains(name) {
            is_layer(site, name)
        } else {
            bundles.contains(name) && !before.contains(name)
        }),
{
    lemma_added(site, bundles, deps);
    lemma_kept(site, before, deps, added_layers(site, bundles, deps));
    assert(added_layers(site, bundles, deps).contains(name) <==> bundles.contains(name) || (
    deps.contains(name) && is_layer(site, name)));
}

/// To reconcile a profile changes no entry of its manifest but `dsh`, and what it names then
/// are the bundles that it should name.
pub proof fn reconciling_changes_bundles_only(
    site: SiteView,
    before: Seq<Seq<char>>,
    m: JsonView,
)
    requires
        json::ordered(m),
        m is Object,
    ensures
        reconciled(site, before, m) matches Some(after) ==> {
            &&& after is Object
            &&& json::ordered(after)
            &&& bundles_in(after) == due_layers(site, before, dependencies(m), bundles_in(m))
            &&& dependencies(after) == dependencies(m)
            &&& forall|other: Seq<char>|
                other != "dsh"@ ==> #[trigger] json::member(after, other) == json::member(m, other)
        },
{
    let due = due_layers(site, before, dependencies(m), bundles_in(m));
    lemma_with_bundles(m->Object_0, text_values(due));
    lemma_texts(due);
    reveal_strlit("dsh");
    reveal_strlit("dependencies");
    assert("dependencies"@.len() != "dsh"@.len());
}

/// A profile that was reconciled needs no second time.
pub proof fn reconciling_twice_changes_nothing(
    site: SiteView,
    before: Seq<Seq<char>>,
    m: JsonView,
)
    requires
        json::ordered(m),
        m is Object,
    ensures
        reconciled(site, before, m) matches Some(after) ==> reconciled(site, before, after) is None,
{
    if let Some(after) = reconciled(site, before, m) {
        reconciling_changes_bundles_only(site, before, m);
        let deps = dependencies(m);
        let had = bundles_in(m);
        let due = due_layers(site, before, deps, had);
        assert forall|n: Seq<char>| #[trigger] deps.contains(n) && is_layer(
            site,
            n,
        ) implies due.contains(n) by {
            reconciled_bundles(site, before, deps, had, n);
        }
        lemma_none_added(site, due, deps);
        assert forall|n: Seq<char>| #[trigger] due.contains(n) implies stays(
            site,
            before,
            deps,
            n,
        ) by {
            reconciled_bundles(site, before, deps, had, n);
        }
        lemma_all_kept(site, before, deps, due);
    }
}

proof fn lemma_same_added(
    site: SiteView,
    then: SiteView,
    bundles: Seq<Seq<char>>,
    deps: Seq<Seq<char>>,
)
    requires
        forall|n: Seq<char>| #[trigger]
            deps.contains(n) ==> is_layer(then, n) == is_layer(site, n),
    ensures
        added_layers(then, bundles, deps) == added_layers(site, bundles, deps),
    decreases deps.len(),
{
    if deps.len() > 0 {
        let front = deps.drop_last();
        assert forall|n: Seq<char>| #[trigger] front.contains(n) implies is_layer(then, n)
            == is_layer(site, n) by {
            let k = choose|k: int| 0 <= k < front.len() && front[k] == n;
            assert(deps[k] == n);
            assert(deps.contains(n));
        }
        lemma_same_added(site, then, bundles, front);
        assert(deps.contains(deps.last()));
    }
}

proof fn lemma_same_kept(
    site: SiteView,
    then: SiteView,
    before: Seq<Seq<char>>,
    deps: Seq<Seq<char>>,
    bundles: Seq<Seq<char>>,
)
    requires
        forall|n: Seq<char>| #[trigger]
            deps.contains(n) ==> is_layer(then, n) == is_layer(site, n),
    ensures
        kept_layers(then, before, deps, bundles) == kept_layers(site, before, deps, bundles),
    decreases bundles.len(),
{
    if bundles.len() > 0 {
        lemma_same_kept(site, then, before, deps, bundles.drop_last());
    }
}

/// Once the text that reconciles a profile is in its manifest file, and is read as the manifest that
/// was written, there is nothing more to be written, as long as the same dependencies are layers.
pub proof fn reconciling_again_writes_nothing(
    site: SiteView,
    then: SiteView,
    before: Seq<Seq<char>>,
    m: JsonView,
    text: Seq<char>,
)
    requires
        json::ordered(m),
        m is Object,
        reconciled(site, before, m) is Some,
        disk::file_at(then.files, manifest_path(then.os, then.profile)) == FileView::Text(text),
        json::json_parsed(text) == Ok::<JsonView, Seq<char>>(reconciled(site, before, m)->0),
        forall|n: Seq<char>| #[trigger]
            dependencies(m).contains(n) ==> is_layer(then, n) == is_layer(site, n),
    ensures
        manifest_at(then.os, then.files, then.profile) == Ok::<JsonView, Seq<char>>(
            reconciled(site, before, m)->0,
        ),
        reconciled(then, before, reconciled(site, before, m)->0) is None,
{
    let after = reconciled(site, before, m)->0;
    reconciling_changes_bundles_only(site, before, m);
    reconciling_twice_changes_nothing(site, before, m);
    written_manifest_is_read(then.os, then.files, then.profile, after, text);
    let deps = dependencies(m);
    lemma_same_added(site, then, bundles_in(after), deps);
    lemma_same_kept(site, then, before, deps, added_layers(site, bundles_in(after), deps));
}

fn same_lists(a: &[String], b: &[String]) -> (r: bool)
    ensures
        r == (text::strs(a@) == text::strs(b@)),
{
    if a.len() != b.len() {
        assert(text::strs(a@).len() != text::strs(b@).len());
        return false;
    }
    for i in 0..a.len()
        invariant
            a@.len() == b@.len(),
            forall|k: int| 0 <= k < i ==> text::strs(a@)[k] == text::strs(b@)[k],
    {
        if !same(a[i].as_str(), b[i].as_str()) {
            assert(text::strs(a@)[i as int] != text::strs(b@)[i as int]);
            return false;
        }
    }
    assert(text::strs(a@) =~= text::strs(b@));
    true
}

fn add_layers(site: &Site, bundles: &[String], deps: &[String]) -> (r: Vec<String>)
    ensures
        text::strs(r@) == added_layers(site@, text::strs(bundles@), text::strs(deps@)),
{
    let ghost all = text::strs(deps@);
    let mut out = copy_list(bundles);
    for i in 0..deps.len()
        invariant
            all == text::strs(deps@),
            text::strs(out@) == added_layers(site@, text::strs(bundles@), all.subrange(0, i as int)),
    {
        let ghost before = out@;
        assert(all.subrange(0, i + 1).drop_last() =~= all.subrange(0, i as int));
        assert(all.subrange(0, i + 1).last() == deps@[i as int]@);
        if exports_patch(site, deps[i].as_str()) && !in_list(out.as_slice(), deps[i].as_str()) {
            out.push(deps[i].clone());
            assert(text::strs(out@) =~= text::strs(before).push(deps@[i as int]@));
        }
    }
    assert(all.subrange(0, all.len() as int) =~= all);
    out
}

fn keep_layers(site: &Site, before: &[String], deps: &[String], bundles: &[String]) -> (r: Vec<
    String,
>)
    ensures
        text::strs(r@) == kept_layers(site@, text::strs(before@), text::strs(deps@), text::strs(bundles@)),
{
    let ghost all = text::strs(bundles@);
    let mut out: Vec<String> = Vec::new();
    assert(text::strs(out@) =~= kept_layers(
        site@,
        text::strs(before@),
        text::strs(deps@),
        all.subrange(0, 0),
    ));
    for i in 0..bundles.len()
        invariant
            all == text::strs(bundles@),
            text::strs(out@) == kept_layers(
                site@,
                text::strs(before@),
                text::strs(deps@),
                all.subrange(0, i as int),
            ),
    {
        let ghost prev = out@;
        assert(all.subrange(0, i + 1).drop_last() =~= all.subrange(0, i as int));
        assert(all.subrange(0, i + 1).last() == bundles@[i as int]@);
        let name = bundles[i].as_str();
        let stay = if in_list(deps, name) {
            exports_patch(site, name)
        } else {
            !in_list(before, name)
        };
        if stay {
            out.push(bundles[i].clone());
            assert(text::strs(out@) =~= text::strs(prev).push(bundles@[i as int]@));
        }
    }
    assert(all.subrange(0, all.len() as int) =~= all);
    out
}

/// Brings the bundles of a profile in line with what it depends on. `before_deps` is what it
/// depended on before. The result is the text that the manifest file should hold, where that is
/// another one than it holds.
pub fn reconcile(site: &Site, before_deps: &[String]) -> (r: Result<Option<String>, String>)
    ensures
        match manifest_at(site@.os, site@.files, site@.profile) {
            Err(e) => r is Err && r->Err_0@ == e,
            Ok(m) => match reconciled(site@, text::strs(before_deps@), m) {
                None => r is Ok && r->Ok_0 is None,
                Some(after) => match manifest_file(after) {
                    Ok(t) => {
                        &&& r is Ok
                        &&& text::opt(r->Ok_0) == Some(t)
                        &&& json::exact(after, json::DEPTH_LIMIT as nat) ==> json::json_parsed(t) == Ok::<
                            JsonView,
                            Seq<char>,
                        >(after)
                    },
                    Err(e) => r is Err && r->Err_0@ == e,
                },
            },
        },
{
    let manifest = match read_manifest(site.os, site.disk, site.profile) {
        Ok(m) => m,
        Err(e) => {
            return Err(e);
        },
    };
    let deps = dep_keys(&manifest);
    let bundles = bundles_of(&manifest);
    let added = add_layers(site, bundles.as_slice(), deps.as_slice());
    let kept = keep_layers(site, before_deps, deps.as_slice(), added.as_slice());
    if same_lists(kept.as_slice(), bundles.as_slice()) {
        return Ok(None);
    }
    let after = put_bundles(manifest, kept);
    match write_manifest(&after) {
        Ok(text) => Ok(Some(text)),
        Err(e) => Err(e),
    }
}

/// What a patch entry says of a row.
#[derive(Debug)]
pub struct RowPatch {
    pub id: String,
    pub name: Option<String>,
    pub disabled: Option<bool>,
}

/// What a patch entry says of a row, with texts as characters.
#[verifier::ext_equal]
pub struct RowView {
    pub id: Seq<char>,
    pub name: Option<Seq<char>>,
    pub disabled: Option<bool>,
}

impl View for RowPatch {
    type V = RowView;

    open spec fn view(&self) -> RowView {
        RowView { id: self.id@, name: text::opt(self.name), disabled: self.disabled }
    }
}

/// Rows with texts as characters.
pub open spec fn row_views(v: Seq<RowPatch>) -> Seq<RowView> {
    Seq::new(v.len(), |i: int| v[i]@)
}

/// The text under a key of an entry.
pub open spec fn text_under(v: YamlView, key: Seq<char>) -> Option<Seq<char>> {
    match yaml::yaml_under(v, key) {
        Some(x) => yaml::yaml_str(x),
        None => None,
    }
}

/// The row that an entry speaks of: one with an id.
pub open spec fn row_of(v: YamlView) -> Option<RowView> {
    match text_under(v, "id"@) {
        None => None,
        Some(id) => Some(
            RowView {
                id,
                name: text_under(v, "name"@),
                disabled: match yaml::yaml_under(v, "disabled"@) {
                    Some(x) => yaml::yaml_bool(x),
                    None => None,
                },
            },
        ),
    }
}

/// The rows that entries speak of, in order.
pub open spec fn rows_in(entries: Seq<YamlView>) -> Seq<RowView>
    decreases entries.len(),
{
    if entries.len() == 0 {
        Seq::empty()
    } else {
        match row_of(entries.last()) {
            Some(row) => rows_in(entries.drop_last()).push(row),
            None => rows_in(entries.drop_last()),
        }
    }
}

/// The entries that an entry inserts.
pub open spec fn inserted_by(v: YamlView) -> Seq<YamlView> {
    match yaml::yaml_under(v, "insert"@) {
        Some(x) => match yaml::untagged(x) {
            YamlView::Sequence(items) => items,
            _ => Seq::empty(),
        },
        None => Seq::empty(),
    }
}

/// The rows that patch entries speak of: for each entry those that it inserts, then its own.
pub open spec fn patch_rows(entries: Seq<YamlView>) -> Seq<RowView>
    decreases entries.len(),
{
    if entries.len() == 0 {
        Seq::empty()
    } else {
        patch_rows(entries.drop_last()) + rows_in(inserted_by(entries.last())) + rows_in(
            seq![entries.last()],
        )
    }
}

fn text_below(v: &Yaml, key: &str) -> (r: Option<String>)
    ensures
        text::opt(r) == text_under(v@, key@),
{
    match v.yaml_get(key) {
        Some(x) => match x.as_str() {
            Some(s) => Some(s.clone()),
            None => None,
        },
        None => None,
    }
}

fn read_row(v: &Yaml) -> (r: Option<RowPatch>)
    ensures
        match r {
            Some(row) => row_of(v@) == Some(row@),
            None => row_of(v@) is None,
        },
{
    match text_below(v, "id") {
        None => None,
        Some(id) => {
            let name = text_below(v, "name");
            let disabled = match v.yaml_get("disabled") {
                Some(x) => x.as_bool(),
                None => None,
            };
            Some(RowPatch { id, name, disabled })
        },
    }
}

/// The rows that patch entries speak of.
pub fn row_patches(entries: &[Yaml]) -> (r: Vec<RowPatch>)
    ensures
        row_views(r@) == patch_rows(yaml::entries_view(entries@)),
{
    let ghost all = yaml::entries_view(entries@);
    proof {
        yaml::lemma_entries_view(entries@);
    }
    let mut out: Vec<RowPatch> = Vec::new();
    assert(row_views(out@) =~= patch_rows(all.subrange(0, 0)));
    for i in 0..entries.len()
        invariant
            all == yaml::entries_view(entries@),
            all.len() == entries@.len(),
            forall|k: int| 0 <= k < entries@.len() ==> #[trigger] all[k] == entries@[k]@,
            row_views(out@) == patch_rows(all.subrange(0, i as int)),
    {
        let ghost start = row_views(out@);
        assert(all.subrange(0, i + 1).drop_last() =~= all.subrange(0, i as int));
        assert(all.subrange(0, i + 1).last() == entries@[i as int]@);
        if let Some(insert) = entries[i].yaml_get("insert") {
            if let Yaml::Sequence(items) = insert.untag() {
                let ghost inner = yaml::entries_view(items@);
                proof {
                    yaml::lemma_entries_view(items@);
                }
                assert(rows_in(inner.subrange(0, 0)) =~= Seq::<RowView>::empty());
                for j in 0..items.len()
                    invariant
                        inner == yaml::entries_view(items@),
                        inner.len() == items@.len(),
                        forall|k: int| 0 <= k < items@.len() ==> #[trigger] inner[k] == items@[k]@,
                        row_views(out@) == start + rows_in(inner.subrange(0, j as int)),
                {
                    let ghost before = out@;
                    assert(inner.subrange(0, j + 1).drop_last() =~= inner.subrange(0, j as int));
                    assert(inner.subrange(0, j + 1).last() == items@[j as int]@);
                    if let Some(row) = read_row(&items[j]) {
                        out.push(row);
                        assert(row_views(out@) =~= row_views(before).push(row@));
                    }
                    assert(row_views(out@) =~= start + rows_in(inner.subrange(0, j + 1)));
                }
                assert(inner.subrange(0, inner.len() as int) =~= inner);
                assert(inner == inserted_by(entries@[i as int]@));
            }
        }
        assert(row_views(out@) =~= start + rows_in(inserted_by(entries@[i as int]@)));
        let ghost mid = row_views(out@);
        let ghost held = out@;
        let ghost one = seq![entries@[i as int]@];
        assert(one.drop_last() =~= Seq::<YamlView>::empty());
        assert(rows_in(one.drop_last()) =~= Seq::<RowView>::empty());
        if let Some(row) = read_row(&entries[i]) {
            out.push(row);
            assert(row_views(out@) =~= row_views(held).push(row@));
            assert(rows_in(one) =~= seq![row@]);
        }
        assert(row_views(out@) =~= mid + rows_in(one));
    }
    assert(all.subrange(0, all.len() as int) =~= all);
    out
}

/// The byte order mark, which an editor may have put in front of a text.
pub open spec fn order_mark() -> Seq<char> {
    seq!['\u{feff}']
}

/// The entries of a patch text: those of a sequence at its top.
pub open spec fn patch_entries(text: Seq<char>) -> Option<Seq<YamlView>> {
    match yaml::yaml_parsed(text::strip_start(text, order_mark())) {
        Some(YamlView::Sequence(entries)) => Some(entries),
        _ => None,
    }
}

/// The entries of a patch file, where it can be read and holds a sequence.
pub open spec fn patch_at(files: Map<Seq<char>, FileView>, path: Seq<char>) -> Option<
    Seq<YamlView>,
> {
    match disk::readable(files, path) {
        Some(text) => patch_entries(text),
        None => None,
    }
}

fn without_mark(text: &str) -> (r: String)
    ensures
        r@ == text::strip_start(text@, order_mark()),
{
    let s = chars(text);
    let mark: Vec<char> = vec!['\u{feff}'];
    assert(mark@ =~= order_mark());
    string_of(cut_start_set(s.as_slice(), mark.as_slice()))
}

/// The entries of a patch file.
pub fn parse_patch_file_opt(disk: &Disk, path: &str) -> (r: Option<Vec<Yaml>>)
    ensures
        match r {
            Some(v) => patch_at(disk@, path@) == Some(yaml::entries_view(v@)),
            None => patch_at(disk@, path@) is None,
        },
{
    match disk.read(path) {
        Err(_) => None,
        Ok(text) => match yaml_from_str(without_mark(text.as_str()).as_str()) {
            None => None,
            Some(v) => match yaml_of(&v) {
                Yaml::Sequence(entries) => Some(entries),
                _ => None,
            },
        },
    }
}

/// The patch file of a package directory, where its manifest names one.
pub open spec fn patch_of(os: Os, files: Map<Seq<char>, FileView>, dir: Seq<char>) -> Option<
    Seq<char>,
> {
    match json_at(files, manifest_path(os, dir)) {
        Some(m) => match declared_patch(m) {
            Some(rel) => Some(paths::joined_path(os, dir, rel)),
            None => None,
        },
        None => None,
    }
}

/// The patch file of a package directory, which has to be looked at before its rows are asked
/// for.
pub fn patch_question(os: Os, disk: &Disk, dir: &str) -> (r: Option<String>)
    ensures
        text::opt(r) == patch_of(os, disk@, dir@),
{
    match json_in(disk, join_path(os, dir, "package.json").as_str()) {
        Some(m) => match patch_named(&m) {
            Some(rel) => Some(join_path(os, dir, rel.as_str())),
            None => None,
        },
        None => None,
    }
}

/// The rows that the patch of a package speaks of.
pub open spec fn bundle_rows(os: Os, files: Map<Seq<char>, FileView>, dir: Seq<char>) -> Seq<
    RowView,
> {
    match patch_of(os, files, dir) {
        Some(path) => match patch_at(files, path) {
            Some(entries) => patch_rows(entries),
            None => Seq::empty(),
        },
        None => Seq::empty(),
    }
}

/// The rows that the patch of a package speaks of.
pub fn bundle_row_patches(os: Os, disk: &Disk, dir: &str) -> (r: Vec<RowPatch>)
    ensures
        row_views(r@) == bundle_rows(os, disk@, dir@),
{
    match patch_question(os, disk, dir) {
        Some(path) => match parse_patch_file_opt(disk, path.as_str()) {
            Some(entries) => row_patches(entries.as_slice()),
            None => {
                let none: Vec<RowPatch> = Vec::new();
                assert(row_views(none@) =~= Seq::<RowView>::empty());
                none
            },
        },
        None => {
            let none: Vec<RowPatch> = Vec::new();
            assert(row_views(none@) =~= Seq::<RowView>::empty());
            none
        },
    }
}

/// Whether a line holds more than white space.
pub open spec fn has_ink(line: Seq<char>) -> bool {
    text::trim(line).len() > 0
}

/// The lines that hold more than white space.
pub open spec fn inked(ls: Seq<Seq<char>>) -> Seq<Seq<char>>
    decreases ls.len(),
{
    if ls.len() == 0 {
        Seq::empty()
    } else if has_ink(ls.last()) {
        inked(ls.drop_last()).push(ls.last())
    } else {
        inked(ls.drop_last())
    }
}

/// Lines as an entry of a YAML list that is indented: a bullet before the first, the others
/// indented under it.
pub open spec fn bulleted(indent: Seq<char>, ls: Seq<Seq<char>>) -> Seq<Seq<char>> {
    Seq::new(
        ls.len(),
        |i: int|
            if i == 0 {
                indent + "- "@ + ls[i]
            } else {
                indent + "  "@ + ls[i]
            },
    )
}

/// The entry that switches a row.
pub open spec fn switch_entry(id: Seq<char>, disabled: bool) -> YamlView {
    YamlView::Mapping(
        seq![
            (YamlView::Str("id"@), YamlView::Str(id)),
            (YamlView::Str("disabled"@), YamlView::Bool(disabled)),
        ],
    )
}

/// The lines that are put into a patch file for an entry with this text.
pub open spec fn entry_block(indent: Seq<char>, entry: Seq<char>) -> Seq<char> {
    text::joined(bulleted(indent, inked(text::lines(entry))), "\n"@) + "\n"@
}

/// The entry that switches a row, as it stands between brackets.
pub open spec fn flow_entry(id: Seq<char>, disabled: bool) -> JsonView {
    JsonView::Object(
        seq![("disabled"@, JsonView::Bool(disabled)), ("id"@, JsonView::Str(id))],
    )
}

/// What the entry that switches a row says of it.
pub open spec fn switched_row(id: Seq<char>, disabled: bool) -> RowView {
    RowView { id, name: None, disabled: Some(disabled) }
}

/// Whether a text is read as one entry more than before, and says the same of all rows as before,
/// and then this of one.
pub open spec fn adds_row(before: Seq<YamlView>, after: Seq<char>, row: RowView) -> bool {
    match patch_entries(after) {
        Some(entries) => entries.len() == before.len() + 1 && patch_rows(entries) == patch_rows(
            before,
        ).push(row),
        None => false,
    }
}

/// The last of the lines that holds more than white space.
pub open spec fn last_inked(ls: Seq<Seq<char>>) -> Option<int>
    decreases ls.len(),
{
    if ls.len() == 0 {
        None
    } else if has_ink(ls.last()) {
        Some(ls.len() - 1)
    } else {
        last_inked(ls.drop_last())
    }
}

/// The white space that a line begins with.
pub open spec fn indent_of(line: Seq<char>) -> Seq<char> {
    line.subrange(0, line.len() - text::trim_start(line).len())
}

/// A text with an entry behind it.
pub open spec fn at_end(text: Seq<char>, indent: Seq<char>, entry: Seq<char>) -> Seq<char> {
    text::trim_end(text) + "\n"@ + entry_block(indent, entry)
}

/// A text with an entry behind it that is indented as one of its first `n` lines is, the last that
/// begins with a dash and under which the entry adds the row.
pub open spec fn under_bullet(
    text: Seq<char>,
    entry: Seq<char>,
    before: Seq<YamlView>,
    row: RowView,
    n: int,
) -> Option<Seq<char>>
    decreases n,
{
    if n <= 0 {
        None
    } else {
        let line = text::lines(text)[n - 1];
        let after = at_end(text, indent_of(line), entry);
        if "-"@.is_prefix_of(text::trim_start(line)) && adds_row(before, after, row) {
            Some(after)
        } else {
            under_bullet(text, entry, before, row, n - 1)
        }
    }
}

/// A text with an entry in place of brackets with nothing between them, the last before `n` in
/// whose place it adds the row.
pub open spec fn in_place(
    text: Seq<char>,
    entry: Seq<char>,
    before: Seq<YamlView>,
    row: RowView,
    n: int,
) -> Option<Seq<char>>
    decreases n,
{
    if n <= 0 {
        None
    } else {
        let front = text::trim_end(text.subrange(0, n - 1));
        let after = front.drop_last() + entry_block(Seq::empty(), entry) + text.subrange(
            n,
            text.len() as int,
        );
        if text[n - 1] == ']' && front.len() > 0 && front.last() == '[' && adds_row(
            before,
            after,
            row,
        ) {
            Some(after)
        } else {
            in_place(text, entry, before, row, n - 1)
        }
    }
}

/// A text with more text put in before a position.
pub open spec fn put_in(text: Seq<char>, at: int, more: Seq<char>) -> Seq<char> {
    text.subrange(0, at) + more + text.subrange(at, text.len() as int)
}

/// A text with an entry before a closing bracket, the last before `n` at which it adds the row.
pub open spec fn in_brackets(
    text: Seq<char>,
    entry: Seq<char>,
    before: Seq<YamlView>,
    row: RowView,
    n: int,
) -> Option<Seq<char>>
    decreases n,
{
    if n <= 0 {
        None
    } else if text[n - 1] == ']' && adds_row(before, put_in(text, n - 1, ", "@ + entry), row) {
        Some(put_in(text, n - 1, ", "@ + entry))
    } else if text[n - 1] == ']' && adds_row(before, put_in(text, n - 1, entry), row) {
        Some(put_in(text, n - 1, entry))
    } else {
        in_brackets(text, entry, before, row, n - 1)
    }
}

/// A text whose line `k` is an empty list, with an entry in place of that line.
pub open spec fn in_line(text: Seq<char>, k: int, entry: Seq<char>) -> Seq<char> {
    text::joined(text::lines(text).update(k, entry_block(Seq::empty(), entry)), "\n"@) + "\n"@
}

/// A text with an entry on lines of its own, where that adds the row. An empty list gives way to
/// the entry; else it comes last.
pub open spec fn on_lines(
    text: Seq<char>,
    k: int,
    entry: Seq<char>,
    before: Seq<YamlView>,
    row: RowView,
) -> Option<Seq<char>> {
    let place = in_place(text, entry, before, row, text.len() as int);
    if before.len() == 0 && text::trim(text::lines(text)[k]) == "[]"@ && adds_row(
        before,
        in_line(text, k, entry),
        row,
    ) {
        Some(in_line(text, k, entry))
    } else if before.len() == 0 && place is Some {
        place
    } else if adds_row(before, at_end(text, Seq::empty(), entry), row) {
        Some(at_end(text, Seq::empty(), entry))
    } else {
        under_bullet(text, entry, before, row, text::lines(text).len() as int)
    }
}

/// A text with one more entry, where there is a way to put it in that adds the row: on lines of its
/// own, or else into the list between brackets.
pub open spec fn with_entry(
    text: Seq<char>,
    k: int,
    entry: Seq<char>,
    flow: Seq<char>,
    before: Seq<YamlView>,
    row: RowView,
) -> Option<Seq<char>> {
    match on_lines(text, k, entry, before, row) {
        Some(after) => Some(after),
        None => match on_lines(text, k, flow, before, row) {
            Some(after) => Some(after),
            None => in_brackets(text, flow, before, row, text.len() as int),
        },
    }
}

/// The text of a patch file with one more entry, or why it cannot have one. What stands in the file
/// is not written anew.
pub open spec fn appended(text: Seq<char>, id: Seq<char>, disabled: bool) -> Result<
    Seq<char>,
    Seq<char>,
> {
    match yaml::yaml_parsed(text::strip_start(text, order_mark())) {
        None => Err("cordis.patch.yml 无法解析（可能被手动改坏），请修复后重试。"@),
        Some(YamlView::Sequence(before)) => match yaml::yaml_text(switch_entry(id, disabled)) {
            Err(e) => Err("生成补丁行失败: "@ + e),
            Ok(entry) => match last_inked(text::lines(text)) {
                None => Err("cordis.patch.yml 内容为空，请先修复。"@),
                Some(k) => match with_entry(
                    text,
                    k,
                    entry,
                    json::json_compact(flow_entry(id, disabled)),
                    before,
                    switched_row(id, disabled),
                ) {
                    Some(after) => Ok(after),
                    None => Err(
                        "cordis.patch.yml 的写法无法追加补丁行，请改为每行一条（- id: …）后重试。"@,
                    ),
                },
            },
        },
        Some(_) => Err("cordis.patch.yml 必须是顶层 YAML 数组（补丁条目列表）。"@),
    }
}

proof fn lemma_joined_front(parts: Seq<Seq<char>>, sep: Seq<char>, k: int)
    requires
        0 <= k <= parts.len(),
    ensures
        text::joined(parts.subrange(0, k), sep).is_prefix_of(text::joined(parts, sep)),
    decreases parts.len(),
{
    if k == parts.len() {
        assert(parts.subrange(0, k) =~= parts);
    } else if k > 0 {
        let front = parts.drop_last();
        lemma_joined_front(front, sep, k);
        assert(front.subrange(0, k) =~= parts.subrange(0, k));
        assert(text::joined(front, sep).is_prefix_of(text::joined(parts, sep)));
    }
}

/// Whether a text has lost nothing of another: it has more text behind it, but for white space at
/// its end, or before a closing bracket, or in place of brackets with nothing between them.
pub open spec fn keeps_text(text: Seq<char>, after: Seq<char>) -> bool {
    ||| (text::trim_end(text) + "\n"@).is_prefix_of(after)
    ||| exists|at: int, more: Seq<char>|
        0 <= at < text.len() && text[at] == ']' && after == #[trigger] put_in(text, at, more)
    ||| exists|n: int, more: Seq<char>| #[trigger] brackets_replaced(text, after, n, more)
}

/// Whether a text is another in which brackets with nothing between them, the closing one being
/// the last of `n` characters, gave way to more text.
pub open spec fn brackets_replaced(
    text: Seq<char>,
    after: Seq<char>,
    n: int,
    more: Seq<char>,
) -> bool {
    &&& 0 < n <= text.len()
    &&& text[n - 1] == ']'
    &&& {
        let front = text::trim_end(text.subrange(0, n - 1));
        &&& front.len() > 0
        &&& front.last() == '['
        &&& after == front.drop_last() + more + text.subrange(n, text.len() as int)
    }
}

proof fn lemma_under_bullet(
    text: Seq<char>,
    entry: Seq<char>,
    before: Seq<YamlView>,
    row: RowView,
    n: int,
)
    ensures
        under_bullet(text, entry, before, row, n) matches Some(after) ==> adds_row(
            before,
            after,
            row,
        ) && (text::trim_end(text) + "\n"@).is_prefix_of(after),
    decreases n,
{
    if n > 0 {
        lemma_under_bullet(text, entry, before, row, n - 1);
    }
}

proof fn lemma_in_place(
    text: Seq<char>,
    entry: Seq<char>,
    before: Seq<YamlView>,
    row: RowView,
    n: int,
)
    requires
        n <= text.len(),
    ensures
        in_place(text, entry, before, row, n) matches Some(after) ==> adds_row(before, after, row)
            && keeps_text(text, after),
    decreases n,
{
    if n > 0 {
        lemma_in_place(text, entry, before, row, n - 1);
        let front = text::trim_end(text.subrange(0, n - 1));
        let block = entry_block(Seq::empty(), entry);
        let after = front.drop_last() + block + text.subrange(n, text.len() as int);
        if text[n - 1] == ']' && front.len() > 0 && front.last() == '[' {
            assert(brackets_replaced(text, after, n, block));
        }
    }
}

proof fn lemma_in_brackets(
    text: Seq<char>,
    entry: Seq<char>,
    before: Seq<YamlView>,
    row: RowView,
    n: int,
)
    requires
        n <= text.len(),
    ensures
        in_brackets(text, entry, before, row, n) matches Some(after) ==> adds_row(
            before,
            after,
            row,
        ) && keeps_text(text, after),
    decreases n,
{
    if n > 0 {
        lemma_in_brackets(text, entry, before, row, n - 1);
    }
}

proof fn lemma_on_lines(
    text: Seq<char>,
    k: int,
    entry: Seq<char>,
    before: Seq<YamlView>,
    row: RowView,
)
    ensures
        on_lines(text, k, entry, before, row) matches Some(after) ==> adds_row(before, after, row)
            && (keeps_text(text, after) || (before.len() == 0 && text::trim(text::lines(text)[k])
            == "[]"@ && after == in_line(text, k, entry))),
{
    lemma_in_place(text, entry, before, row, text.len() as int);
    lemma_under_bullet(text, entry, before, row, text::lines(text).len() as int);
    let last = at_end(text, Seq::empty(), entry);
    assert((text::trim_end(text) + "\n"@).is_prefix_of(last));
}

/// Once an entry is in a patch file, the file is read again as one entry more: it says of all rows
/// what it said before, and last of all what the entry says of its row.
pub proof fn entry_is_read_back(text: Seq<char>, id: Seq<char>, disabled: bool)
    ensures
        appended(text, id, disabled) matches Ok(after) ==> patch_entries(text) is Some && adds_row(
            patch_entries(text)->0,
            after,
            switched_row(id, disabled),
        ),
{
    if let Ok(after) = appended(text, id, disabled) {
        let before = patch_entries(text)->0;
        let entry = yaml::yaml_text(switch_entry(id, disabled))->Ok_0;
        let flow = json::json_compact(flow_entry(id, disabled));
        let k = last_inked(text::lines(text))->0;
        let row = switched_row(id, disabled);
        lemma_on_lines(text, k, entry, before, row);
        lemma_on_lines(text, k, flow, before, row);
        lemma_in_brackets(text, flow, before, row, text.len() as int);
    }
}

/// What stands in a patch file is never written anew: the entry comes behind all of its text but the
/// white space at its end, or before the bracket that closes the list. Only an empty list gives way
/// to the entry; where it is the last line, all lines before it stay.
pub proof fn entries_stay_as_written(text: Seq<char>, id: Seq<char>, disabled: bool)
    ensures
        appended(text, id, disabled) matches Ok(after) ==> {
            let ls = text::lines(text);
            ||| keeps_text(text, after)
            ||| {
                &&& patch_entries(text) == Some(Seq::<YamlView>::empty())
                &&& last_inked(ls) is Some
                &&& text::trim(ls[last_inked(ls)->0]) == "[]"@
                &&& text::joined(ls.subrange(0, last_inked(ls)->0), "\n"@).is_prefix_of(after)
            }
        },
{
    if let Ok(after) = appended(text, id, disabled) {
        let ls = text::lines(text);
        let before = patch_entries(text)->0;
        let entry = yaml::yaml_text(switch_entry(id, disabled))->Ok_0;
        let flow = json::json_compact(flow_entry(id, disabled));
        let k = last_inked(ls)->0;
        let row = switched_row(id, disabled);
        lemma_last_inked(ls);
        lemma_on_lines(text, k, entry, before, row);
        lemma_on_lines(text, k, flow, before, row);
        lemma_in_brackets(text, flow, before, row, text.len() as int);
        lemma_line_kept(text, k, entry);
        lemma_line_kept(text, k, flow);
        assert(before.len() == 0 ==> before =~= Seq::<YamlView>::empty());
    }
}

proof fn lemma_line_kept(text: Seq<char>, k: int, entry: Seq<char>)
    requires
        0 <= k < text::lines(text).len(),
    ensures
        text::joined(text::lines(text).subrange(0, k), "\n"@).is_prefix_of(in_line(text, k, entry)),
{
    let ls = text::lines(text);
    let put = ls.update(k, entry_block(Seq::empty(), entry));
    lemma_joined_front(put, "\n"@, k);
    assert(put.subrange(0, k) =~= ls.subrange(0, k));
    assert(text::joined(put, "\n"@).is_prefix_of(in_line(text, k, entry)));
}

proof fn lemma_last_inked(ls: Seq<Seq<char>>)
    ensures
        last_inked(ls) matches Some(k) ==> 0 <= k < ls.len(),
    decreases ls.len(),
{
    if ls.len() > 0 {
        lemma_last_inked(ls.drop_last());
    }
}

/// A patch file that is to be replaced: the text goes into `temp`, which then takes the file's
/// place.
#[derive(Debug)]
pub struct PatchWrite {
    pub temp: String,
    pub text: String,
}

fn keep_inked(ls: &[Vec<char>]) -> (r: Vec<String>)
    ensures
        text::strs(r@) == inked(text::char_vecs(ls@)),
{
    let ghost all = text::char_vecs(ls@);
    let mut out: Vec<String> = Vec::new();
    assert(text::strs(out@) =~= inked(all.subrange(0, 0)));
    for i in 0..ls.len()
        invariant
            all == text::char_vecs(ls@),
            text::strs(out@) == inked(all.subrange(0, i as int)),
    {
        let ghost before = out@;
        assert(all.subrange(0, i + 1).drop_last() =~= all.subrange(0, i as int));
        assert(all.subrange(0, i + 1).last() == ls@[i as int]@);
        if cut_both(ls[i].as_slice()).len() > 0 {
            out.push(string_of(ls[i].as_slice()));
            assert(text::strs(out@) =~= text::strs(before).push(ls@[i as int]@));
        }
    }
    assert(all.subrange(0, all.len() as int) =~= all);
    out
}

fn bullet(indent: &str, ls: &[String]) -> (r: Vec<String>)
    ensures
        text::strs(r@) == bulleted(indent@, text::strs(ls@)),
{
    let ghost all = bulleted(indent@, text::strs(ls@));
    let mut out: Vec<String> = Vec::new();
    for i in 0..ls.len()
        invariant
            all == bulleted(indent@, text::strs(ls@)),
            text::strs(out@) == all.subrange(0, i as int),
    {
        let ghost before = out@;
        let line = if i == 0 {
            cat3(indent, "- ", ls[i].as_str())
        } else {
            cat3(indent, "  ", ls[i].as_str())
        };
        assert(text::strs(ls@)[i as int] == ls@[i as int]@);
        assert(line@ == all[i as int]);
        out.push(line);
        assert(text::strs(out@) =~= text::strs(before).push(all[i as int]));
        assert(text::strs(out@) =~= all.subrange(0, i + 1));
    }
    assert(all.subrange(0, all.len() as int) =~= all);
    out
}

fn block_of(indent: &str, entry: &str) -> (r: String)
    ensures
        r@ == entry_block(indent@, entry@),
{
    let s = chars(entry);
    let ls = split_lines(s.as_slice());
    let kept = keep_inked(ls.as_slice());
    let marked = bullet(indent, kept.as_slice());
    cat(join(marked.as_slice(), "\n").as_str(), "\n")
}

fn same_opt(a: &Option<String>, b: &Option<String>) -> (r: bool)
    ensures
        r == (text::opt(*a) == text::opt(*b)),
{
    match (a, b) {
        (Some(x), Some(y)) => same(x.as_str(), y.as_str()),
        (None, None) => true,
        _ => false,
    }
}

fn same_truth(a: Option<bool>, b: Option<bool>) -> (r: bool)
    ensures
        r == (a == b),
{
    match (a, b) {
        (Some(x), Some(y)) => x == y,
        (None, None) => true,
        _ => false,
    }
}

fn same_row(a: &RowPatch, b: &RowPatch) -> (r: bool)
    ensures
        r == (a@ == b@),
{
    same(a.id.as_str(), b.id.as_str()) && same_opt(&a.name, &b.name) && same_truth(
        a.disabled,
        b.disabled,
    )
}

fn same_rows(a: &[RowPatch], b: &[RowPatch]) -> (r: bool)
    ensures
        r == (row_views(a@) == row_views(b@)),
{
    if a.len() != b.len() {
        assert(row_views(a@).len() != row_views(b@).len());
        return false;
    }
    for i in 0..a.len()
        invariant
            a@.len() == b@.len(),
            forall|k: int| 0 <= k < i ==> #[trigger] row_views(a@)[k] == row_views(b@)[k],
    {
        if !same_row(&a[i], &b[i]) {
            assert(row_views(a@)[i as int] != row_views(b@)[i as int]);
            return false;
        }
    }
    assert(row_views(a@) =~= row_views(b@));
    true
}

/// What a patch file is to be read as: one entry more than there were, and the rows that the entries
/// speak of.
struct Wanted {
    former: usize,
    rows: Vec<RowPatch>,
}

impl Wanted {
    spec fn fits(&self, before: Seq<YamlView>, row: RowView) -> bool {
        self.former == before.len() && row_views(self.rows@) == patch_rows(before).push(row)
    }

    fn is_read(&self, after: &str, Ghost(before): Ghost<Seq<YamlView>>, Ghost(row): Ghost<
        RowView,
    >) -> (r: bool)
        requires
            self.fits(before, row),
        ensures
            r == adds_row(before, after@, row),
    {
        match yaml_from_str(without_mark(after).as_str()) {
            None => false,
            Some(v) => match yaml_of(&v) {
                Yaml::Sequence(entries) => {
                    proof {
                        yaml::lemma_entries_view(entries@);
                    }
                    entries.len() > 0 && entries.len() - 1 == self.former && same_rows(
                        row_patches(entries.as_slice()).as_slice(),
                        self.rows.as_slice(),
                    )
                },
                _ => false,
            },
        }
    }
}

fn find_last_inked(ls: &[Vec<char>]) -> (r: Option<usize>)
    ensures
        match last_inked(text::char_vecs(ls@)) {
            Some(k) => r is Some && r->0 == k && r->0 < ls@.len(),
            None => r is None,
        },
{
    let ghost all = text::char_vecs(ls@);
    let mut i: usize = ls.len();
    assert(all.subrange(0, all.len() as int) =~= all);
    while i > 0
        invariant
            i <= ls@.len(),
            all == text::char_vecs(ls@),
            last_inked(all) == last_inked(all.subrange(0, i as int)),
        decreases i,
    {
        assert(all.subrange(0, i as int).drop_last() =~= all.subrange(0, i - 1));
        assert(all.subrange(0, i as int).last() == ls@[i - 1]@);
        if cut_both(ls[i - 1].as_slice()).len() > 0 {
            return Some(i - 1);
        }
        i = i - 1;
    }
    None
}

fn put_at_end(s: &[char], indent: &str, entry: &str) -> (r: String)
    ensures
        r@ == at_end(s@, indent@, entry@),
{
    cat3(string_of(cut_end(s)).as_str(), "\n", block_of(indent, entry).as_str())
}

fn put_under_bullet(
    s: &[char],
    ls: &[Vec<char>],
    entry: &str,
    wanted: &Wanted,
    Ghost(before): Ghost<Seq<YamlView>>,
    Ghost(row): Ghost<RowView>,
) -> (r: Option<String>)
    requires
        wanted.fits(before, row),
        text::char_vecs(ls@) == text::lines(s@),
    ensures
        text::opt(r) == under_bullet(s@, entry@, before, row, ls@.len() as int),
{
    let mut n: usize = ls.len();
    while n > 0
        invariant
            n <= ls@.len(),
            wanted.fits(before, row),
            text::char_vecs(ls@) == text::lines(s@),
            under_bullet(s@, entry@, before, row, ls@.len() as int) == under_bullet(
                s@,
                entry@,
                before,
                row,
                n as int,
            ),
        decreases n,
    {
        assert(text::char_vecs(ls@)[n - 1] == ls@[n - 1]@);
        let line = ls[n - 1].as_slice();
        let rest = cut_start(line);
        proof {
            lemma_trim_start_len(line@);
        }
        if begins(string_of(rest).as_str(), "-") {
            let indent = string_of(cut(line, 0, line.len() - rest.len()));
            let after = put_at_end(s, indent.as_str(), entry);
            if wanted.is_read(after.as_str(), Ghost(before), Ghost(row)) {
                return Some(after);
            }
        }
        n = n - 1;
    }
    None
}

proof fn lemma_trim_start_len(s: Seq<char>)
    ensures
        text::trim_start(s).len() <= s.len(),
    decreases s.len(),
{
    if s.len() > 0 && text::space(s[0]) {
        lemma_trim_start_len(s.subrange(1, s.len() as int));
    }
}

fn put_in_place(
    s: &[char],
    entry: &str,
    wanted: &Wanted,
    Ghost(before): Ghost<Seq<YamlView>>,
    Ghost(row): Ghost<RowView>,
) -> (r: Option<String>)
    requires
        wanted.fits(before, row),
    ensures
        text::opt(r) == in_place(s@, entry@, before, row, s@.len() as int),
{
    let block = block_of("", entry);
    proof {
        reveal_strlit("");
        assert(""@ =~= Seq::<char>::empty());
    }
    let mut n: usize = s.len();
    while n > 0
        invariant
            n <= s@.len(),
            wanted.fits(before, row),
            block@ == entry_block(Seq::empty(), entry@),
            in_place(s@, entry@, before, row, s@.len() as int) == in_place(
                s@,
                entry@,
                before,
                row,
                n as int,
            ),
        decreases n,
    {
        let front = cut_end(cut(s, 0, n - 1));
        if s[n - 1] == ']' && front.len() > 0 && front[front.len() - 1] == '[' {
            let head = string_of(cut(front, 0, front.len() - 1));
            assert(head@ =~= front@.drop_last());
            let after = cat3(
                head.as_str(),
                block.as_str(),
                string_of(cut(s, n, s.len())).as_str(),
            );
            if wanted.is_read(after.as_str(), Ghost(before), Ghost(row)) {
                return Some(after);
            }
        }
        n = n - 1;
    }
    None
}

fn put_before(s: &[char], at: usize, more: &str) -> (r: String)
    requires
        at <= s@.len(),
    ensures
        r@ == put_in(s@, at as int, more@),
{
    cat3(
        string_of(cut(s, 0, at)).as_str(),
        more,
        string_of(cut(s, at, s.len())).as_str(),
    )
}

fn put_in_brackets(
    s: &[char],
    entry: &str,
    wanted: &Wanted,
    Ghost(before): Ghost<Seq<YamlView>>,
    Ghost(row): Ghost<RowView>,
) -> (r: Option<String>)
    requires
        wanted.fits(before, row),
    ensures
        text::opt(r) == in_brackets(s@, entry@, before, row, s@.len() as int),
{
    let behind_comma = cat(", ", entry);
    let mut n: usize = s.len();
    while n > 0
        invariant
            n <= s@.len(),
            wanted.fits(before, row),
            behind_comma@ == ", "@ + entry@,
            in_brackets(s@, entry@, before, row, s@.len() as int) == in_brackets(
                s@,
                entry@,
                before,
                row,
                n as int,
            ),
        decreases n,
    {
        if s[n - 1] == ']' {
            let next = put_before(s, n - 1, behind_comma.as_str());
            if wanted.is_read(next.as_str(), Ghost(before), Ghost(row)) {
                return Some(next);
            }
            let only = put_before(s, n - 1, entry);
            if wanted.is_read(only.as_str(), Ghost(before), Ghost(row)) {
                return Some(only);
            }
        }
        n = n - 1;
    }
    None
}

fn put_in_line(s: &[char], ls: &[Vec<char>], k: usize, entry: &str) -> (r: String)
    requires
        text::char_vecs(ls@) == text::lines(s@),
        k < ls@.len(),
    ensures
        r@ == in_line(s@, k as int, entry@),
{
    let block = block_of("", entry);
    proof {
        reveal_strlit("");
        assert(""@ =~= Seq::<char>::empty());
    }
    let mut out = strings_of(ls);
    let ghost held = out@;
    assert(text::strs(held) == text::lines(s@));
    assert(text::strs(held).len() == held.len());
    out.set(k, block);
    assert(text::strs(out@) =~= text::lines(s@).update(k as int, block@));
    cat(join(out.as_slice(), "\n").as_str(), "\n")
}

fn put_on_lines(
    s: &[char],
    ls: &[Vec<char>],
    k: usize,
    entry: &str,
    wanted: &Wanted,
    Ghost(before): Ghost<Seq<YamlView>>,
    Ghost(row): Ghost<RowView>,
) -> (r: Option<String>)
    requires
        wanted.fits(before, row),
        text::char_vecs(ls@) == text::lines(s@),
        k < ls@.len(),
    ensures
        text::opt(r) == on_lines(s@, k as int, entry@, before, row),
{
    proof {
        reveal_strlit("");
        assert(""@ =~= Seq::<char>::empty());
        assert(text::char_vecs(ls@)[k as int] == ls@[k as int]@);
        assert(text::lines(s@).len() == ls@.len());
    }
    if wanted.former == 0 {
        if same(string_of(cut_both(ls[k].as_slice())).as_str(), "[]") {
            let after = put_in_line(s, ls, k, entry);
            if wanted.is_read(after.as_str(), Ghost(before), Ghost(row)) {
                return Some(after);
            }
        }
        if let Some(after) = put_in_place(s, entry, wanted, Ghost(before), Ghost(row)) {
            return Some(after);
        }
    }
    let after = put_at_end(s, "", entry);
    if wanted.is_read(after.as_str(), Ghost(before), Ghost(row)) {
        return Some(after);
    }
    put_under_bullet(s, ls, entry, wanted, Ghost(before), Ghost(row))
}

fn flow_of(id: &str, disabled: bool) -> (r: String)
    ensures
        r@ == json::json_compact(flow_entry(id@, disabled)),
{
    let mut members: Vec<(String, Json)> = Vec::new();
    members.push(("disabled".to_owned(), Json::Bool(disabled)));
    members.push(("id".to_owned(), Json::Str(id.to_owned())));
    let ghost held = members@;
    let entry = Json::Object(members);
    proof {
        json::lemma_members_view(held);
        assert(json::members_view(held) =~= flow_entry(id@, disabled)->Object_0);
        reveal_strlit("disabled");
        reveal_strlit("id");
        reveal_with_fuel(json::comes_before, 2);
        reveal_with_fuel(json::ordered, 2);
        assert(json::ordered(flow_entry(id@, disabled)));
    }
    print_compact(&entry)
}

fn append_row(text: &str, id: &str, disabled: bool) -> (r: Result<String, String>)
    ensures
        match r {
            Ok(t) => appended(text@, id@, disabled) == Ok::<Seq<char>, Seq<char>>(t@),
            Err(e) => appended(text@, id@, disabled) == Err::<Seq<char>, Seq<char>>(e@),
        },
{
    let parsed = match yaml_from_str(without_mark(text).as_str()) {
        Some(v) => v,
        None => {
            return Err("cordis.patch.yml 无法解析（可能被手动改坏），请修复后重试。".to_owned());
        },
    };
    let entries = match yaml_of(&parsed) {
        Yaml::Sequence(entries) => entries,
        _ => {
            return Err("cordis.patch.yml 必须是顶层 YAML 数组（补丁条目列表）。".to_owned());
        },
    };
    proof {
        reveal_strlit("id");
        reveal_strlit("disabled");
        assert("id"@.len() != "disabled"@.len());
        yaml::lemma_entries_view(entries@);
    }
    let pair = yaml_pair("id", id, "disabled", disabled);
    let entry = match yaml_to_string(&pair) {
        Ok(t) => t,
        Err(e) => {
            return Err(cat("生成补丁行失败: ", e.as_str()));
        },
    };
    let s = chars(text);
    let ls = split_lines(s.as_slice());
    let last: usize = match find_last_inked(ls.as_slice()) {
        Some(k) => k,
        None => {
            return Err("cordis.patch.yml 内容为空，请先修复。".to_owned());
        },
    };
    let mut rows = row_patches(entries.as_slice());
    let ghost old_rows = rows@;
    rows.push(RowPatch { id: id.to_owned(), name: None, disabled: Some(disabled) });
    let ghost before = yaml::entries_view(entries@);
    let ghost row = switched_row(id@, disabled);
    assert(row_views(rows@) =~= row_views(old_rows).push(row));
    let wanted = Wanted { former: entries.len(), rows };
    let flow = flow_of(id, disabled);
    if let Some(t) = put_on_lines(
        s.as_slice(),
        ls.as_slice(),
        last,
        entry.as_str(),
        &wanted,
        Ghost(before),
        Ghost(row),
    ) {
        return Ok(t);
    }
    if let Some(t) = put_on_lines(
        s.as_slice(),
        ls.as_slice(),
        last,
        flow.as_str(),
        &wanted,
        Ghost(before),
        Ghost(row),
    ) {
        return Ok(t);
    }
    if let Some(t) = put_in_brackets(
        s.as_slice(),
        flow.as_str(),
        &wanted,
        Ghost(before),
        Ghost(row),
    ) {
        return Ok(t);
    }
    Err("cordis.patch.yml 的写法无法追加补丁行，请改为每行一条（- id: …）后重试。".to_owned())
}

/// The patch file with one more entry, which switches a row: `enabled` is what the entry says
/// under `disabled`.
pub fn append_disable_row(
    os: Os,
    disk: &Disk,
    patch_path: &str,
    id: &str,
    enabled: bool,
) -> (r: Result<PatchWrite, String>)
    ensures
        match disk::contents(disk@, patch_path@) {
            Err(e) => r is Err && r->Err_0@ == "读取补丁文件失败（"@ + patch_path@ + "）: "@ + e,
            Ok(text) => match appended(text, id@, enabled) {
                Ok(t) => r is Ok && r->Ok_0.text@ == t && r->Ok_0.temp@ == paths::with_extension_of(
                    os,
                    patch_path@,
                    "yml.tmp"@,
                ),
                Err(e) => r is Err && r->Err_0@ == e,
            },
        },
        r is Ok ==> patch_at(disk@, patch_path@) is Some && adds_row(
            patch_at(disk@, patch_path@)->0,
            r->Ok_0.text@,
            switched_row(id@, enabled),
        ),
{
    match disk.read(patch_path) {
        Err(e) => Err(
            cat(cat3("读取补丁文件失败（", patch_path, "）: ").as_str(), e.as_str()),
        ),
        Ok(text) => match append_row(text.as_str(), id, enabled) {
            Ok(t) => {
                proof {
                    reveal_strlit("yml.tmp");
                    entry_is_read_back(text@, id@, enabled);
                }
                Ok(PatchWrite { temp: with_extension(os, patch_path, "yml.tmp"), text: t })
            },
            Err(e) => Err(e),
        },
    }
}

/// An entry with a text under `id` speaks of that row, and says of it what stands under `name` and
/// `disabled`; one without speaks of none.
pub proof fn row_says_what_its_entry_says(v: YamlView, id: Seq<char>)
    ensures
        row_of(v) is Some <==> yaml::yaml_under(v, "id"@) is Some && yaml::untagged(
            yaml::yaml_under(v, "id"@)->0,
        ) is Str,
        yaml::yaml_under(v, "id"@) == Some(YamlView::Str(id)) ==> row_of(v) is Some && row_of(v)->0.id
            == id,
        row_of(v) is Some ==> {
            &&& yaml::yaml_under(v, "disabled"@) matches Some(YamlView::Bool(d)) ==> row_of(
                v,
            )->0.disabled == Some(d)
            &&& yaml::yaml_under(v, "disabled"@) is None ==> row_of(v)->0.disabled is None
            &&& yaml::yaml_under(v, "name"@) matches Some(YamlView::Str(n)) ==> row_of(v)->0.name
                == Some(n)
            &&& yaml::yaml_under(v, "name"@) is None ==> row_of(v)->0.name is None
        },
{
}

proof fn lemma_rows_in(items: Seq<YamlView>)
    ensures
        rows_in(items) == items.filter(|i: YamlView| row_of(i) is Some).map_values(
            |i: YamlView| row_of(i)->0,
        ),
    decreases items.len(),
{
    let has = |i: YamlView| row_of(i) is Some;
    let row = |i: YamlView| row_of(i)->0;
    reveal(Seq::filter);
    if items.len() > 0 {
        lemma_rows_in(items.drop_last());
        let front = items.drop_last().filter(has);
        if has(items.last()) {
            assert(items.filter(has) == front.push(items.last()));
            assert(front.push(items.last()).map_values(row) =~= front.map_values(row).push(
                row(items.last()),
            ));
        } else {
            assert(items.filter(has) == front);
        }
    } else {
        assert(rows_in(items) =~= items.filter(has).map_values(row));
    }
}

/// One more entry adds the rows of all items that it inserts, in their order, each that has an id,
/// and then its own where it has an id. An entry that inserts no list adds its own alone.
pub proof fn entry_adds_all_its_rows(entries: Seq<YamlView>, v: YamlView, items: Seq<YamlView>)
    requires
        yaml::yaml_under(v, "insert"@) == Some(YamlView::Sequence(items)) || (yaml::yaml_under(
            v,
            "insert"@,
        ) is None && items.len() == 0),
    ensures
        patch_rows(entries.push(v)) == patch_rows(entries) + items.filter(
            |i: YamlView| row_of(i) is Some,
        ).map_values(|i: YamlView| row_of(i)->0) + (match row_of(v) {
            Some(row) => seq![row],
            None => Seq::empty(),
        }),
        patch_rows(Seq::empty()) == Seq::<RowView>::empty(),
{
    let all = entries.push(v);
    assert(all.drop_last() =~= entries);
    assert(inserted_by(v) =~= items);
    lemma_rows_in(items);
    let own = seq![v];
    assert(own.drop_last() =~= Seq::<YamlView>::empty());
    assert(rows_in(own.drop_last()) =~= Seq::<RowView>::empty());
    assert(rows_in(own) =~= match row_of(v) {
        Some(row) => seq![row],
        None => Seq::empty(),
    });
}

/// Each item with an id of a list that an entry inserts gives a row, and so does each entry with an
/// id.
pub proof fn every_inserted_row_is_there(
    entries: Seq<YamlView>,
    k: int,
    items: Seq<YamlView>,
    j: int,
)
    requires
        0 <= k < entries.len(),
    ensures
        row_of(entries[k]) matches Some(row) ==> patch_rows(entries).contains(row),
        yaml::yaml_under(entries[k], "insert"@) == Some(YamlView::Sequence(items)) && 0 <= j
            < items.len() ==> (row_of(items[j]) matches Some(row) ==> patch_rows(entries).contains(
            row,
        )),
    decreases entries.len(),
{
    let front = entries.drop_last();
    let all = patch_rows(entries);
    let before = patch_rows(front);
    let middle = rows_in(inserted_by(entries.last()));
    let own = seq![entries.last()];
    assert(own.drop_last() =~= Seq::<YamlView>::empty());
    assert(rows_in(own.drop_last()) =~= Seq::<RowView>::empty());
    assert(all =~= before + middle + rows_in(own));
    if k < entries.len() - 1 {
        every_inserted_row_is_there(front, k, items, j);
        assert(front[k] == entries[k]);
        assert forall|row: RowView| before.contains(row) implies all.contains(row) by {
            let i = choose|i: int| 0 <= i < before.len() && before[i] == row;
            assert(all[i] == row);
        }
    } else {
        if let Some(row) = row_of(entries[k]) {
            assert(rows_in(own) =~= seq![row]);
            assert(all[all.len() - 1] == row);
        }
        if yaml::yaml_under(entries[k], "insert"@) == Some(YamlView::Sequence(items)) && 0 <= j
            < items.len() {
            assert(inserted_by(entries[k]) =~= items);
            if let Some(row) = row_of(items[j]) {
                lemma_row_in(items, j);
                let i = choose|i: int| 0 <= i < middle.len() && middle[i] == row;
                assert(all[before.len() + i] == row);
            }
        }
    }
}

proof fn lemma_row_in(items: Seq<YamlView>, j: int)
    requires
        0 <= j < items.len(),
        row_of(items[j]) is Some,
    ensures
        rows_in(items).contains(row_of(items[j])->0),
    decreases items.len(),
{
    let front = items.drop_last();
    if j < items.len() - 1 {
        lemma_row_in(front, j);
        assert(front[j] == items[j]);
        let row = row_of(items[j])->0;
        let i = choose|i: int| 0 <= i < rows_in(front).len() && rows_in(front)[i] == row;
        assert(rows_in(items)[i] == row);
    } else {
        assert(rows_in(items)[rows_in(front).len() as int] == row_of(items[j])->0);
    }
}

/// The rows that are read out of entries hold every row that an entry inserts or is.
pub proof fn read_rows_hold_every_row(
    entries: &[Yaml],
    k: int,
    items: Seq<YamlView>,
    j: int,
    r: Vec<RowPatch>,
)
    requires
        call_ensures(row_patches, (entries,), r),
        0 <= k < entries@.len(),
    ensures
        row_of(entries@[k]@) matches Some(row) ==> row_views(r@).contains(row),
        yaml::yaml_under(entries@[k]@, "insert"@) == Some(YamlView::Sequence(items)) && 0 <= j
            < items.len() ==> (row_of(items[j]) matches Some(row) ==> row_views(r@).contains(row)),
{
    let all = yaml::entries_view(entries@);
    yaml::lemma_entries_view(entries@);
    assert(all[k] == entries@[k]@);
    every_inserted_row_is_there(all, k, items, j);
}

/// A patch file is read as the entries of the sequence that it holds, whatever mark stands before it;
/// a file that cannot be read, or holds none, has no entries to give.
pub proof fn patch_file_is_read(disk: &Disk, path: &str, text: Seq<char>, r: Option<Vec<Yaml>>)
    requires
        call_ensures(parse_patch_file_opt, (disk, path), r),
        disk::file_at(disk@, path@) == FileView::Text(text),
        text.len() > 0 ==> text[0] != '\u{feff}',
    ensures
        r is Some <==> yaml::yaml_parsed(text) is Some && yaml::yaml_parsed(text)->0 is Sequence,
        r matches Some(v) ==> v@.len() == yaml::yaml_parsed(text)->0->Sequence_0.len()
            && forall|i: int|
            0 <= i < v@.len() ==> (#[trigger] v@[i])@ == yaml::yaml_parsed(text)->0->Sequence_0[i],
{
    assert(order_mark()[0] == '\u{feff}');
    if text.len() > 0 {
        assert(!order_mark().contains(text[0]));
    }
    assert(text::strip_start(text, order_mark()) == text);
    if let Some(v) = r {
        yaml::lemma_entries_view(v@);
    }
}

/// The rows of a bundle are those of the patch file that its manifest names, below its own
/// directory; a bundle that names none has none.
pub proof fn bundle_rows_are_in_its_patch(
    os: Os,
    disk: &Disk,
    dir: &str,
    m: JsonView,
    r: Vec<RowPatch>,
)
    requires
        call_ensures(bundle_row_patches, (os, disk, dir), r),
        json_at(disk@, paths::joined_path(os, dir@, "package.json"@)) == Some(m),
    ensures
        json::at_path(m, seq!["dsh"@, "bundle"@, "patch"@]) matches Some(JsonView::Str(rel)) ==> (
        patch_at(disk@, paths::joined_path(os, dir@, rel)) matches Some(entries) ==> row_views(r@)
            == patch_rows(entries)),
        !(json::at_path(m, seq!["dsh"@, "bundle"@, "patch"@]) matches Some(JsonView::Str(_)))
            ==> r@.len() == 0,
{
    assert(row_views(r@).len() == r@.len());
}

/// A package is a layer just where it can be found and its manifest names a patch file.
pub proof fn layer_names_a_patch(
    site: &Site,
    name: &str,
    dir: Seq<char>,
    m: JsonView,
    r: bool,
)
    requires
        call_ensures(exports_patch, (site, name), r),
    ensures
        bundle_dir(site@, name@) is None ==> !r,
        bundle_dir(site@, name@) == Some(dir) && json_at(
            site@.files,
            paths::joined_path(site@.os, dir, "package.json"@),
        ) == Some(m) ==> (r <==> json::at_path(m, seq!["dsh"@, "bundle"@, "patch"@]) is Some
            && json::at_path(m, seq!["dsh"@, "bundle"@, "patch"@])->0 is Str && json::at_path(
            m,
            seq!["dsh"@, "bundle"@, "patch"@],
        )->0->Str_0.len() > 0),
{
}

/// A package that stands beside DSH in the runtime is found there, and only one that is nowhere above
/// it is sought from the profile. Of several directories the nearest one is taken.
pub proof fn runtime_goes_before_the_profile(site: &Site, name: &str, r: Option<String>)
    requires
        call_ensures(resolve_bundle_dir, (site, name), r),
    ensures
        package_from(
            site@.os,
            site@.files,
            paths::joined_path(
                site@.os,
                paths::joined_path(
                    site@.os,
                    paths::joined_path(
                        site@.os,
                        paths::joined_path(site@.os, site@.runtime, "node_modules"@),
                        "@deepseek-ai"@,
                    ),
                    "dsh"@,
                ),
                "package.json"@,
            ),
            name@,
        ) matches Some(dir) ==> r is Some && r->0@ == dir,
        package_from(
            site@.os,
            site@.files,
            paths::joined_path(
                site@.os,
                paths::joined_path(
                    site@.os,
                    paths::joined_path(
                        site@.os,
                        paths::joined_path(site@.os, site@.runtime, "node_modules"@),
                        "@deepseek-ai"@,
                    ),
                    "dsh"@,
                ),
                "package.json"@,
            ),
            name@,
        ) is None ==> text::opt(r) == package_from(
            site@.os,
            site@.files,
            paths::joined_path(site@.os, site@.profile, "package.json"@),
            name@,
        ),
{
}

/// A package is sought below the directory of the file from which it is used, and then below each
/// directory above that one: the nearest that holds its manifest is taken.
pub proof fn nearest_package_is_taken(
    os: Os,
    disk: &Disk,
    anchor: &str,
    name: &str,
    dir: Seq<char>,
    r: Option<String>,
)
    requires
        call_ensures(package_dir_from_anchor, (os, disk, anchor, name), r),
        paths::parent_of(os, anchor@) == Some(dir),
    ensures
        ({
            let here = paths::joined_path(os, paths::joined_path(os, dir, "node_modules"@), name@);
            &&& disk::present(disk@, paths::joined_path(os, here, "package.json"@)) ==> r is Some
                && r->0@ == here
            &&& !disk::present(disk@, paths::joined_path(os, here, "package.json"@))
                && paths::parent_of(os, dir) is None ==> r is None
            &&& !disk::present(disk@, paths::joined_path(os, here, "package.json"@)) ==> (
            paths::parent_of(os, dir) matches Some(up) ==> ({
                let above = paths::joined_path(
                    os,
                    paths::joined_path(os, up, "node_modules"@),
                    name@,
                );
                disk::present(disk@, paths::joined_path(os, above, "package.json"@)) ==> r is Some
                    && r->0@ == above
            }))
        }),
{
    paths::parent_is_shorter(os, dir);
    reveal_with_fuel(package_above, 3);
}

/// A directory is what was found of a package: its manifest is there, below a `node_modules`.
pub proof fn found_package_has_a_manifest(
    os: Os,
    files: Map<Seq<char>, FileView>,
    dir: Seq<char>,
    name: Seq<char>,
)
    ensures
        package_above(os, files, dir, name) matches Some(found) ==> disk::present(
            files,
            paths::joined_path(os, found, "package.json"@),
        ) && exists|up: Seq<char>|
            found == paths::joined_path(
                os,
                #[trigger] paths::joined_path(os, up, "node_modules"@),
                name,
            ),
    decreases dir.len(),
{
    if !disk::present(files, manifest_path(os, package_in(os, dir, name))) {
        if let Some(up) = paths::parent_of(os, dir) {
            paths::parent_is_shorter(os, dir);
            if up.len() < dir.len() {
                found_package_has_a_manifest(os, files, up, name);
            }
        }
    } else {
        let base = paths::joined_path(os, dir, "node_modules"@);
        assert(package_in(os, dir, name) == paths::joined_path(os, base, name));
    }
}

/// What the profile depends on and names is what its manifest says, in the order in which it says it.
pub proof fn manifest_says_dependencies_and_bundles(
    manifest: &Json,
    deps: Seq<(Seq<char>, JsonView)>,
    named: Seq<JsonView>,
    keys: Vec<String>,
    bundles: Vec<String>,
)
    requires
        call_ensures(dep_keys, (manifest,), keys),
        call_ensures(bundles_of, (manifest,), bundles),
    ensures
        json::member(manifest@, "dependencies"@) == Some(JsonView::Object(deps)) ==> keys@.len()
            == deps.len() && forall|i: int|
            0 <= i < deps.len() ==> text::strs(keys@)[i] == (#[trigger] deps[i]).0,
        json::member(manifest@, "dependencies"@) is None ==> keys@.len() == 0,
        json::at_path(manifest@, seq!["dsh"@, "profile"@, "bundles"@]) == Some(
            JsonView::Array(named),
        ) ==> text::strs(bundles@) == named.filter(|v: JsonView| v is Str).map_values(
            |v: JsonView| v->Str_0,
        ),
        json::at_path(manifest@, seq!["dsh"@, "profile"@, "bundles"@]) is None ==> bundles@.len()
            == 0,
{
    assert(text::strs(keys@).len() == keys@.len());
    assert(text::strs(bundles@).len() == bundles@.len());
    lemma_texts_in(named);
}

proof fn lemma_texts_in(items: Seq<JsonView>)
    ensures
        json::texts_in(items) == items.filter(|v: JsonView| v is Str).map_values(
            |v: JsonView| v->Str_0,
        ),
    decreases items.len(),
{
    let is_text = |v: JsonView| v is Str;
    let text_in = |v: JsonView| v->Str_0;
    reveal(Seq::filter);
    if items.len() > 0 {
        lemma_texts_in(items.drop_last());
        let front = items.drop_last().filter(is_text);
        if is_text(items.last()) {
            assert(items.filter(is_text) == front.push(items.last()));
            assert(front.push(items.last()).map_values(text_in) =~= front.map_values(text_in).push(
                text_in(items.last()),
            ));
        } else {
            assert(items.filter(is_text) == front);
        }
    } else {
        assert(json::texts_in(items) =~= items.filter(is_text).map_values(text_in));
    }
}

/// A manifest is read as the object that its file holds; a file that is not there, is no JSON, or
/// holds something else is told apart.
pub proof fn manifest_is_an_object(
    os: Os,
    disk: &Disk,
    dir: &str,
    text: Seq<char>,
    r: Result<Json, String>,
)
    requires
        call_ensures(read_manifest, (os, disk, dir), r),
        disk::file_at(disk@, paths::joined_path(os, dir@, "package.json"@)) == FileView::Text(text),
    ensures
        r is Ok <==> json::json_parsed(text) is Ok && json::json_parsed(text)->Ok_0 is Object,
        r matches Ok(j) ==> j@ == json::json_parsed(text)->Ok_0,
        json::json_parsed(text) matches Err(e) ==> r->Err_0@ == "profile 配置不是有效 JSON（"@
            + paths::joined_path(os, dir@, "package.json"@) + "）: "@ + e,
{
}

/// A version is what the manifest of a package says under that name.
pub proof fn version_is_in_the_manifest(
    os: Os,
    disk: &Disk,
    dir: &str,
    m: JsonView,
    r: Option<String>,
)
    requires
        call_ensures(read_version, (os, disk, dir), r),
        json_at(disk@, paths::joined_path(os, dir@, "package.json"@)) == Some(m),
    ensures
        json::member(m, "version"@) matches Some(JsonView::Str(v)) ==> r is Some && r->0@ == v,
        !(json::member(m, "version"@) matches Some(JsonView::Str(_))) ==> r is None,
{
}

/// The data directory is the one that is configured, unless that is blank; a tilde in it means the
/// home directory, and a relative one is seen from the working directory. Else it is `.dsh` in the
/// home directory.
pub proof fn data_directory_is_the_configured_one(
    os: Os,
    configured: Option<&str>,
    home: Option<&str>,
    cwd: Option<&str>,
    r: String,
)
    requires
        call_ensures(dsh_home_from, (os, configured, home, cwd), r),
    ensures
        configured is Some && text::trim(configured->0@).len() > 0 && paths::absolute(
            os,
            configured->0@,
        ) && configured->0@[0] != '~' ==> r@ == configured->0@,
        configured is Some && configured->0@ == "~"@ && text::trim(configured->0@).len() > 0
            && home is Some && paths::absolute(os, home->0@) ==> r@ == home->0@,
        (configured is None || text::trim(configured->0@).len() == 0) && home is Some ==> r@
            == paths::joined_path(os, home->0@, ".dsh"@),
        (configured is None || text::trim(configured->0@).len() == 0) && home is None ==> r@
            == ".dsh"@,
        configured is Some && text::trim(configured->0@).len() > 0 && !paths::absolute(
            os,
            configured->0@,
        ) && configured->0@.len() > 0 && configured->0@[0] != '~' && cwd is Some ==> r@
            == paths::joined_path(os, cwd->0@, configured->0@),
{
    reveal_strlit("~");
}

/// The profile of the application lies below the data directory.
pub proof fn profile_lies_below_the_data_directory(os: Os, home: &str, r: String)
    requires
        call_ensures(profile_dir, (os, home), r),
    ensures
        r@ == paths::joined_path(os, paths::joined_path(os, home@, "profiles"@), "web"@),
{
}

/// A new profile gets a manifest with the two bundles that every profile has, a patch file without
/// entries, and a workspace file; what is there is not written.
pub proof fn new_profile_has_its_files(
    os: Os,
    disk: &Disk,
    dir: &str,
    r: Result<Vec<FileWrite>, String>,
)
    requires
        call_ensures(ensure_profile, (os, disk, dir), r),
        !disk::present(disk@, paths::joined_path(os, dir@, "package.json"@)),
        !disk::present(disk@, paths::joined_path(os, dir@, "cordis.patch.yml"@)),
        !disk::present(disk@, paths::joined_path(os, dir@, "pnpm-workspace.yaml"@)),
        r is Ok,
    ensures
        r->Ok_0@.len() == 3,
        r->Ok_0@[0].path@ == paths::joined_path(os, dir@, "package.json"@),
        r->Ok_0@[1].path@ == paths::joined_path(os, dir@, "cordis.patch.yml"@),
        r->Ok_0@[2].path@ == paths::joined_path(os, dir@, "pnpm-workspace.yaml"@),
        json::json_parsed(r->Ok_0@[0].text@) is Ok,
        ({
            let m = json::json_parsed(r->Ok_0@[0].text@)->Ok_0;
            &&& bundles_in(m) == seq!["@deepseek-ai/dsh-base"@, "@deepseek-ai/dsh-web-app"@]
            &&& dependencies(m).len() == 0
            &&& paths::name_of(os, dir@) matches Some(name) ==> json::member(m, "name"@) == Some(
                JsonView::Str("dsh-profile-"@ + name),
            )
            &&& json::member(m, "private"@) == Some(JsonView::Bool(true))
        }),
        patch_entries(r->Ok_0@[1].text@) == Some(Seq::<YamlView>::empty()),
        r->Ok_0@[2].text@ == "packages:\n  - .\n\nnodeLinker: hoisted\nautoInstallPeers: false\n"@,
{
    let w = writes(r->Ok_0@);
    assert(w.len() == r->Ok_0@.len());
    assert(w[0] == r->Ok_0@[0]@ && w[1] == r->Ok_0@[1]@ && w[2] == r->Ok_0@[2]@);
    let m = first_manifest(profile_name(os, dir@));
    lemma_first_manifest_says(profile_name(os, dir@));
}

proof fn lemma_first_manifest_says(name: Seq<char>)
    ensures
        ({
            let m = first_manifest(name);
            &&& bundles_in(m) == seq!["@deepseek-ai/dsh-base"@, "@deepseek-ai/dsh-web-app"@]
            &&& dependencies(m).len() == 0
            &&& json::member(m, "name"@) == Some(JsonView::Str("dsh-profile-"@ + name))
            &&& json::member(m, "private"@) == Some(JsonView::Bool(true))
        }),
{
    let m = first_manifest(name);
    let members = m->Object_0;
    reveal_strlit("dependencies");
    reveal_strlit("dsh");
    reveal_strlit("name");
    reveal_strlit("private");
    reveal_strlit("profile");
    reveal_strlit("bundles");
    assert("dependencies"@.len() == 12 && "dsh"@.len() == 3 && "name"@.len() == 4 && "private"@.len()
        == 7);
    reveal_with_fuel(json::lookup, 6);
    let r1 = members.subrange(1, 4);
    let r2 = r1.subrange(1, 3);
    let r3 = r2.subrange(1, 2);
    assert(r1[0] == members[1] && r2[0] == members[2] && r3[0] == members[3]);
    assert(json::lookup(members, "dsh"@) == Some(layers_value(template_items())));
    let path = bundles_path();
    let rest = path.subrange(1, 3);
    let last = rest.subrange(1, 2);
    assert(rest[0] == "profile"@ && last[0] == "bundles"@);
    assert(last.subrange(1, 1).len() == 0);
    reveal_with_fuel(json::at_path, 5);
    assert(json::at_path(m, path) == Some(JsonView::Array(template_items())));
    let items = template_items();
    reveal_with_fuel(json::texts_in, 4);
    assert(items.drop_last().drop_last() =~= Seq::<JsonView>::empty());
    assert(json::texts_in(items) =~= template_bundles());
}

/// Once a profile is reconciled, it names each dependency that is a layer, and of the other bundles
/// those that never were a dependency; its other entries stay.
pub proof fn reconciled_profile_names_its_layers(
    site: &Site,
    before: &[String],
    m: JsonView,
    text: String,
    name: Seq<char>,
    r: Result<Option<String>, String>,
)
    requires
        call_ensures(reconcile, (site, before), r),
        manifest_at(site@.os, site@.files, site@.profile) == Ok::<JsonView, Seq<char>>(m),
        json::ordered(m),
        r == Ok::<Option<String>, String>(Some(text)),
        reconciled(site@, text::strs(before@), m) is Some,
        json::exact(reconciled(site@, text::strs(before@), m)->0, json::DEPTH_LIMIT as nat),
    ensures
        json::json_parsed(text@) is Ok,
        ({
            let after = json::json_parsed(text@)->Ok_0;
            &&& bundles_in(after).contains(name) <==> (if dependencies(m).contains(name) {
                is_layer(site@, name)
            } else {
                bundles_in(m).contains(name) && !text::strs(before@).contains(name)
            })
            &&& dependencies(after) == dependencies(m)
            &&& name != "dsh"@ ==> json::member(after, name) == json::member(m, name)
        }),
{
    let old_deps = text::strs(before@);
    reconciling_changes_bundles_only(site@, old_deps, m);
    reconciled_bundles(site@, old_deps, dependencies(m), bundles_in(m), name);
}

/// The text that switches a row goes beside the patch file, into one that then takes its place; a
/// patch file that cannot be read is told of.
pub proof fn switch_is_written_beside_the_file(
    os: Os,
    disk: &Disk,
    path: &str,
    id: &str,
    disabled: bool,
    r: Result<PatchWrite, String>,
)
    requires
        call_ensures(append_disable_row, (os, disk, path, id, disabled), r),
    ensures
        r matches Ok(w) ==> {
            &&& w.temp@ == paths::with_extension_of(os, path@, "yml.tmp"@)
            &&& patch_entries(w.text@) is Some
            &&& patch_rows(patch_entries(w.text@)->0).len() > 0
            &&& patch_rows(patch_entries(w.text@)->0).last().id == id@
            &&& patch_rows(patch_entries(w.text@)->0).last().disabled == Some(disabled)
            &&& patch_rows(patch_entries(w.text@)->0).drop_last() == patch_rows(
                patch_at(disk@, path@)->0,
            )
        },
        disk::contents(disk@, path@) matches Err(e) ==> r is Err && r->Err_0@
            == "读取补丁文件失败（"@ + path@ + "）: "@ + e,
{
    if let Ok(w) = r {
        let old_rows = patch_rows(patch_at(disk@, path@)->0);
        let row = switched_row(id@, disabled);
        assert(old_rows.push(row).drop_last() =~= old_rows);
    }
}

/// The patch file of a package is the one that its manifest names, below its own directory.
pub proof fn patch_is_named_by_the_manifest(
    os: Os,
    disk: &Disk,
    dir: &str,
    m: JsonView,
    r: Option<String>,
)
    requires
        call_ensures(patch_question, (os, disk, dir), r),
        json_at(disk@, paths::joined_path(os, dir@, "package.json"@)) == Some(m),
    ensures
        json::at_path(m, seq!["dsh"@, "bundle"@, "patch"@]) matches Some(JsonView::Str(rel)) ==> r
            is Some && r->0@ == paths::joined_path(os, dir@, rel),
        !(json::at_path(m, seq!["dsh"@, "bundle"@, "patch"@]) matches Some(JsonView::Str(_))) ==> r
            is None,
{
}

/// A file of JSON is known by the value that its text is read as, and else not at all.
pub proof fn json_file_is_its_value(
    files: Map<Seq<char>, FileView>,
    path: Seq<char>,
    text: Seq<char>,
)
    ensures
        disk::file_at(files, path) == FileView::Text(text) ==> (json_at(files, path) is Some
            <==> json::json_parsed(text) is Ok),
        disk::file_at(files, path) == FileView::Text(text) ==> (json::json_parsed(text) matches Ok(
            v,
        ) ==> json_at(files, path) == Some(v)),
        !(disk::file_at(files, path) is Text) ==> json_at(files, path) is None,
{
}

} // verus!
