//! Plugins: which are installed, how they are added, removed and switched.
pub mod plugin_market;
pub mod plugin_npm;
pub mod plugin_profile;

use crate::disk;
use crate::disk::{Disk, FileView};
use crate::json;
use crate::json::{Json, JsonView, collect_texts, parse_json, print_compact, text_of};
use crate::paths;
use crate::paths::{Os, is_absolute, join_path};
use crate::plugins::plugin_npm::{GIT_TIMEOUT, NPM_TIMEOUT, registry_flag};
use crate::plugins::plugin_profile::{
    PatchWrite, RowPatch, RowView, Site, SiteView, append_disable_row, bundle_row_patches,
    bundles_of, dep_keys, exports_patch, parse_patch_file_opt, profile_dir, read_manifest,
    read_version, reconcile, resolve_bundle_dir, row_patches,
};
use crate::text;
use crate::text::{
    begins, cat, chars, copy_list, cut, cut_end_all, ends, holds, in_list, is_space, same,
    string_of, trimmed,
};
use vstd::prelude::*;

verus! {

/// A row of a plugin, as it is shown.
#[derive(Debug)]
pub struct PluginRow {
    pub id: String,
    pub name: Option<String>,
    pub enabled: bool,
    pub managed: bool,
    pub home_layer: bool,
}

/// A plugin, as it is shown.
#[derive(Debug)]
pub struct PluginInfo {
    pub name: String,
    pub version: String,
    pub spec: String,
    pub source: String,
    pub builtin: bool,
    pub is_bundle: bool,
    pub rows: Vec<PluginRow>,
    pub restart_required: bool,
}

/// All plugins, as they are shown.
#[derive(Debug)]
pub struct PluginsListData {
    pub plugins: Vec<PluginInfo>,
    pub service_restart_required: bool,
    pub profile_dir: String,
    pub initialized: bool,
}

/// What came of adding a plugin.
#[derive(Debug)]
pub struct PluginAddResult {
    pub name: String,
    pub version: String,
    pub restart_required: bool,
    pub warning: Option<String>,
}

/// The bundles that the service was last started with.
#[derive(Debug)]
pub struct Snapshot {
    pub profile: String,
    pub recorded_at: u64,
    pub bundles: Vec<SnapshotBundle>,
}

/// A bundle that the service was last started with.
#[derive(Debug)]
pub struct SnapshotBundle {
    pub name: String,
    pub version: Option<String>,
}

/// Where the snapshot is kept.
pub fn snapshot_path(os: Os, app_data: &str) -> (r: String)
    ensures
        r@ == paths::joined_path(os, app_data@, "plugins-state.json"@),
{
    join_path(os, app_data, "plugins-state.json")
}

/// The names and versions in a snapshot.
pub open spec fn snapped(v: Seq<SnapshotBundle>) -> Seq<(Seq<char>, Option<Seq<char>>)> {
    Seq::new(v.len(), |i: int| (v[i].name@, text::opt(v[i].version)))
}

/// The names and versions in an optional snapshot.
pub open spec fn opt_snapped(s: Option<&Snapshot>) -> Option<
    Seq<(Seq<char>, Option<Seq<char>>)>,
> {
    match s {
        Some(x) => Some(snapped(x.bundles@)),
        None => None,
    }
}

/// The version under the first entry of that name.
pub open spec fn version_in(
    list: Seq<(Seq<char>, Option<Seq<char>>)>,
    name: Seq<char>,
) -> Option<Option<Seq<char>>>
    decreases list.len(),
{
    if list.len() == 0 {
        None
    } else if list[0].0 == name {
        Some(list[0].1)
    } else {
        version_in(list.subrange(1, list.len() as int), name)
    }
}

/// Whether a bundle is not what the service was last started with: it was not among the
/// bundles, or it had another version. Without a snapshot nothing is said.
pub open spec fn differs(
    snap: Option<Seq<(Seq<char>, Option<Seq<char>>)>>,
    name: Seq<char>,
    version: Seq<char>,
) -> bool {
    match snap {
        None => false,
        Some(list) => match version_in(list, name) {
            None => true,
            Some(v) => version != "-"@ && v != Some(version),
        },
    }
}

/// Whether a bundle is not what the service was last started with.
pub fn snapshot_differs(snap: Option<&Snapshot>, name: &str, version: &str) -> (r: bool)
    ensures
        r == differs(opt_snapped(snap), name@, version@),
{
    let s = match snap {
        Some(x) => x,
        None => {
            return false;
        },
    };
    let ghost all = snapped(s.bundles@);
    assert(all.subrange(0, all.len() as int) =~= all);
    for i in 0..s.bundles.len()
        invariant
            all == snapped(s.bundles@),
            opt_snapped(snap) == Some(all),
            version_in(all, name@) == version_in(
                all.subrange(i as int, all.len() as int),
                name@,
            ),
    {
        let ghost rest = all.subrange(i as int, all.len() as int);
        assert(rest[0] == all[i as int]);
        assert(rest.subrange(1, rest.len() as int) =~= all.subrange(i + 1, all.len() as int));
        if same(s.bundles[i].name.as_str(), name) {
            let equal = match &s.bundles[i].version {
                Some(v) => same(v.as_str(), version),
                None => false,
            };
            return !same(version, "-") && !equal;
        }
    }
    true
}

/// The name and version of each bundle that stands in a list.
pub open spec fn versions_of(site: SiteView, names: Seq<Seq<char>>) -> Seq<
    (Seq<char>, Option<Seq<char>>),
> {
    Seq::new(names.len(), |i: int| (names[i], version_found(site, names[i])))
}

/// The version of a package, where it can be found.
pub open spec fn version_found(site: SiteView, name: Seq<char>) -> Option<Seq<char>> {
    match plugin_profile::bundle_dir(site, name) {
        Some(dir) => plugin_profile::version_at(site.os, site.files, dir),
        None => None,
    }
}

fn find_version(site: &Site, name: &str) -> (r: Option<String>)
    ensures
        text::opt(r) == version_found(site@, name@),
{
    match resolve_bundle_dir(site, name) {
        Some(dir) => read_version(site.os, site.disk, dir.as_str()),
        None => None,
    }
}

/// The bundles to remember as those that the service was started with: what the manifest of the
/// profile names, where it names a list and both directories are known.
pub open spec fn remembered_bundles(site: SiteView, app_data: Seq<char>) -> Option<
    Seq<(Seq<char>, Option<Seq<char>>)>,
> {
    if site.runtime.len() == 0 || app_data.len() == 0 {
        None
    } else {
        match plugin_profile::manifest_at(site.os, site.files, site.profile) {
            Err(_) => None,
            Ok(m) => match json::at_path(m, plugin_profile::bundles_path()) {
                Some(JsonView::Array(items)) => Some(versions_of(site, json::texts_in(items))),
                _ => None,
            },
        }
    }
}

proof fn lemma_version_in(site: SiteView, names: Seq<Seq<char>>, name: Seq<char>)
    requires
        names.contains(name),
    ensures
        version_in(versions_of(site, names), name) == Some(version_found(site, name)),
    decreases names.len(),
{
    let list = versions_of(site, names);
    if names[0] != name {
        let rest = names.subrange(1, names.len() as int);
        let k = choose|k: int| 0 <= k < names.len() && names[k] == name;
        assert(rest[k - 1] == name);
        lemma_version_in(site, rest, name);
        assert(list.subrange(1, list.len() as int) =~= versions_of(site, rest));
    }
}

/// Right after the service was started, no bundle that it was started with asks for a restart, and
/// none of them is missing.
pub proof fn fresh_snapshot_asks_no_restart(site: SiteView, names: Seq<Seq<char>>, name: Seq<char>)
    requires
        names.contains(name),
    ensures
        !differs(Some(versions_of(site, names)), name, version_shown(site, name)),
        !lost_bundle(Some(versions_of(site, names)), names),
{
    lemma_version_in(site, names, name);
    let list = versions_of(site, names);
    assert forall|i: int| 0 <= i < list.len() implies !#[trigger] is_gone(list[i], names) by {
        assert(names[i] == list[i].0);
    }
}

/// The snapshot to keep when the service has been started at `now`, in seconds.
pub fn write_snapshot(site: &Site, app_data: &str, now: u64) -> (r: Option<Snapshot>)
    ensures
        snapshot_at(site@, app_data@, now, r),
{
    if chars(site.runtime).len() == 0 || chars(app_data).len() == 0 {
        return None;
    }
    let manifest = match read_manifest(site.os, site.disk, site.profile) {
        Ok(m) => m,
        Err(_) => {
            return None;
        },
    };
    let path: Vec<&str> = vec!["dsh", "profile", "bundles"];
    assert(json::slices(path@) =~= plugin_profile::bundles_path());
    let listed = manifest.pointer(path.as_slice());
    match listed {
        Some(Json::Array(_)) => {},
        _ => {
            return None;
        },
    }
    let names = collect_texts(listed);
    let ghost all = versions_of(site@, text::strs(names@));
    let mut bundles: Vec<SnapshotBundle> = Vec::new();
    for i in 0..names.len()
        invariant
            all == versions_of(site@, text::strs(names@)),
            snapped(bundles@) == all.subrange(0, i as int),
    {
        let ghost before = bundles@;
        let version = find_version(site, names[i].as_str());
        bundles.push(SnapshotBundle { name: names[i].clone(), version });
        assert(text::strs(names@)[i as int] == names@[i as int]@);
        assert(snapped(bundles@) =~= snapped(before).push(all[i as int]));
        assert(snapped(bundles@) =~= all.subrange(0, i + 1));
    }
    assert(all.subrange(0, all.len() as int) =~= all);
    Some(Snapshot { profile: "web".to_owned(), recorded_at: now, bundles })
}

/// Whether a snapshot is the one to keep when the service has been started at `now`, in seconds.
pub open spec fn snapshot_at(site: SiteView, app_data: Seq<char>, now: u64, r: Option<Snapshot>) -> bool {
    match remembered_bundles(site, app_data) {
        Some(list) => {
            &&& r is Some
            &&& r->0.profile@ == "web"@
            &&& r->0.recorded_at == now
            &&& snapped(r->0.bundles@) == list
        },
        None => r is None,
    }
}

/// The snapshot to keep when the service has been restarted at `now`, in seconds. While an
/// operation is under way none is kept.
pub fn record_restart(under_way: bool, site: &Site, app_data: &str, now: u64) -> (r: Option<
    Snapshot,
>)
    ensures
        if under_way {
            r is None
        } else {
            snapshot_at(site@, app_data@, now, r)
        },
{
    if under_way {
        return None;
    }
    write_snapshot(site, app_data, now)
}

/// The snapshot to keep when an operation itself has restarted the service at `now`, in seconds.
pub fn record_restart_force(site: &Site, app_data: &str, now: u64) -> (r: Option<Snapshot>)
    ensures
        snapshot_at(site@, app_data@, now, r),
{
    write_snapshot(site, app_data, now)
}

/// Whether a text names a git repository by its scheme.
pub open spec fn git_scheme(spec: Seq<char>) -> bool {
    "git+"@.is_prefix_of(spec) || "github:"@.is_prefix_of(spec) || "git://"@.is_prefix_of(spec)
}

fn has_git_scheme(spec: &str) -> (r: bool)
    ensures
        r == git_scheme(spec@),
{
    begins(spec, "git+") || begins(spec, "github:") || begins(spec, "git://")
}

/// Where a dependency comes from.
pub open spec fn source_of(os: Os, spec: Seq<char>) -> Seq<char> {
    if "file:"@.is_prefix_of(spec) || paths::absolute(os, spec) {
        "file"@
    } else if git_scheme(spec) || text::contains(spec, ".git"@) {
        "git"@
    } else {
        "npm"@
    }
}

/// Where a dependency comes from.
pub fn classify_dep_source(os: Os, spec: &str) -> (r: String)
    ensures
        r@ == source_of(os, spec@),
{
    if begins(spec, "file:") || is_absolute(os, spec) {
        "file".to_owned()
    } else if has_git_scheme(spec) || holds(spec, ".git") {
        "git".to_owned()
    } else {
        "npm".to_owned()
    }
}

/// What the last row of that id says, among those that say anything.
pub open spec fn last_word(id: Seq<char>, rows: Seq<RowView>) -> Option<bool>
    decreases rows.len(),
{
    if rows.len() == 0 {
        None
    } else if rows.last().id == id && rows.last().disabled is Some {
        rows.last().disabled
    } else {
        last_word(id, rows.drop_last())
    }
}

/// What layers say of a row: the last layer that says anything decides.
pub open spec fn composed_word(id: Seq<char>, layers: Seq<Seq<RowView>>) -> Option<bool>
    decreases layers.len(),
{
    if layers.len() == 0 {
        None
    } else {
        match last_word(id, layers.last()) {
            Some(d) => Some(d),
            None => composed_word(id, layers.drop_last()),
        }
    }
}

/// Whether a row is enabled under layers: unless they say otherwise it is.
pub open spec fn row_enabled(id: Seq<char>, layers: Seq<Seq<RowView>>) -> bool {
    composed_word(id, layers) != Some(true)
}

/// Whether the last layer, which is that of the user's home, says anything of a row.
pub open spec fn home_says(id: Seq<char>, layers: Seq<Seq<RowView>>) -> bool {
    layers.len() > 0 && last_word(id, layers.last()) is Some
}

/// Layers with texts as characters.
pub open spec fn layer_views(v: Seq<Vec<RowPatch>>) -> Seq<Seq<RowView>> {
    Seq::new(v.len(), |i: int| plugin_profile::row_views(v[i]@))
}

/// What a layer says of a row goes before all that layers under it say.
pub proof fn upper_layer_wins(id: Seq<char>, layers: Seq<Seq<RowView>>, top: Seq<RowView>)
    ensures
        last_word(id, top) matches Some(d) ==> row_enabled(id, layers.push(top)) == !d,
        last_word(id, top) is None ==> row_enabled(id, layers.push(top)) == row_enabled(
            id,
            layers,
        ),
{
    assert(layers.push(top).drop_last() =~= layers);
}

fn read_last_word(id: &str, rows: &[RowPatch]) -> (r: Option<bool>)
    ensures
        r == last_word(id@, plugin_profile::row_views(rows@)),
{
    let ghost all = plugin_profile::row_views(rows@);
    let mut i: usize = rows.len();
    assert(all.subrange(0, all.len() as int) =~= all);
    while i > 0
        invariant
            i <= rows@.len(),
            all == plugin_profile::row_views(rows@),
            last_word(id@, all) == last_word(id@, all.subrange(0, i as int)),
        decreases i,
    {
        assert(all.subrange(0, i as int).drop_last() =~= all.subrange(0, i - 1));
        assert(all.subrange(0, i as int).last() == rows@[i - 1]@);
        if rows[i - 1].disabled.is_some() && same(rows[i - 1].id.as_str(), id) {
            return rows[i - 1].disabled;
        }
        i = i - 1;
    }
    None
}

/// Whether a row is enabled under layers, and whether the last of them, which is that of the
/// user's home, says so.
pub fn composed_enabled(id: &str, layers: &[Vec<RowPatch>]) -> (r: (bool, bool))
    ensures
        r.0 == row_enabled(id@, layer_views(layers@)),
        r.1 == home_says(id@, layer_views(layers@)),
{
    let ghost all = layer_views(layers@);
    let n: usize = layers.len();
    if n == 0 {
        return (true, false);
    }
    assert(all.last() == plugin_profile::row_views(layers@[n - 1]@));
    let home = read_last_word(id, layers[n - 1].as_slice());
    let mut i: usize = n;
    let mut word: Option<bool> = None;
    assert(all.subrange(0, all.len() as int) =~= all);
    while i > 0 && word.is_none()
        invariant
            i <= layers@.len(),
            all == layer_views(layers@),
            word is None ==> composed_word(id@, all) == composed_word(
                id@,
                all.subrange(0, i as int),
            ),
            word is Some ==> composed_word(id@, all) == word,
        decreases i,
    {
        assert(all.subrange(0, i as int).drop_last() =~= all.subrange(0, i - 1));
        assert(all.subrange(0, i as int).last() == plugin_profile::row_views(layers@[i - 1]@));
        word = read_last_word(id, layers[i - 1].as_slice());
        i = i - 1;
    }
    let enabled = match word {
        Some(d) => !d,
        None => true,
    };
    (enabled, home.is_some())
}

/// A row of a plugin with its texts as characters.
#[verifier::ext_equal]
pub struct RowShown {
    pub id: Seq<char>,
    pub name: Option<Seq<char>>,
    pub enabled: bool,
    pub managed: bool,
    pub home_layer: bool,
}

impl View for PluginRow {
    type V = RowShown;

    open spec fn view(&self) -> RowShown {
        RowShown {
            id: self.id@,
            name: text::opt(self.name),
            enabled: self.enabled,
            managed: self.managed,
            home_layer: self.home_layer,
        }
    }
}

/// A plugin with its texts as characters.
#[verifier::ext_equal]
pub struct InfoShown {
    pub name: Seq<char>,
    pub version: Seq<char>,
    pub spec: Seq<char>,
    pub source: Seq<char>,
    pub builtin: bool,
    pub is_bundle: bool,
    pub rows: Seq<RowShown>,
    pub restart_required: bool,
}

/// Rows with texts as characters.
pub open spec fn rows_shown(v: Seq<PluginRow>) -> Seq<RowShown> {
    Seq::new(v.len(), |i: int| v[i]@)
}

impl View for PluginInfo {
    type V = InfoShown;

    open spec fn view(&self) -> InfoShown {
        InfoShown {
            name: self.name@,
            version: self.version@,
            spec: self.spec@,
            source: self.source@,
            builtin: self.builtin,
            is_bundle: self.is_bundle,
            rows: rows_shown(self.rows@),
            restart_required: self.restart_required,
        }
    }
}

/// Plugins with texts as characters.
pub open spec fn infos(v: Seq<PluginInfo>) -> Seq<InfoShown> {
    Seq::new(v.len(), |i: int| v[i]@)
}

/// Whether one of the rows has that id.
pub open spec fn has_row(rows: Seq<RowShown>, id: Seq<char>) -> bool {
    exists|i: int| 0 <= i < rows.len() && (#[trigger] rows[i]).id == id
}

/// How rows are shown: each id once, as its first row has it, switched as the layers say.
pub open spec fn shown_rows(rows: Seq<RowView>, layers: Seq<Seq<RowView>>) -> Seq<RowShown>
    decreases rows.len(),
{
    if rows.len() == 0 {
        Seq::empty()
    } else {
        let before = shown_rows(rows.drop_last(), layers);
        let row = rows.last();
        if has_row(before, row.id) {
            before
        } else {
            before.push(
                RowShown {
                    id: row.id,
                    name: row.name,
                    enabled: row_enabled(row.id, layers),
                    managed: !home_says(row.id, layers),
                    home_layer: home_says(row.id, layers),
                },
            )
        }
    }
}

fn row_is_in(rows: &[PluginRow], id: &str) -> (r: bool)
    ensures
        r == has_row(rows_shown(rows@), id@),
{
    for i in 0..rows.len()
        invariant
            forall|k: int| 0 <= k < i ==> (#[trigger] rows_shown(rows@)[k]).id != id@,
    {
        if same(rows[i].id.as_str(), id) {
            assert(rows_shown(rows@)[i as int].id == id@);
            return true;
        }
    }
    false
}

fn show_rows(patches: &[RowPatch], layers: &[Vec<RowPatch>]) -> (r: Vec<PluginRow>)
    ensures
        rows_shown(r@) == shown_rows(plugin_profile::row_views(patches@), layer_views(layers@)),
{
    let ghost all = plugin_profile::row_views(patches@);
    let ghost under = layer_views(layers@);
    let mut out: Vec<PluginRow> = Vec::new();
    assert(rows_shown(out@) =~= shown_rows(all.subrange(0, 0), under));
    for i in 0..patches.len()
        invariant
            all == plugin_profile::row_views(patches@),
            under == layer_views(layers@),
            rows_shown(out@) == shown_rows(all.subrange(0, i as int), under),
    {
        let ghost before = out@;
        assert(all.subrange(0, i + 1).drop_last() =~= all.subrange(0, i as int));
        assert(all.subrange(0, i + 1).last() == patches@[i as int]@);
        if !row_is_in(out.as_slice(), patches[i].id.as_str()) {
            let (enabled, home) = composed_enabled(patches[i].id.as_str(), layers);
            let row = PluginRow {
                id: patches[i].id.clone(),
                name: patches[i].name.clone(),
                enabled,
                managed: !home,
                home_layer: home,
            };
            out.push(row);
            assert(rows_shown(out@) =~= rows_shown(before).push(row@));
        }
    }
    assert(all.subrange(0, all.len() as int) =~= all);
    out
}

/// The version that is shown of a package: a dash where it is not known.
pub open spec fn version_shown(site: SiteView, name: Seq<char>) -> Seq<char> {
    match version_found(site, name) {
        Some(v) => v,
        None => "-"@,
    }
}

fn show_version(site: &Site, name: &str) -> (r: String)
    ensures
        r@ == version_shown(site@, name@),
{
    match find_version(site, name) {
        Some(v) => v,
        None => "-".to_owned(),
    }
}

/// The rows that the patch of a package speaks of, where the package can be found.
pub open spec fn package_rows(site: SiteView, name: Seq<char>) -> Seq<RowView> {
    match plugin_profile::bundle_dir(site, name) {
        Some(dir) => plugin_profile::bundle_rows(site.os, site.files, dir),
        None => Seq::empty(),
    }
}

fn read_package_rows(site: &Site, name: &str) -> (r: Vec<RowPatch>)
    ensures
        plugin_profile::row_views(r@) == package_rows(site@, name@),
{
    match resolve_bundle_dir(site, name) {
        Some(dir) => bundle_row_patches(site.os, site.disk, dir.as_str()),
        None => {
            let none: Vec<RowPatch> = Vec::new();
            assert(plugin_profile::row_views(none@) =~= Seq::<RowView>::empty());
            none
        },
    }
}

/// The rows that a patch file speaks of.
pub open spec fn file_rows(files: Map<Seq<char>, FileView>, path: Seq<char>) -> Seq<RowView> {
    match plugin_profile::patch_at(files, path) {
        Some(entries) => plugin_profile::patch_rows(entries),
        None => Seq::empty(),
    }
}

fn read_file_rows(disk: &Disk, path: &str) -> (r: Vec<RowPatch>)
    ensures
        plugin_profile::row_views(r@) == file_rows(disk@, path@),
{
    match parse_patch_file_opt(disk, path) {
        Some(entries) => row_patches(entries.as_slice()),
        None => {
            let none: Vec<RowPatch> = Vec::new();
            assert(plugin_profile::row_views(none@) =~= Seq::<RowView>::empty());
            none
        },
    }
}

/// The layers of a profile, from the lowest up: its bundles, its own patch file, and that of the
/// user's home.
pub open spec fn layers_of(site: SiteView, home: Seq<char>, bundles: Seq<Seq<char>>) -> Seq<
    Seq<RowView>,
> {
    Seq::new(bundles.len(), |i: int| package_rows(site, bundles[i])) + seq![
        file_rows(site.files, paths::joined_path(site.os, site.profile, "cordis.patch.yml"@)),
        file_rows(site.files, paths::joined_path(site.os, home, "cordis.patch.yml"@)),
    ]
}

fn read_layers(site: &Site, home: &str, bundles: &[String]) -> (r: Vec<Vec<RowPatch>>)
    ensures
        layer_views(r@) == layers_of(site@, home@, text::strs(bundles@)),
{
    let ghost all = Seq::new(
        text::strs(bundles@).len(),
        |i: int| package_rows(site@, text::strs(bundles@)[i]),
    );
    let mut out: Vec<Vec<RowPatch>> = Vec::new();
    for i in 0..bundles.len()
        invariant
            all == Seq::new(
                text::strs(bundles@).len(),
                |i: int| package_rows(site@, text::strs(bundles@)[i]),
            ),
            layer_views(out@) == all.subrange(0, i as int),
    {
        let ghost before = out@;
        let rows = read_package_rows(site, bundles[i].as_str());
        assert(text::strs(bundles@)[i as int] == bundles@[i as int]@);
        out.push(rows);
        assert(layer_views(out@) =~= layer_views(before).push(all[i as int]));
        assert(layer_views(out@) =~= all.subrange(0, i + 1));
    }
    assert(layer_views(out@) =~= all);
    let own = join_path(site.os, site.profile, "cordis.patch.yml");
    out.push(read_file_rows(site.disk, own.as_str()));
    let users = join_path(site.os, home, "cordis.patch.yml");
    out.push(read_file_rows(site.disk, users.as_str()));
    assert(layer_views(out@) =~= layers_of(site@, home@, text::strs(bundles@)));
    out
}

/// How a bundle that every profile has is shown.
pub open spec fn builtin_info(
    site: SiteView,
    snap: Option<Seq<(Seq<char>, Option<Seq<char>>)>>,
    name: Seq<char>,
) -> InfoShown {
    InfoShown {
        name,
        version: version_shown(site, name),
        spec: Seq::empty(),
        source: "builtin"@,
        builtin: true,
        is_bundle: true,
        rows: Seq::empty(),
        restart_required: differs(snap, name, version_shown(site, name)),
    }
}

/// How a dependency is shown.
pub open spec fn dependency_info(
    site: SiteView,
    snap: Option<Seq<(Seq<char>, Option<Seq<char>>)>>,
    layers: Seq<Seq<RowView>>,
    name: Seq<char>,
    spec: Seq<char>,
) -> InfoShown {
    InfoShown {
        name,
        version: version_shown(site, name),
        spec,
        source: source_of(site.os, spec),
        builtin: false,
        is_bundle: plugin_profile::is_layer(site, name),
        rows: if plugin_profile::is_layer(site, name) {
            shown_rows(package_rows(site, name), layers)
        } else {
            Seq::empty()
        },
        restart_required: plugin_profile::is_layer(site, name) && differs(
            snap,
            name,
            version_shown(site, name),
        ),
    }
}

/// The dependencies of a manifest, each with what it is specified as: a text, or nothing.
pub open spec fn dependency_specs(m: JsonView) -> Seq<(Seq<char>, Seq<char>)> {
    match json::member(m, "dependencies"@) {
        Some(JsonView::Object(members)) => Seq::new(
            members.len(),
            |i: int|
                (
                    members[i].0,
                    match members[i].1 {
                        JsonView::Str(s) => s,
                        _ => Seq::empty(),
                    },
                ),
        ),
        _ => Seq::empty(),
    }
}

/// How plugins are shown: those that every profile has, then the dependencies.
pub open spec fn plugins_shown(
    site: SiteView,
    snap: Option<Seq<(Seq<char>, Option<Seq<char>>)>>,
    home: Seq<char>,
    m: JsonView,
) -> Seq<InfoShown> {
    let layers = layers_of(site, home, plugin_profile::bundles_in(m));
    let deps = dependency_specs(m);
    Seq::new(plugin_profile::template_bundles().len(), |i: int| builtin_info(site, snap, plugin_profile::template_bundles()[i]))
        + Seq::new(
        deps.len(),
        |i: int| dependency_info(site, snap, layers, deps[i].0, deps[i].1),
    )
}

/// Whether one of the plugins asks for a restart.
pub open spec fn asks_restart(list: Seq<InfoShown>) -> bool {
    exists|i: int| 0 <= i < list.len() && (#[trigger] list[i]).restart_required
}

/// Whether a bundle that the service was last started with is not among these.
pub open spec fn is_gone(entry: (Seq<char>, Option<Seq<char>>), bundles: Seq<Seq<char>>) -> bool {
    !bundles.contains(entry.0)
}

/// Whether one of the bundles that the service was last started with is not among these.
pub open spec fn any_gone(
    list: Seq<(Seq<char>, Option<Seq<char>>)>,
    bundles: Seq<Seq<char>>,
) -> bool {
    exists|i: int| 0 <= i < list.len() && #[trigger] is_gone(list[i], bundles)
}

/// Whether the service was last started with a bundle that is not among these any more.
pub open spec fn lost_bundle(
    snap: Option<Seq<(Seq<char>, Option<Seq<char>>)>>,
    bundles: Seq<Seq<char>>,
) -> bool {
    match snap {
        Some(list) => any_gone(list, bundles),
        None => false,
    }
}

/// Whether the service has to be restarted for what was changed since it was started: a plugin
/// asks for it, or a bundle was taken away.
pub open spec fn restart_needed(
    site: SiteView,
    snap: Option<Seq<(Seq<char>, Option<Seq<char>>)>>,
    home: Seq<char>,
    m: JsonView,
) -> bool {
    asks_restart(plugins_shown(site, snap, home, m)) || lost_bundle(
        snap,
        plugin_profile::bundles_in(m),
    )
}

/// Once a bundle that the service was started with is gone from the manifest, a restart is needed.
pub proof fn removed_bundle_needs_restart(
    site: SiteView,
    list: Seq<(Seq<char>, Option<Seq<char>>)>,
    home: Seq<char>,
    m: JsonView,
    k: int,
)
    requires
        0 <= k < list.len(),
        !plugin_profile::bundles_in(m).contains(list[k].0),
    ensures
        restart_needed(site, Some(list), home, m),
{
    assert(is_gone(list[k], plugin_profile::bundles_in(m)));
    assert(any_gone(list, plugin_profile::bundles_in(m)));
}

fn has_lost(snap: Option<&Snapshot>, bundles: &[String]) -> (r: bool)
    ensures
        r == lost_bundle(opt_snapped(snap), text::strs(bundles@)),
{
    match snap {
        Some(s) => {
            let ghost list = snapped(s.bundles@);
            for i in 0..s.bundles.len()
                invariant
                    snap == Some(s),
                    list == snapped(s.bundles@),
                    forall|k: int|
                        0 <= k < i ==> !#[trigger] is_gone(list[k], text::strs(bundles@)),
            {
                assert(list[i as int].0 == s.bundles@[i as int].name@);
                if !in_list(bundles, s.bundles[i].name.as_str()) {
                    assert(is_gone(list[i as int], text::strs(bundles@)));
                    assert(any_gone(list, text::strs(bundles@)));
                    return true;
                }
            }
            false
        },
        None => false,
    }
}

fn pairs_of(v: Option<&Json>, Ghost(m): Ghost<JsonView>) -> (r: Vec<(String, String)>)
    requires
        match v {
            Some(j) => json::member(m, "dependencies"@) == Some(j@),
            None => json::member(m, "dependencies"@) is None,
        },
    ensures
        r@.len() == dependency_specs(m).len(),
        forall|i: int|
            0 <= i < r@.len() ==> (#[trigger] r@[i]).0@ == dependency_specs(m)[i].0 && r@[i].1@
                == dependency_specs(m)[i].1,
{
    let mut out: Vec<(String, String)> = Vec::new();
    if let Some(Json::Object(members)) = v {
        let ghost all = dependency_specs(m);
        proof {
            json::lemma_members_view(members@);
        }
        for i in 0..members.len()
            invariant
                all == dependency_specs(m),
                json::member(m, "dependencies"@) == Some(JsonView::Object(json::members_view(members@))),
                json::members_view(members@).len() == members@.len(),
                forall|k: int|
                    0 <= k < members@.len() ==> #[trigger] json::members_view(members@)[k] == (
                        members@[k].0@,
                        members@[k].1@,
                    ),
                out@.len() == i,
                forall|k: int|
                    0 <= k < i ==> (#[trigger] out@[k]).0@ == all[k].0 && out@[k].1@ == all[k].1,
        {
            let spec = match &members[i].1 {
                Json::Str(s) => s.clone(),
                _ => String::new(),
            };
            assert(json::members_view(members@)[i as int] == (
                members@[i as int].0@,
                members@[i as int].1@,
            ));
            assert(spec@ =~= all[i as int].1);
            out.push((members[i].0.clone(), spec));
        }
    }
    out
}

fn any_restart(list: &[PluginInfo]) -> (r: bool)
    ensures
        r == asks_restart(infos(list@)),
{
    for i in 0..list.len()
        invariant
            forall|k: int| 0 <= k < i ==> !(#[trigger] infos(list@)[k]).restart_required,
    {
        if list[i].restart_required {
            assert(infos(list@)[i as int].restart_required);
            return true;
        }
    }
    false
}

fn show_builtin(site: &Site, snap: Option<&Snapshot>, name: &str) -> (r: PluginInfo)
    ensures
        r@ == builtin_info(site@, opt_snapped(snap), name@),
{
    let version = show_version(site, name);
    let restart_required = snapshot_differs(snap, name, version.as_str());
    let rows: Vec<PluginRow> = Vec::new();
    assert(rows_shown(rows@) =~= Seq::<RowShown>::empty());
    let spec = String::new();
    assert(spec@ =~= Seq::<char>::empty());
    PluginInfo {
        name: name.to_owned(),
        version,
        spec,
        source: "builtin".to_owned(),
        builtin: true,
        is_bundle: true,
        rows,
        restart_required,
    }
}

fn show_dependency(
    site: &Site,
    snap: Option<&Snapshot>,
    layers: &[Vec<RowPatch>],
    name: &str,
    spec: &str,
) -> (r: PluginInfo)
    ensures
        r@ == dependency_info(site@, opt_snapped(snap), layer_views(layers@), name@, spec@),
{
    let is_bundle = exports_patch(site, name);
    let version = show_version(site, name);
    let rows: Vec<PluginRow> = if is_bundle {
        let patches = read_package_rows(site, name);
        show_rows(patches.as_slice(), layers)
    } else {
        Vec::new()
    };
    assert(!is_bundle ==> rows_shown(rows@) =~= Seq::<RowShown>::empty());
    let restart_required = is_bundle && snapshot_differs(snap, name, version.as_str());
    PluginInfo {
        name: name.to_owned(),
        version,
        spec: spec.to_owned(),
        source: classify_dep_source(site.os, spec),
        builtin: false,
        is_bundle,
        rows,
        restart_required,
    }
}

/// The names of the packages that a list of plugins speaks of. Their manifests and patch files
/// have to be looked at before the list is made.
pub fn list_names(os: Os, disk: &Disk, profile: &str) -> (r: Vec<String>)
    ensures
        text::strs(r@) == plugin_profile::template_bundles() + match plugin_profile::manifest_at(os, disk@, profile@) {
            Ok(m) => plugin_profile::bundles_in(m) + plugin_profile::dependencies(m),
            Err(_) => Seq::empty(),
        },
{
    let mut out: Vec<String> = Vec::new();
    out.push("@deepseek-ai/dsh-base".to_owned());
    out.push("@deepseek-ai/dsh-web-app".to_owned());
    assert(text::strs(out@) =~= plugin_profile::template_bundles());
    if let Ok(m) = read_manifest(os, disk, profile) {
        let mut bundles = bundles_of(&m);
        let mut deps = dep_keys(&m);
        let ghost b = bundles@;
        let ghost d = deps@;
        let ghost o = out@;
        out.append(&mut bundles);
        out.append(&mut deps);
        assert(out@ =~= o + b + d);
        assert(text::strs(out@) =~= text::strs(o) + (text::strs(b) + text::strs(d)));
    }
    out
}

/// Whether a result is the list of all plugins of the profile under `home`: nothing where there is
/// no profile yet, a failure where its manifest cannot be read, and else what is to be shown.
pub open spec fn listed(
    os: Os,
    files: Map<Seq<char>, FileView>,
    runtime: Seq<char>,
    home: Seq<char>,
    snapshot: Option<Seq<(Seq<char>, Option<Seq<char>>)>>,
    r: Result<PluginsListData, String>,
) -> bool {
    let profile = plugin_profile::profile_of(os, home);
    let site = SiteView { os, files, runtime, profile };
    if !disk::present(files, plugin_profile::manifest_path(os, profile)) {
        &&& r is Ok
        &&& !r->Ok_0.initialized
        &&& r->Ok_0.plugins@.len() == 0
        &&& !r->Ok_0.service_restart_required
        &&& r->Ok_0.profile_dir@ == profile
    } else {
        match plugin_profile::manifest_at(os, files, profile) {
            Err(e) => r is Err && r->Err_0@ == e,
            Ok(m) => {
                let shown = plugins_shown(site, snapshot, home, m);
                &&& r is Ok
                &&& r->Ok_0.initialized
                &&& infos(r->Ok_0.plugins@) == shown
                &&& r->Ok_0.service_restart_required == restart_needed(site, snapshot, home, m)
                &&& r->Ok_0.profile_dir@ == profile
            },
        }
    }
}

/// All plugins of the profile under `home`, as they are shown. `snapshot` is what the service
/// was last started with, where that is known.
pub fn list_impl(
    os: Os,
    disk: &Disk,
    runtime: &str,
    home: &str,
    snapshot: Option<&Snapshot>,
) -> (r: Result<PluginsListData, String>)
    ensures
        listed(os, disk@, runtime@, home@, opt_snapped(snapshot), r),
{
    let profile = profile_dir(os, home);
    if !disk.is_there(join_path(os, profile.as_str(), "package.json").as_str()) {
        return Ok(
            PluginsListData {
                plugins: Vec::new(),
                service_restart_required: false,
                profile_dir: profile,
                initialized: false,
            },
        );
    }
    let manifest = match read_manifest(os, disk, profile.as_str()) {
        Ok(m) => m,
        Err(e) => {
            return Err(e);
        },
    };
    let site = Site { os, disk, runtime, profile: profile.as_str() };
    let deps = pairs_of(manifest.get("dependencies"), Ghost(manifest@));
    let bundles = bundles_of(&manifest);
    let layers = read_layers(&site, home, bundles.as_slice());
    let ghost sv = site@;
    let ghost snap = opt_snapped(snapshot);
    let ghost specs = dependency_specs(manifest@);
    let ghost lv = layers_of(sv, home@, plugin_profile::bundles_in(manifest@));
    let ghost tail = Seq::new(
        specs.len(),
        |i: int| dependency_info(sv, snap, lv, specs[i].0, specs[i].1),
    );
    let mut plugins: Vec<PluginInfo> = Vec::new();
    plugins.push(show_builtin(&site, snapshot, "@deepseek-ai/dsh-base"));
    plugins.push(show_builtin(&site, snapshot, "@deepseek-ai/dsh-web-app"));
    let ghost head = Seq::new(
        plugin_profile::template_bundles().len(),
        |i: int| builtin_info(sv, snap, plugin_profile::template_bundles()[i]),
    );
    assert(infos(plugins@) =~= head);
    for i in 0..deps.len()
        invariant
            site@ == sv,
            snap == opt_snapped(snapshot),
            specs == dependency_specs(manifest@),
            lv == layer_views(layers@),
            deps@.len() == specs.len(),
            forall|k: int|
                0 <= k < deps@.len() ==> (#[trigger] deps@[k]).0@ == specs[k].0 && deps@[k].1@
                    == specs[k].1,
            tail == Seq::new(
                specs.len(),
                |i: int| dependency_info(sv, snap, lv, specs[i].0, specs[i].1),
            ),
            infos(plugins@) == head + tail.subrange(0, i as int),
    {
        let ghost before = plugins@;
        let info = show_dependency(
            &site,
            snapshot,
            layers.as_slice(),
            deps[i].0.as_str(),
            deps[i].1.as_str(),
        );
        assert(info@ == tail[i as int]);
        plugins.push(info);
        assert(infos(plugins@) =~= infos(before).push(info@));
        assert(infos(plugins@) =~= head + tail.subrange(0, i + 1));
    }
    assert(tail.subrange(0, tail.len() as int) =~= tail);
    assert(infos(plugins@) =~= plugins_shown(sv, snap, home@, manifest@));
    let service_restart_required = any_restart(plugins.as_slice()) || has_lost(
        snapshot,
        bundles.as_slice(),
    );
    Ok(
        PluginsListData {
            plugins,
            service_restart_required,
            profile_dir: profile,
            initialized: true,
        },
    )
}

/// What the user is shown of the plugins, once the runtime is known.
pub fn plugins_list(
    os: Os,
    disk: &Disk,
    runtime: &str,
    home: &str,
    snapshot: Option<&Snapshot>,
) -> (r: Result<PluginsListData, String>)
    ensures
        if runtime@.len() == 0 {
            r is Err && r->Err_0@ == "服务尚未初始化"@
        } else {
            listed(os, disk@, runtime@, home@, opt_snapped(snapshot), r)
        },
{
    if chars(runtime).len() == 0 {
        return Err("服务尚未初始化".to_owned());
    }
    list_impl(os, disk, runtime, home, snapshot)
}

/// Whether a text is a relative path by its first part.
pub open spec fn dotted(s: Seq<char>) -> bool {
    ||| s == "."@
    ||| s == ".."@
    ||| "./"@.is_prefix_of(s)
    ||| ".\\"@.is_prefix_of(s)
    ||| "../"@.is_prefix_of(s)
    ||| "..\\"@.is_prefix_of(s)
}

/// Whether white space stands in a text.
pub open spec fn has_space(s: Seq<char>) -> bool {
    exists|i: int| 0 <= i < s.len() && text::space(#[trigger] s[i])
}

/// What the user has typed, without white space around it and without `file:` before it.
pub open spec fn typed_spec(spec: Seq<char>) -> Seq<char> {
    let t = text::trim(spec);
    if "file:"@.is_prefix_of(t) {
        t.subrange("file:"@.len() as int, t.len() as int)
    } else {
        t
    }
}

/// What npm is to install for what the user has typed, or why it is refused.
pub open spec fn normalized(
    os: Os,
    files: Map<Seq<char>, FileView>,
    spec: Seq<char>,
) -> Result<Seq<char>, Seq<char>> {
    let s = typed_spec(spec);
    if text::trim(spec).len() == 0 {
        Err("插件名不能为空"@)
    } else if dotted(s) {
        Err("本地路径必须是绝对路径（请粘贴完整路径）。"@)
    } else if paths::absolute(os, s) {
        if disk::present(files, s) {
            Ok(s)
        } else {
            Err("路径不存在："@ + s)
        }
    } else if git_scheme(s) {
        Ok(s)
    } else if text::contains(s, "/"@) && !"@"@.is_prefix_of(s) {
        Ok("github:"@ + text::strip_end_all(s, ".git"@))
    } else if ".git"@.is_suffix_of(s) {
        Ok(s)
    } else if has_space(s) {
        Err("插件名不能包含空格。"@)
    } else {
        Ok(s)
    }
}

fn typed(spec: &str) -> (r: String)
    ensures
        r@ == typed_spec(spec@),
{
    let t = trimmed(spec);
    if begins(t.as_str(), "file:") {
        let s = chars(t.as_str());
        let mark = chars("file:");
        string_of(cut(s.as_slice(), mark.len(), s.len()))
    } else {
        t
    }
}

fn any_space(s: &str) -> (r: bool)
    ensures
        r == has_space(s@),
{
    let v = chars(s);
    for i in 0..v.len()
        invariant
            v@ == s@,
            forall|k: int| 0 <= k < i ==> !text::space(#[trigger] s@[k]),
    {
        if is_space(v[i]) {
            assert(text::space(s@[i as int]));
            return true;
        }
    }
    false
}

/// The path that has to be looked at before what the user has typed can be judged, where it is
/// a path.
pub fn spec_question(os: Os, spec: &str) -> (r: Option<String>)
    ensures
        text::opt(r) == (if paths::absolute(os, typed_spec(spec@)) {
            Some(typed_spec(spec@))
        } else {
            None
        }),
{
    let s = typed(spec);
    if is_absolute(os, s.as_str()) {
        Some(s)
    } else {
        None
    }
}

/// What npm is to install for what the user has typed, or why it is refused.
pub fn normalize_spec(os: Os, disk: &Disk, spec: &str) -> (r: Result<String, String>)
    ensures
        match r {
            Ok(s) => normalized(os, disk@, spec@) == Ok::<Seq<char>, Seq<char>>(s@),
            Err(e) => normalized(os, disk@, spec@) == Err::<Seq<char>, Seq<char>>(e@),
        },
{
    if chars(trimmed(spec).as_str()).len() == 0 {
        return Err("插件名不能为空".to_owned());
    }
    let s = typed(spec);
    if same(s.as_str(), ".") || same(s.as_str(), "..") || begins(s.as_str(), "./") || begins(
        s.as_str(),
        ".\\",
    ) || begins(s.as_str(), "../") || begins(s.as_str(), "..\\") {
        return Err("本地路径必须是绝对路径（请粘贴完整路径）。".to_owned());
    }
    if is_absolute(os, s.as_str()) {
        if !disk.is_there(s.as_str()) {
            return Err(cat("路径不存在：", s.as_str()));
        }
        return Ok(s);
    }
    if has_git_scheme(s.as_str()) {
        return Ok(s);
    }
    if holds(s.as_str(), "/") && !begins(s.as_str(), "@") {
        let v = chars(s.as_str());
        let git = chars(".git");
        let repo = string_of(cut_end_all(v.as_slice(), git.as_slice()));
        return Ok(cat("github:", repo.as_str()));
    }
    if ends(s.as_str(), ".git") {
        return Ok(s);
    }
    if any_space(s.as_str()) {
        return Err("插件名不能包含空格。".to_owned());
    }
    Ok(s)
}

/// The directory that a specification names.
pub open spec fn spec_dir(os: Os, spec: Seq<char>) -> Option<Seq<char>> {
    if "file:"@.is_prefix_of(spec) {
        Some(spec.subrange("file:"@.len() as int, spec.len() as int))
    } else if paths::absolute(os, spec) {
        Some(spec)
    } else {
        None
    }
}

/// Whether a specification means the package of that name: it is the name, or a directory whose
/// manifest has it.
pub open spec fn means_package(
    os: Os,
    files: Map<Seq<char>, FileView>,
    spec: Seq<char>,
    name: Seq<char>,
) -> bool {
    spec == name || match spec_dir(os, spec) {
        Some(dir) => match plugin_profile::json_at(files, plugin_profile::manifest_path(os, dir)) {
            Some(m) => json::as_text(json::member(m, "name"@)) == Some(name),
            None => false,
        },
        None => false,
    }
}

fn dir_of_spec(os: Os, spec: &str) -> (r: Option<String>)
    ensures
        text::opt(r) == spec_dir(os, spec@),
{
    if begins(spec, "file:") {
        let s = chars(spec);
        let mark = chars("file:");
        Some(string_of(cut(s.as_slice(), mark.len(), s.len())))
    } else if is_absolute(os, spec) {
        Some(spec.to_owned())
    } else {
        None
    }
}

/// The manifest that has to be looked at before a specification is compared with names, where it
/// names a directory.
pub fn name_question(os: Os, spec: &str) -> (r: Option<String>)
    ensures
        text::opt(r) == match spec_dir(os, spec@) {
            Some(dir) => Some(plugin_profile::manifest_path(os, dir)),
            None => None,
        },
{
    match dir_of_spec(os, spec) {
        Some(dir) => Some(join_path(os, dir.as_str(), "package.json")),
        None => None,
    }
}

/// Whether a specification means the package of that name.
pub fn spec_matches_name(os: Os, disk: &Disk, spec: &str, dep_name: &str) -> (r: bool)
    ensures
        r == means_package(os, disk@, spec@, dep_name@),
{
    if same(spec, dep_name) {
        return true;
    }
    match dir_of_spec(os, spec) {
        Some(dir) => match disk.read(join_path(os, dir.as_str(), "package.json").as_str()) {
            Ok(text) => match parse_json(text.as_str()) {
                Ok(m) => match text_of(m.get("name")) {
                    Some(n) => same(n.as_str(), dep_name),
                    None => false,
                },
                Err(_) => false,
            },
            Err(_) => false,
        },
        None => false,
    }
}

/// Whether a specification means one of the packages.
pub open spec fn means_one(
    os: Os,
    files: Map<Seq<char>, FileView>,
    spec: Seq<char>,
    names: Seq<Seq<char>>,
) -> bool {
    exists|i: int| 0 <= i < names.len() && means_package(os, files, spec, #[trigger] names[i])
}

/// Whether what the user asks for is installed already.
pub fn already_installed(os: Os, disk: &Disk, deps: &[String], spec: &str) -> (r: bool)
    ensures
        r == means_one(os, disk@, spec@, text::strs(deps@)),
{
    for i in 0..deps.len()
        invariant
            forall|k: int|
                0 <= k < i ==> !means_package(os, disk@, spec@, #[trigger] text::strs(deps@)[k]),
    {
        if spec_matches_name(os, disk, spec, deps[i].as_str()) {
            assert(means_package(os, disk@, spec@, text::strs(deps@)[i as int]));
            return true;
        }
    }
    false
}

/// Whether npm gets what it installs from a registry.
pub open spec fn from_registry(os: Os, npm_spec: Seq<char>) -> bool {
    !git_scheme(npm_spec) && !paths::absolute(os, npm_spec)
}

/// The arguments with which npm installs a plugin.
pub open spec fn install_args(npm_spec: Seq<char>, source: Seq<char>) -> Seq<Seq<char>> {
    seq![
        "install"@,
        npm_spec,
        "--no-audit"@,
        "--no-fund"@,
        "--no-update-notifier"@,
        "--loglevel=error"@,
        "--legacy-peer-deps"@,
    ] + plugin_npm::registry_flags(source)
}

/// How a plugin is installed.
#[derive(Debug)]
pub struct AddPlan {
    /// What npm is to install.
    pub npm_spec: String,
    /// The arguments for npm.
    pub args: Vec<String>,
    /// How long npm may take, in milliseconds.
    pub timeout: u64,
    /// Whether npm gets the plugin from a registry.
    pub remote: bool,
    /// What the profile depends on before.
    pub before: Vec<String>,
}

/// How the plugin that the user has typed is installed into a profile that is there, or why not.
pub fn plan_add(os: Os, disk: &Disk, profile: &str, spec: &str, registry_source: &str) -> (r:
    Result<AddPlan, String>)
    ensures
        match normalized(os, disk@, spec@) {
            Err(e) => r is Err && r->Err_0@ == e,
            Ok(n) => match plugin_profile::manifest_at(os, disk@, profile@) {
                Err(e) => r is Err && r->Err_0@ == e,
                Ok(m) => {
                    &&& r is Ok
                    &&& r->Ok_0.npm_spec@ == n
                    &&& text::strs(r->Ok_0.args@) == install_args(n, registry_source@)
                    &&& r->Ok_0.remote == from_registry(os, n)
                    &&& r->Ok_0.timeout == (if from_registry(os, n) {
                        NPM_TIMEOUT
                    } else {
                        GIT_TIMEOUT
                    })
                    &&& text::strs(r->Ok_0.before@) == plugin_profile::dependencies(m)
                },
            },
        },
{
    let npm_spec = match normalize_spec(os, disk, spec) {
        Ok(s) => s,
        Err(e) => {
            return Err(e);
        },
    };
    let manifest = match read_manifest(os, disk, profile) {
        Ok(m) => m,
        Err(e) => {
            return Err(e);
        },
    };
    let before = dep_keys(&manifest);
    let mut args: Vec<String> = Vec::new();
    args.push("install".to_owned());
    args.push(npm_spec.clone());
    args.push("--no-audit".to_owned());
    args.push("--no-fund".to_owned());
    args.push("--no-update-notifier".to_owned());
    args.push("--loglevel=error".to_owned());
    args.push("--legacy-peer-deps".to_owned());
    let ghost fixed = args@;
    let mut flags = registry_flag(registry_source);
    let ghost more = flags@;
    args.append(&mut flags);
    assert(text::strs(args@) =~= text::strs(fixed) + text::strs(more));
    assert(text::strs(args@) =~= install_args(npm_spec@, registry_source@));
    let remote = !has_git_scheme(npm_spec.as_str()) && !is_absolute(os, npm_spec.as_str());
    let timeout: u64 = if remote {
        NPM_TIMEOUT
    } else {
        GIT_TIMEOUT
    };
    Ok(AddPlan { npm_spec, args, timeout, remote, before })
}

/// How far an installation has come.
#[derive(Debug)]
pub enum Adding {
    /// npm is to be run with these arguments: for the first time, or again.
    Running { args: Vec<String>, again: bool },
    /// npm has installed the plugin, or it has not, for this reason.
    Done(Result<(), String>),
}

/// How far an installation has come, with texts as characters.
pub enum AddingView {
    Running { args: Seq<Seq<char>>, again: bool },
    Done(Result<(), Seq<char>>),
}

impl View for Adding {
    type V = AddingView;

    open spec fn view(&self) -> AddingView {
        match self {
            Adding::Running { args, again } => AddingView::Running {
                args: text::strs(args@),
                again: *again,
            },
            Adding::Done(outcome) => AddingView::Done(outcome_view(*outcome)),
        }
    }
}

/// An outcome with its reason as characters.
pub open spec fn outcome_view(r: Result<(), String>) -> Result<(), Seq<char>> {
    match r {
        Ok(_) => Ok(()),
        Err(e) => Err(e@),
    }
}

/// What an installation comes to when npm has run. It is run once more, with another registry,
/// where the first run has failed, none was chosen and the plugin comes from one.
pub open spec fn adding_next(
    remote: bool,
    source: Seq<char>,
    at: AddingView,
    outcome: Result<(), Seq<char>>,
) -> AddingView {
    match at {
        AddingView::Running { args, again } => {
            if outcome is Err && !again && source == "auto"@ && remote {
                AddingView::Running {
                    args: args + seq!["--registry"@, "https://registry.npmmirror.com"@],
                    again: true,
                }
            } else {
                AddingView::Done(outcome)
            }
        },
        AddingView::Done(_) => at,
    }
}

/// The begin of an installation.
pub fn add_begin(plan: &AddPlan) -> (r: Adding)
    ensures
        r@ == (AddingView::Running { args: text::strs(plan.args@), again: false }),
{
    Adding::Running { args: copy_list(plan.args.as_slice()), again: false }
}

/// What an installation comes to when npm has run.
pub fn add_step(remote: bool, registry_source: &str, at: Adding, outcome: Result<(), String>) -> (r:
    Adding)
    ensures
        r@ == adding_next(remote, registry_source@, at@, outcome_view(outcome)),
{
    match at {
        Adding::Running { args, again } => {
            if outcome.is_err() && !again && remote && same(registry_source, "auto") {
                let mut more = args;
                let ghost before = more@;
                more.push("--registry".to_owned());
                more.push("https://registry.npmmirror.com".to_owned());
                assert(text::strs(more@) =~= text::strs(before) + seq![
                    "--registry"@,
                    "https://registry.npmmirror.com"@,
                ]);
                Adding::Running { args: more, again: true }
            } else {
                Adding::Done(outcome)
            }
        },
        Adding::Done(done) => Adding::Done(done),
    }
}

/// How many runs of npm are still ahead at most.
pub open spec fn runs_left(at: AddingView) -> nat {
    match at {
        AddingView::Running { again, .. } => if again {
            1
        } else {
            2
        },
        AddingView::Done(_) => 0,
    }
}

/// npm is run at most twice for a plugin, and the result of the last run is the result: a first
/// failure stands where there is no second run, and a second one always does.
pub proof fn npm_runs_at_most_twice(
    remote: bool,
    source: Seq<char>,
    args: Seq<Seq<char>>,
    again: bool,
    outcome: Result<(), Seq<char>>,
)
    ensures
        ({
            let at = AddingView::Running { args, again };
            let next = adding_next(remote, source, at, outcome);
            &&& runs_left(at) <= 2
            &&& runs_left(next) < runs_left(at)
            &&& next is Done ==> next == AddingView::Done(outcome)
            &&& again || outcome is Ok ==> next == AddingView::Done(outcome)
            &&& !(source == "auto"@ && remote) ==> next == AddingView::Done(outcome)
        }),
{
}

/// The first of the names that was not there before.
pub open spec fn first_new(names: Seq<Seq<char>>, before: Seq<Seq<char>>) -> Option<Seq<char>>
    decreases names.len(),
{
    if names.len() == 0 {
        None
    } else if !before.contains(names[0]) {
        Some(names[0])
    } else {
        first_new(names.subrange(1, names.len() as int), before)
    }
}

fn find_new(names: &[String], before: &[String]) -> (r: Option<String>)
    ensures
        text::opt(r) == first_new(text::strs(names@), text::strs(before@)),
{
    let ghost all = text::strs(names@);
    assert(all.subrange(0, all.len() as int) =~= all);
    for i in 0..names.len()
        invariant
            all == text::strs(names@),
            first_new(all, text::strs(before@)) == first_new(
                all.subrange(i as int, all.len() as int),
                text::strs(before@),
            ),
    {
        let ghost rest = all.subrange(i as int, all.len() as int);
        assert(rest[0] == names@[i as int]@);
        assert(rest.subrange(1, rest.len() as int) =~= all.subrange(i + 1, all.len() as int));
        if !in_list(before, names[i].as_str()) {
            return Some(names[i].clone());
        }
    }
    None
}

/// What an installation has come to: the result, and the text that the manifest of the profile
/// should hold, where that is another one than it holds.
#[derive(Debug)]
pub struct AddDone {
    pub result: PluginAddResult,
    pub manifest: Option<String>,
}

/// What npm's installation has come to. `site` is what was found after it.
pub fn finish_add(site: &Site, plan: &AddPlan) -> (r: Result<AddDone, String>)
    ensures
        match plugin_profile::manifest_at(site@.os, site@.files, site@.profile) {
            Err(e) => r is Err && r->Err_0@ == e,
            Ok(m) => match first_new(plugin_profile::dependencies(m), text::strs(plan.before@)) {
                None => r is Err && r->Err_0@ == (if means_one(
                    site@.os,
                    site@.files,
                    plan.npm_spec@,
                    text::strs(plan.before@),
                ) {
                    "该插件已安装。"@
                } else {
                    "安装未生效（依赖未写入），请查看日志。"@
                }),
                Some(name) => match plugin_profile::reconciled(site@, text::strs(plan.before@), m) {
                    Some(after) if plugin_profile::manifest_file(after) is Err => r is Err && r->Err_0@
                        == plugin_profile::manifest_file(after)->Err_0,
                    next => {
                        &&& r is Ok
                        &&& r->Ok_0.result.name@ == name
                        &&& r->Ok_0.result.version@ == version_shown(site@, name)
                        &&& r->Ok_0.result.restart_required
                        &&& text::opt(r->Ok_0.result.warning) == (if plugin_profile::is_layer(site@, name) {
                            None
                        } else {
                            Some(
                                "该包没有声明 dsh.bundle，不会作为功能层加载（仅作为普通依赖；其后续版本若带上 bundle 声明会自动生效）。"@,
                            )
                        })
                        &&& text::opt(r->Ok_0.manifest) == match next {
                            Some(after) => Some(plugin_profile::manifest_file(after)->Ok_0),
                            None => None,
                        }
                    },
                },
            },
        },
{
    let manifest = match read_manifest(site.os, site.disk, site.profile) {
        Ok(m) => m,
        Err(e) => {
            return Err(e);
        },
    };
    let deps = dep_keys(&manifest);
    let name = match find_new(deps.as_slice(), plan.before.as_slice()) {
        Some(n) => n,
        None => {
            if already_installed(
                site.os,
                site.disk,
                plan.before.as_slice(),
                plan.npm_spec.as_str(),
            ) {
                return Err("该插件已安装。".to_owned());
            }
            return Err("安装未生效（依赖未写入），请查看日志。".to_owned());
        },
    };
    let text = match reconcile(site, plan.before.as_slice()) {
        Ok(t) => t,
        Err(e) => {
            return Err(e);
        },
    };
    let warning = if exports_patch(site, name.as_str()) {
        None
    } else {
        Some(
            "该包没有声明 dsh.bundle，不会作为功能层加载（仅作为普通依赖；其后续版本若带上 bundle 声明会自动生效）。".to_owned(),
        )
    };
    let version = show_version(site, name.as_str());
    Ok(
        AddDone {
            result: PluginAddResult { name, version, restart_required: true, warning },
            manifest: text,
        },
    )
}

/// The names of a list that stand in another one, in the order of the first.
pub open spec fn common(deps: Seq<Seq<char>>, names: Seq<Seq<char>>) -> Seq<Seq<char>>
    decreases deps.len(),
{
    if deps.len() == 0 {
        Seq::empty()
    } else if names.contains(deps.last()) {
        common(deps.drop_last(), names).push(deps.last())
    } else {
        common(deps.drop_last(), names)
    }
}

/// What is removable does not depend on the order in which names are given, nor on whether one
/// is given twice.
pub proof fn removable_ignores_order(
    deps: Seq<Seq<char>>,
    a: Seq<Seq<char>>,
    b: Seq<Seq<char>>,
)
    requires
        forall|n: Seq<char>| #[trigger] a.contains(n) == b.contains(n),
    ensures
        common(deps, a) == common(deps, b),
    decreases deps.len(),
{
    if deps.len() > 0 {
        removable_ignores_order(deps.drop_last(), a, b);
        assert(a.contains(deps.last()) == b.contains(deps.last()));
    }
}

/// What is removable is what is given and installed.
pub proof fn removable_is_installed(deps: Seq<Seq<char>>, names: Seq<Seq<char>>, name: Seq<char>)
    ensures
        common(deps, names).contains(name) <==> deps.contains(name) && names.contains(name),
    decreases deps.len(),
{
    if deps.len() > 0 {
        let front = deps.drop_last();
        let before = common(front, names);
        let all = common(deps, names);
        removable_is_installed(front, names, name);
        assert(deps[deps.len() - 1] == deps.last());
        if front.contains(name) {
            let k = choose|k: int| 0 <= k < front.len() && front[k] == name;
            assert(deps[k] == name);
        }
        if deps.contains(name) && !front.contains(name) {
            let k = choose|k: int| 0 <= k < deps.len() && deps[k] == name;
            if k < front.len() {
                assert(front[k] == name);
            }
        }
        if names.contains(deps.last()) {
            if before.contains(name) {
                let k = choose|k: int| 0 <= k < before.len() && before[k] == name;
                assert(all[k] == name);
            }
            if name == deps.last() {
                assert(all[before.len() as int] == name);
            }
            if all.contains(name) {
                let k = choose|k: int| 0 <= k < all.len() && all[k] == name;
                if k < before.len() {
                    assert(before[k] == name);
                }
            }
        }
    }
}

/// The plugins of a profile that stand among the names.
pub open spec fn removable(
    os: Os,
    files: Map<Seq<char>, FileView>,
    profile: Seq<char>,
    names: Seq<Seq<char>>,
) -> Seq<Seq<char>> {
    match plugin_profile::manifest_at(os, files, profile) {
        Ok(m) => common(plugin_profile::dependencies(m), names),
        Err(_) => Seq::empty(),
    }
}

/// The plugins of a profile that stand among the names. A profile that cannot be read has none.
pub fn removable_from_manifest(os: Os, disk: &Disk, profile: &str, names: &[String]) -> (r: Vec<
    String,
>)
    ensures
        text::strs(r@) == removable(os, disk@, profile@, text::strs(names@)),
{
    let mut out: Vec<String> = Vec::new();
    assert(text::strs(out@) =~= Seq::<Seq<char>>::empty());
    if let Ok(manifest) = read_manifest(os, disk, profile) {
        let deps = dep_keys(&manifest);
        let ghost all = text::strs(deps@);
        for i in 0..deps.len()
            invariant
                all == text::strs(deps@),
                text::strs(out@) == common(all.subrange(0, i as int), text::strs(names@)),
        {
            let ghost before = out@;
            assert(all.subrange(0, i + 1).drop_last() =~= all.subrange(0, i as int));
            assert(all.subrange(0, i + 1).last() == deps@[i as int]@);
            if in_list(names, deps[i].as_str()) {
                out.push(deps[i].clone());
                assert(text::strs(out@) =~= text::strs(before).push(deps@[i as int]@));
            }
        }
        assert(all.subrange(0, all.len() as int) =~= all);
    }
    out
}

/// The installed plugins that stand among the names. `home` is the directory that DSH keeps its
/// data in.
pub fn removable_plugin_names(os: Os, disk: &Disk, home: &str, names: &[String]) -> (r: Vec<
    String,
>)
    ensures
        text::strs(r@) == removable(os, disk@, plugin_profile::profile_of(os, home@), text::strs(names@)),
{
    let profile = profile_dir(os, home);
    removable_from_manifest(os, disk, profile.as_str(), names)
}

/// The arguments with which npm removes a plugin.
pub open spec fn uninstall_args(name: Seq<char>, source: Seq<char>) -> Seq<Seq<char>> {
    seq![
        "uninstall"@,
        name,
        "--no-audit"@,
        "--no-fund"@,
        "--no-update-notifier"@,
        "--loglevel=error"@,
    ] + plugin_npm::registry_flags(source)
}

/// How a plugin is removed.
#[derive(Debug)]
pub struct RemovePlan {
    /// The arguments for npm.
    pub args: Vec<String>,
    /// What the profile depends on before.
    pub before: Vec<String>,
}

/// How a plugin is removed from a profile, or why not. After npm the profile has to be
/// reconciled with what it depended on before.
pub fn remove_impl(os: Os, disk: &Disk, profile: &str, name: &str, registry_source: &str) -> (r:
    Result<RemovePlan, String>)
    ensures
        match plugin_profile::manifest_at(os, disk@, profile@) {
            Err(e) => r is Err && r->Err_0@ == e,
            Ok(m) => if plugin_profile::dependencies(m).contains(name@) {
                &&& r is Ok
                &&& text::strs(r->Ok_0.args@) == uninstall_args(name@, registry_source@)
                &&& text::strs(r->Ok_0.before@) == plugin_profile::dependencies(m)
            } else {
                r is Err && r->Err_0@ == "未安装该插件。"@
            },
        },
{
    let manifest = match read_manifest(os, disk, profile) {
        Ok(m) => m,
        Err(e) => {
            return Err(e);
        },
    };
    let before = dep_keys(&manifest);
    if !in_list(before.as_slice(), name) {
        return Err("未安装该插件。".to_owned());
    }
    let mut args: Vec<String> = Vec::new();
    args.push("uninstall".to_owned());
    args.push(name.to_owned());
    args.push("--no-audit".to_owned());
    args.push("--no-fund".to_owned());
    args.push("--no-update-notifier".to_owned());
    args.push("--loglevel=error".to_owned());
    let ghost fixed = args@;
    let mut flags = registry_flag(registry_source);
    let ghost more = flags@;
    args.append(&mut flags);
    assert(text::strs(args@) =~= text::strs(fixed) + text::strs(more));
    assert(text::strs(args@) =~= uninstall_args(name@, registry_source@));
    Ok(RemovePlan { args, before })
}

/// What the profile under `home` depends on. One that cannot be read depends on nothing.
pub open spec fn installed_names(os: Os, files: Map<Seq<char>, FileView>, home: Seq<char>) -> Seq<
    Seq<char>,
> {
    match plugin_profile::manifest_at(os, files, plugin_profile::profile_of(os, home)) {
        Ok(m) => plugin_profile::dependencies(m),
        Err(_) => Seq::empty(),
    }
}

fn installed_of(os: Os, disk: &Disk, home: &str) -> (r: Vec<String>)
    ensures
        text::strs(r@) == installed_names(os, disk@, home@),
{
    let profile = profile_dir(os, home);
    match read_manifest(os, disk, profile.as_str()) {
        Ok(m) => dep_keys(&m),
        Err(_) => {
            let none: Vec<String> = Vec::new();
            assert(text::strs(none@) =~= Seq::<Seq<char>>::empty());
            none
        },
    }
}

/// Whether the service is to be stopped so that what the user has typed can be added, or why
/// not: the runtime has to be known, and the plugin must not be installed.
pub fn plugins_add(os: Os, disk: &Disk, runtime: &str, home: &str, spec: &str) -> (r: Result<
    (),
    String,
>)
    ensures
        if runtime@.len() == 0 {
            r is Err && r->Err_0@ == "服务尚未初始化"@
        } else if means_one(os, disk@, spec@, installed_names(os, disk@, home@)) {
            r is Err && r->Err_0@ == "该插件已安装。"@
        } else {
            r is Ok
        },
{
    if chars(runtime).len() == 0 {
        return Err("服务尚未初始化".to_owned());
    }
    let deps = installed_of(os, disk, home);
    if already_installed(os, disk, deps.as_slice(), spec) {
        return Err("该插件已安装。".to_owned());
    }
    Ok(())
}

/// Whether the service is to be stopped so that a plugin can be removed, or why not: the runtime
/// has to be known, and the plugin must be installed.
pub fn plugins_remove(os: Os, disk: &Disk, runtime: &str, home: &str, name: &str) -> (r: Result<
    (),
    String,
>)
    ensures
        if runtime@.len() == 0 {
            r is Err && r->Err_0@ == "服务尚未初始化"@
        } else if installed_names(os, disk@, home@).contains(name@) {
            r is Ok
        } else {
            r is Err && r->Err_0@ == "未安装该插件。"@
        },
{
    if chars(runtime).len() == 0 {
        return Err("服务尚未初始化".to_owned());
    }
    let deps = installed_of(os, disk, home);
    if in_list(deps.as_slice(), name) {
        Ok(())
    } else {
        Err("未安装该插件。".to_owned())
    }
}

/// The plugins to remove among those that are blamed, once the runtime is known. Where there are
/// none the service is left alone.
pub fn plugins_remove_incompatible(
    os: Os,
    disk: &Disk,
    runtime: &str,
    home: &str,
    names: &[String],
) -> (r: Result<Vec<String>, String>)
    ensures
        if runtime@.len() == 0 {
            r is Err && r->Err_0@ == "服务尚未初始化"@
        } else {
            r is Ok && text::strs(r->Ok_0@) == removable(
                os,
                disk@,
                plugin_profile::profile_of(os, home@),
                text::strs(names@),
            )
        },
{
    if chars(runtime).len() == 0 {
        return Err("服务尚未初始化".to_owned());
    }
    Ok(removable_plugin_names(os, disk, home, names))
}

/// The plugins that were removed among those that were to be: one that could not be removed does
/// not keep the others from being so.
pub open spec fn removed_names(tried: Seq<(String, Result<(), String>)>) -> Seq<Seq<char>>
    decreases tried.len(),
{
    if tried.len() == 0 {
        Seq::empty()
    } else if tried.last().1 is Ok {
        removed_names(tried.drop_last()).push(tried.last().0@)
    } else {
        removed_names(tried.drop_last())
    }
}

/// The plugins that were removed among those that were to be.
pub fn removed_plugins(tried: &[(String, Result<(), String>)]) -> (r: Vec<String>)
    ensures
        text::strs(r@) == removed_names(tried@),
{
    let mut out: Vec<String> = Vec::new();
    assert(text::strs(out@) =~= Seq::<Seq<char>>::empty());
    for i in 0..tried.len()
        invariant
            text::strs(out@) == removed_names(tried@.subrange(0, i as int)),
    {
        let ghost before = out@;
        assert(tried@.subrange(0, i + 1).drop_last() =~= tried@.subrange(0, i as int));
        if tried[i].1.is_ok() {
            out.push(tried[i].0.clone());
            assert(text::strs(out@) =~= text::strs(before).push(tried@[i as int].0@));
        }
    }
    assert(tried@.subrange(0, tried@.len() as int) =~= tried@);
    out
}

/// What is to be done about the plugin that every user gets.
#[derive(Debug)]
pub enum DefaultPlugin {
    /// It was dealt with at an earlier start.
    Leave,
    /// It is there already: this text goes into the marker file.
    Mark(String),
    /// The plugin of this name is to be installed.
    Install(String),
}

/// The file that says that the plugin which every user gets was dealt with.
pub open spec fn marker_path(os: Os, app_data: Seq<char>) -> Seq<char> {
    paths::joined_path(os, app_data, "default-plugin.json"@)
}

/// What the marker file says of a plugin that was there already.
pub open spec fn found_marker() -> JsonView {
    JsonView::Object(
        seq![("installed"@, JsonView::Bool(true)), ("name"@, JsonView::Str("dshmarket"@))],
    )
}

/// What the marker file says of a plugin that was just installed.
pub open spec fn installed_marker(name: Seq<char>, version: Seq<char>) -> JsonView {
    JsonView::Object(
        seq![
            ("installed"@, JsonView::Bool(true)),
            ("name"@, JsonView::Str(name)),
            ("version"@, JsonView::Str(version)),
        ],
    )
}

proof fn lemma_markers(name: Seq<char>, version: Seq<char>)
    ensures
        json::ordered(found_marker()),
        json::ordered(installed_marker(name, version)),
{
    reveal_strlit("installed");
    reveal_strlit("name");
    reveal_strlit("version");
    reveal_with_fuel(json::comes_before, 2);
    reveal_with_fuel(json::ordered, 2);
}

/// The file that says that the plugin which every user gets was dealt with.
pub fn default_plugin_marker(os: Os, app_data: &str) -> (r: String)
    ensures
        r@ == marker_path(os, app_data@),
{
    join_path(os, app_data, "default-plugin.json")
}

/// What is to be done about the plugin that every user gets.
pub fn ensure_default_plugin(os: Os, disk: &Disk, app_data: &str, home: &str) -> (r:
    DefaultPlugin)
    ensures
        if disk::present(disk@, marker_path(os, app_data@)) {
            r is Leave
        } else if removable(
            os,
            disk@,
            plugin_profile::profile_of(os, home@),
            seq!["dshmarket"@],
        ).len() > 0 {
            r is Mark && r->Mark_0@ == json::json_compact(found_marker())
        } else {
            r is Install && r->Install_0@ == "dshmarket"@
        },
{
    if disk.is_there(default_plugin_marker(os, app_data).as_str()) {
        return DefaultPlugin::Leave;
    }
    let mut wanted: Vec<String> = Vec::new();
    wanted.push("dshmarket".to_owned());
    assert(text::strs(wanted@) =~= seq!["dshmarket"@]);
    let there = removable_plugin_names(os, disk, home, wanted.as_slice());
    assert(text::strs(there@).len() == there@.len());
    if there.len() > 0 {
        let mut members: Vec<(String, Json)> = Vec::new();
        members.push(("installed".to_owned(), Json::Bool(true)));
        members.push(("name".to_owned(), Json::Str("dshmarket".to_owned())));
        proof {
            lemma_markers(Seq::empty(), Seq::empty());
            json::lemma_members_view(members@);
            assert(json::members_view(members@) =~= found_marker()->Object_0);
        }
        let marker = Json::Object(members);
        return DefaultPlugin::Mark(print_compact(&marker));
    }
    DefaultPlugin::Install("dshmarket".to_owned())
}

/// What goes into the marker file once the plugin that every user gets was to be installed.
/// Nothing does where it was not, so that it is tried again at the next start.
pub fn installed_default_plugin(outcome: &Result<PluginAddResult, String>) -> (r: Option<String>)
    ensures
        text::opt(r) == match outcome {
            Ok(result) => Some(json::json_compact(installed_marker(result.name@, result.version@))),
            Err(_) => None,
        },
{
    let result = match outcome {
        Ok(result) => result,
        Err(_) => {
            return None;
        },
    };
    let mut members: Vec<(String, Json)> = Vec::new();
    members.push(("installed".to_owned(), Json::Bool(true)));
    members.push(("name".to_owned(), Json::Str(result.name.clone())));
    members.push(("version".to_owned(), Json::Str(result.version.clone())));
    proof {
        lemma_markers(result.name@, result.version@);
        json::lemma_members_view(members@);
        assert(json::members_view(members@) =~= installed_marker(
            result.name@,
            result.version@,
        )->Object_0);
    }
    let marker = Json::Object(members);
    Some(print_compact(&marker))
}

/// The id of a row, which must not be blank.
pub fn row_id(id: &str) -> (r: Result<String, String>)
    ensures
        if text::trim(id@).len() == 0 {
            r is Err && r->Err_0@ == "行 id 不能为空"@
        } else {
            r is Ok && r->Ok_0@ == text::trim(id@)
        },
{
    let t = trimmed(id);
    if chars(t.as_str()).len() == 0 {
        Err("行 id 不能为空".to_owned())
    } else {
        Ok(t)
    }
}

/// Switches a row on or off in the patch file of a profile that is there: the entry that is added
/// says whether the row is disabled.
pub fn set_enabled_impl(os: Os, disk: &Disk, profile: &str, id: &str, enabled: bool) -> (r:
    Result<PatchWrite, String>)
    ensures
        ({
            let path = paths::joined_path(os, profile@, "cordis.patch.yml"@);
            if text::trim(id@).len() == 0 {
                r is Err && r->Err_0@ == "行 id 不能为空"@
            } else {
                match disk::contents(disk@, path) {
                    Err(e) => r is Err && r->Err_0@ == "读取补丁文件失败（"@ + path + "）: "@ + e,
                    Ok(text) => match plugin_profile::appended(text, text::trim(id@), !enabled) {
                        Ok(t) => r is Ok && r->Ok_0.text@ == t && r->Ok_0.temp@
                            == paths::with_extension_of(os, path, "yml.tmp"@),
                        Err(e) => r is Err && r->Err_0@ == e,
                    },
                }
            }
        }),
        ({
            let path = paths::joined_path(os, profile@, "cordis.patch.yml"@);
            r is Ok ==> plugin_profile::patch_at(disk@, path) is Some && plugin_profile::adds_row(
                plugin_profile::patch_at(disk@, path)->0,
                r->Ok_0.text@,
                plugin_profile::switched_row(text::trim(id@), !enabled),
            )
        }),
{
    match row_id(id) {
        Err(e) => Err(e),
        Ok(row) => {
            let path = join_path(os, profile, "cordis.patch.yml");
            append_disable_row(os, disk, path.as_str(), row.as_str(), !enabled)
        },
    }
}

proof fn lemma_shown_rows(rows: Seq<RowView>, layers: Seq<Seq<RowView>>)
    ensures
        forall|k: int|
            0 <= k < shown_rows(rows, layers).len() ==> {
                let row = #[trigger] shown_rows(rows, layers)[k];
                row.enabled == row_enabled(row.id, layers) && row.managed == !home_says(
                    row.id,
                    layers,
                )
            },
    decreases rows.len(),
{
    if rows.len() > 0 {
        lemma_shown_rows(rows.drop_last(), layers);
    }
}

/// Once the text that switches a row is in the profile's patch file, that file says of all rows what
/// it said before, and last of all that the row is switched so. So each row of that id is listed as
/// switched so, whatever lies below, as long as the patch file of the user's home says nothing of it.
pub proof fn switched_row_is_listed(
    os: Os,
    files: Map<Seq<char>, FileView>,
    runtime: Seq<char>,
    home: Seq<char>,
    snapshot: Option<Seq<(Seq<char>, Option<Seq<char>>)>>,
    id: Seq<char>,
    enabled: bool,
    text: Seq<char>,
    after: Seq<char>,
    list: Result<PluginsListData, String>,
)
    requires
        ({
            let path = paths::joined_path(
                os,
                plugin_profile::profile_of(os, home),
                "cordis.patch.yml"@,
            );
            let then = files.insert(path, FileView::Text(after));
            &&& disk::contents(files, path) == Ok::<Seq<char>, Seq<char>>(text)
            &&& plugin_profile::appended(text, text::trim(id), !enabled) == Ok::<
                Seq<char>,
                Seq<char>,
            >(after)
            &&& listed(os, then, runtime, home, snapshot, list)
            &&& last_word(
                text::trim(id),
                file_rows(then, paths::joined_path(os, home, "cordis.patch.yml"@)),
            ) is None
        }),
    ensures
        ({
            let path = paths::joined_path(
                os,
                plugin_profile::profile_of(os, home),
                "cordis.patch.yml"@,
            );
            let then = files.insert(path, FileView::Text(after));
            file_rows(then, path) == file_rows(files, path).push(
                plugin_profile::switched_row(text::trim(id), !enabled),
            )
        }),
        list matches Ok(data) ==> forall|i: int, k: int|
            0 <= i < data.plugins@.len() && 0 <= k < infos(data.plugins@)[i].rows.len() ==> {
                let row = #[trigger] infos(data.plugins@)[i].rows[k];
                row.id == text::trim(id) ==> row.enabled == enabled && row.managed
            },
{
    let profile = plugin_profile::profile_of(os, home);
    let path = paths::joined_path(os, profile, "cordis.patch.yml"@);
    let users = paths::joined_path(os, home, "cordis.patch.yml"@);
    let then = files.insert(path, FileView::Text(after));
    let row = plugin_profile::switched_row(text::trim(id), !enabled);
    plugin_profile::entry_is_read_back(text, text::trim(id), !enabled);
    assert(file_rows(then, path) == file_rows(files, path).push(row));
    if let Ok(data) = list {
        if disk::present(then, plugin_profile::manifest_path(os, profile)) {
            let m = plugin_profile::manifest_at(os, then, profile)->Ok_0;
            let site = SiteView { os, files: then, runtime, profile };
            let bundles = plugin_profile::bundles_in(m);
            let layers = layers_of(site, home, bundles);
            let below = Seq::new(bundles.len(), |i: int| package_rows(site, bundles[i]));
            let own = file_rows(then, path);
            let with_own = below.push(own);
            assert(layers =~= with_own.push(file_rows(then, users)));
            assert(own.last() == row);
            assert(last_word(text::trim(id), own) == Some(!enabled));
            upper_layer_wins(text::trim(id), below, own);
            upper_layer_wins(text::trim(id), with_own, file_rows(then, users));
            assert(row_enabled(text::trim(id), layers) == enabled);
            assert(layers.last() == file_rows(then, users));
            assert(!home_says(text::trim(id), layers));
            let shown = plugins_shown(site, snapshot, home, m);
            let deps = dependency_specs(m);
            let templates = plugin_profile::template_bundles();
            assert(infos(data.plugins@) == shown);
            assert forall|i: int, k: int|
                0 <= i < data.plugins@.len() && 0 <= k < infos(
                    data.plugins@,
                )[i].rows.len() implies {
                let one = #[trigger] infos(data.plugins@)[i].rows[k];
                one.id == text::trim(id) ==> one.enabled == enabled && one.managed
            } by {
                if i >= templates.len() {
                    let d = deps[i - templates.len()];
                    assert(shown[i] == dependency_info(site, snapshot, layers, d.0, d.1));
                    lemma_shown_rows(package_rows(site, d.0), layers);
                } else {
                    assert(shown[i] == builtin_info(site, snapshot, templates[i]));
                }
            }
        }
    }
}

/// Of the rows of an id the last one that says anything decides.
pub proof fn last_row_of_an_id_decides(id: Seq<char>, rows: Seq<RowView>, row: RowView)
    ensures
        last_word(id, Seq::empty()) is None,
        row.id == id && row.disabled is Some ==> last_word(id, rows.push(row)) == row.disabled,
        row.id != id || row.disabled is None ==> last_word(id, rows.push(row)) == last_word(
            id,
            rows,
        ),
{
    assert(rows.push(row).drop_last() =~= rows);
}

/// A row is as the highest layer says that says anything of it, and enabled where none does. The
/// user's home is the highest layer.
pub proof fn highest_word_decides(
    id: &str,
    layers: &[Vec<RowPatch>],
    k: int,
    r: (bool, bool),
)
    requires
        call_ensures(composed_enabled, (id, layers), r),
        0 <= k < layers@.len(),
    ensures
        (forall|i: int|
            k < i < layers@.len() ==> last_word(
                id@,
                plugin_profile::row_views((#[trigger] layers@[i])@),
            ) is None) ==> (last_word(id@, plugin_profile::row_views(layers@[k]@)) matches Some(d)
            ==> r.0 == !d),
        (forall|i: int|
            0 <= i < layers@.len() ==> last_word(
                id@,
                plugin_profile::row_views((#[trigger] layers@[i])@),
            ) is None) ==> r.0,
        r.1 <==> last_word(id@, plugin_profile::row_views(layers@[layers@.len() - 1]@)) is Some,
{
    let lv = layer_views(layers@);
    assert forall|i: int| 0 <= i < lv.len() implies #[trigger] lv[i] == plugin_profile::row_views(
        layers@[i]@,
    ) by {}
    if forall|i: int|
        k < i < layers@.len() ==> last_word(
            id@,
            plugin_profile::row_views((#[trigger] layers@[i])@),
        ) is None {
        assert forall|i: int| k < i < lv.len() implies last_word(id@, #[trigger] lv[i]) is None by {
            assert(lv[i] == plugin_profile::row_views(layers@[i]@));
        }
        lemma_word_at(id@, lv, k);
        assert(lv[k] == plugin_profile::row_views(layers@[k]@));
    }
    if forall|i: int|
        0 <= i < layers@.len() ==> last_word(
            id@,
            plugin_profile::row_views((#[trigger] layers@[i])@),
        ) is None {
        assert forall|i: int| 0 <= i < lv.len() implies last_word(id@, #[trigger] lv[i]) is None by {
            assert(lv[i] == plugin_profile::row_views(layers@[i]@));
        }
        lemma_no_word(id@, lv);
    }
    assert(lv.last() == plugin_profile::row_views(layers@[layers@.len() - 1]@));
}

proof fn lemma_word_at(id: Seq<char>, layers: Seq<Seq<RowView>>, k: int)
    requires
        0 <= k < layers.len(),
        forall|i: int| k < i < layers.len() ==> last_word(id, #[trigger] layers[i]) is None,
    ensures
        last_word(id, layers[k]) is Some ==> composed_word(id, layers) == last_word(id, layers[k]),
    decreases layers.len(),
{
    if k < layers.len() - 1 {
        assert(layers[layers.len() - 1] == layers.last());
        let front = layers.drop_last();
        assert forall|i: int| k < i < front.len() implies last_word(id, #[trigger] front[i])
            is None by {
            assert(front[i] == layers[i]);
        }
        lemma_word_at(id, front, k);
        assert(front[k] == layers[k]);
    }
}

proof fn lemma_no_word(id: Seq<char>, layers: Seq<Seq<RowView>>)
    requires
        forall|i: int| 0 <= i < layers.len() ==> last_word(id, #[trigger] layers[i]) is None,
    ensures
        composed_word(id, layers) is None,
    decreases layers.len(),
{
    if layers.len() > 0 {
        assert(layers[layers.len() - 1] == layers.last());
        let front = layers.drop_last();
        assert forall|i: int| 0 <= i < front.len() implies last_word(id, #[trigger] front[i])
            is None by {
            assert(front[i] == layers[i]);
        }
        lemma_no_word(id, front);
    }
}

/// Every row of a plugin is shown, each id once, with the name that its first row gives it, and the
/// rows stay in their order. A row is shown to be enabled as the layers have it, and to be the
/// application's to switch unless the user's home speaks of it.
pub proof fn every_row_is_shown_once(rows: Seq<RowView>, layers: Seq<Seq<RowView>>)
    ensures
        forall|i: int|
            0 <= i < rows.len() ==> has_row(shown_rows(rows, layers), (#[trigger] rows[i]).id),
        forall|j: int, k: int|
            0 <= j < k < shown_rows(rows, layers).len() ==> (#[trigger] shown_rows(
                rows,
                layers,
            )[j]).id != (#[trigger] shown_rows(rows, layers)[k]).id,
        forall|k: int|
            0 <= k < shown_rows(rows, layers).len() ==> row_stands_for(
                rows,
                #[trigger] shown_rows(rows, layers)[k],
            ),
        forall|k: int|
            0 <= k < shown_rows(rows, layers).len() ==> ({
                let row = #[trigger] shown_rows(rows, layers)[k];
                &&& row.enabled == (composed_word(row.id, layers) != Some(true))
                &&& row.home_layer == !row.managed
                &&& layers.len() > 0 ==> row.home_layer == (last_word(row.id, layers.last()) is Some)
            }),
        forall|n: int|
            0 <= n <= rows.len() ==> shown_rows(
                #[trigger] rows.subrange(0, n),
                layers,
            ).is_prefix_of(shown_rows(rows, layers)),
    decreases rows.len(),
{
    let all = shown_rows(rows, layers);
    if rows.len() == 0 {
        assert forall|n: int| 0 <= n <= rows.len() implies shown_rows(
            #[trigger] rows.subrange(0, n),
            layers,
        ).is_prefix_of(all) by {
            assert(rows.subrange(0, n) =~= rows);
        }
    } else {
        let front = rows.drop_last();
        let before = shown_rows(front, layers);
        let last = rows.len() - 1;
        every_row_is_shown_once(front, layers);
        assert(before.is_prefix_of(all));
        assert forall|i: int| 0 <= i < rows.len() implies has_row(all, (#[trigger] rows[i]).id) by {
            if i < last {
                assert(front[i] == rows[i]);
                let k = choose|k: int| 0 <= k < before.len() && (#[trigger] before[k]).id == rows[i].id;
                assert(all[k].id == rows[i].id);
            } else if has_row(before, rows[last].id) {
                let k = choose|k: int|
                    0 <= k < before.len() && (#[trigger] before[k]).id == rows[last].id;
                assert(all[k].id == rows[i].id);
            } else {
                assert(all[before.len() as int].id == rows[i].id);
            }
        }
        assert forall|j: int, k: int| 0 <= j < k < all.len() implies (#[trigger] all[j]).id != (
        #[trigger] all[k]).id by {
            assert(all[j] == before[j]);
            if k < before.len() {
                assert(all[k] == before[k]);
            }
        }
        assert forall|k: int| 0 <= k < all.len() implies row_stands_for(rows, #[trigger] all[k]) by {
            if k < before.len() {
                assert(all[k] == before[k]);
                assert(row_stands_for(front, before[k]));
                let i = choose|i: int| #[trigger] first_with_id(front, i) && front[i].id
                    == before[k].id && front[i].name == before[k].name;
                lemma_first_with_id(rows, i);
                assert(first_with_id(rows, i) && rows[i] == front[i]);
            } else {
                assert(first_with_id(rows, last)) by {
                    assert forall|j: int| 0 <= j < last implies (#[trigger] rows[j]).id
                        != rows[last].id by {
                        assert(front[j] == rows[j]);
                        assert(has_row(before, front[j].id));
                    }
                }
            }
        }
        assert forall|k: int| 0 <= k < all.len() implies ({
            let row = #[trigger] all[k];
            &&& row.enabled == (composed_word(row.id, layers) != Some(true))
            &&& row.home_layer == !row.managed
            &&& layers.len() > 0 ==> row.home_layer == (last_word(row.id, layers.last()) is Some)
        }) by {
            if k < before.len() {
                assert(all[k] == before[k]);
            }
        }
        assert forall|n: int| 0 <= n <= rows.len() implies shown_rows(
            #[trigger] rows.subrange(0, n),
            layers,
        ).is_prefix_of(all) by {
            if n == rows.len() {
                assert(rows.subrange(0, n) =~= rows);
            } else {
                assert(rows.subrange(0, n) =~= front.subrange(0, n));
            }
        }
    }
}

/// Whether no row before this one has its id.
pub open spec fn first_with_id(rows: Seq<RowView>, i: int) -> bool {
    0 <= i < rows.len() && forall|j: int| 0 <= j < i ==> (#[trigger] rows[j]).id != rows[i].id
}

/// Whether what is shown is the first row of its id.
pub open spec fn row_stands_for(rows: Seq<RowView>, shown: RowShown) -> bool {
    exists|i: int| #[trigger]
        first_with_id(rows, i) && rows[i].id == shown.id && rows[i].name == shown.name
}

proof fn lemma_first_with_id(rows: Seq<RowView>, i: int)
    requires
        rows.len() > 0,
        first_with_id(rows.drop_last(), i),
    ensures
        first_with_id(rows, i),
{
    let front = rows.drop_last();
    assert forall|j: int| 0 <= j < i implies (#[trigger] rows[j]).id != rows[i].id by {
        assert(front[j] == rows[j]);
    }
}

/// The list shows the two bundles that every profile has, and then each dependency of the profile
/// under its name, as it is specified, with the rows of its own patch where it is a layer. What is
/// asked of the service is a restart where a plugin or a lost bundle asks for it.
pub proof fn every_dependency_is_listed(
    os: Os,
    disk: &Disk,
    runtime: &str,
    home: &str,
    snapshot: Option<&Snapshot>,
    m: JsonView,
    deps: Seq<(Seq<char>, JsonView)>,
    r: Result<PluginsListData, String>,
)
    requires
        call_ensures(list_impl, (os, disk, runtime, home, snapshot), r),
        disk::present(
            disk@,
            paths::joined_path(
                os,
                paths::joined_path(os, paths::joined_path(os, home@, "profiles"@), "web"@),
                "package.json"@,
            ),
        ),
        plugin_profile::manifest_at(
            os,
            disk@,
            paths::joined_path(os, paths::joined_path(os, home@, "profiles"@), "web"@),
        ) == Ok::<JsonView, Seq<char>>(m),
        json::member(m, "dependencies"@) == Some(JsonView::Object(deps)),
    ensures
        r is Ok,
        r->Ok_0.initialized,
        r->Ok_0.plugins@.len() == 2 + deps.len(),
        r->Ok_0.plugins@[0]@.name == "@deepseek-ai/dsh-base"@,
        r->Ok_0.plugins@[1]@.name == "@deepseek-ai/dsh-web-app"@,
        r->Ok_0.plugins@[0]@.builtin && r->Ok_0.plugins@[1]@.builtin,
        forall|i: int|
            0 <= i < 2 ==> ({
                let shown = (#[trigger] r->Ok_0.plugins@[i])@;
                &&& shown.is_bundle
                &&& shown.source == "builtin"@
                &&& shown.restart_required <==> differs(
                    opt_snapped(snapshot),
                    shown.name,
                    shown.version,
                )
            }),
        forall|i: int|
            0 <= i < deps.len() ==> ({
                let shown = (#[trigger] r->Ok_0.plugins@[i + 2])@;
                let site = SiteView {
                    os,
                    files: disk@,
                    runtime: runtime@,
                    profile: paths::joined_path(
                        os,
                        paths::joined_path(os, home@, "profiles"@),
                        "web"@,
                    ),
                };
                &&& shown.name == deps[i].0
                &&& deps[i].1 is Str ==> shown.spec == deps[i].1->Str_0
                &&& !shown.builtin
                &&& shown.is_bundle == plugin_profile::is_layer(site, deps[i].0)
                &&& shown.version == version_shown(site, deps[i].0)
                &&& shown.is_bundle ==> shown.rows == shown_rows(
                    package_rows(site, deps[i].0),
                    layers_of(site, home@, plugin_profile::bundles_in(m)),
                )
                &&& !shown.is_bundle ==> shown.rows.len() == 0
                &&& shown.restart_required <==> shown.is_bundle && differs(
                    opt_snapped(snapshot),
                    shown.name,
                    shown.version,
                )
                &&& deps[i].1 is Str ==> shown.source == source_of(os, deps[i].1->Str_0)
            }),
        r->Ok_0.service_restart_required <==> (exists|i: int|
            0 <= i < r->Ok_0.plugins@.len() && (#[trigger] r->Ok_0.plugins@[i])@.restart_required)
            || (snapshot is Some && exists|i: int|
            0 <= i < snapshot->0.bundles@.len() && !plugin_profile::bundles_in(m).contains(
                (#[trigger] snapshot->0.bundles@[i]).name@,
            )),
{
    let profile = plugin_profile::profile_of(os, home@);
    let site = SiteView { os, files: disk@, runtime: runtime@, profile };
    let snap = opt_snapped(snapshot);
    let shown = plugins_shown(site, snap, home@, m);
    let data = r->Ok_0;
    assert(infos(data.plugins@) == shown);
    assert(infos(data.plugins@).len() == data.plugins@.len());
    assert(infos(data.plugins@)[0] == data.plugins@[0]@);
    assert(infos(data.plugins@)[1] == data.plugins@[1]@);
    assert forall|i: int| 0 <= i < deps.len() implies (#[trigger] data.plugins@[i + 2])@ == shown[i
        + 2] by {
        assert(infos(data.plugins@)[i + 2] == data.plugins@[i + 2]@);
    }
    assert(asks_restart(shown) <==> exists|i: int|
        0 <= i < data.plugins@.len() && (#[trigger] data.plugins@[i])@.restart_required) by {
        if asks_restart(shown) {
            let i = choose|i: int| 0 <= i < shown.len() && (#[trigger] shown[i]).restart_required;
            assert(infos(data.plugins@)[i] == data.plugins@[i]@);
        }
        if exists|i: int|
            0 <= i < data.plugins@.len() && (#[trigger] data.plugins@[i])@.restart_required {
            let i = choose|i: int|
                0 <= i < data.plugins@.len() && (#[trigger] data.plugins@[i])@.restart_required;
            assert(infos(data.plugins@)[i] == data.plugins@[i]@);
            assert(shown[i].restart_required);
        }
    }
    if snapshot is Some {
        let held = snapshot->0.bundles@;
        let bundles = plugin_profile::bundles_in(m);
        assert(any_gone(snapped(held), bundles) <==> exists|i: int|
            0 <= i < held.len() && !bundles.contains((#[trigger] held[i]).name@)) by {
            if any_gone(snapped(held), bundles) {
                let i = choose|i: int|
                    0 <= i < snapped(held).len() && #[trigger] is_gone(snapped(held)[i], bundles);
                assert(!bundles.contains(held[i].name@));
            }
            if exists|i: int| 0 <= i < held.len() && !bundles.contains((#[trigger] held[i]).name@) {
                let i = choose|i: int|
                    0 <= i < held.len() && !bundles.contains((#[trigger] held[i]).name@);
                assert(is_gone(snapped(held)[i], bundles));
            }
        }
    }
}

/// The layers of a profile are its bundles, in the order in which it names them, then its own patch
/// file, and above all that of the user's home.
pub proof fn layers_come_in_order(site: SiteView, home: Seq<char>, bundles: Seq<Seq<char>>)
    ensures
        layers_of(site, home, bundles).len() == bundles.len() + 2,
        forall|i: int|
            0 <= i < bundles.len() ==> #[trigger] layers_of(site, home, bundles)[i] == package_rows(
                site,
                bundles[i],
            ),
        layers_of(site, home, bundles)[bundles.len() as int] == file_rows(
            site.files,
            paths::joined_path(site.os, site.profile, "cordis.patch.yml"@),
        ),
        layers_of(site, home, bundles).last() == file_rows(
            site.files,
            paths::joined_path(site.os, home, "cordis.patch.yml"@),
        ),
{
}

/// A plugin asks for a restart just where the service was last started without it, or with another
/// version of it than the one that is known now.
pub proof fn changed_plugin_asks_for_a_restart(
    snap: Option<&Snapshot>,
    name: &str,
    version: &str,
    k: int,
    r: bool,
)
    requires
        call_ensures(snapshot_differs, (snap, name, version), r),
    ensures
        snap is None ==> !r,
        snap matches Some(s) ==> {
            &&& (forall|i: int|
                0 <= i < s.bundles@.len() ==> (#[trigger] s.bundles@[i]).name@ != name@) ==> r
            &&& 0 <= k < s.bundles@.len() && s.bundles@[k].name@ == name@ && (forall|i: int|
                0 <= i < k ==> (#[trigger] s.bundles@[i]).name@ != name@) ==> r == (version@ != "-"@
                && text::opt(s.bundles@[k].version) != Some(version@))
        },
{
    if let Some(s) = snap {
        let list = snapped(s.bundles@);
        if forall|i: int| 0 <= i < s.bundles@.len() ==> (#[trigger] s.bundles@[i]).name@ != name@ {
            assert forall|i: int| 0 <= i < list.len() implies (#[trigger] list[i]).0 != name@ by {
                assert(s.bundles@[i].name@ != name@);
            }
            lemma_version_missing(list, name@);
        }
        if 0 <= k < s.bundles@.len() && s.bundles@[k].name@ == name@ && (forall|i: int|
            0 <= i < k ==> (#[trigger] s.bundles@[i]).name@ != name@) {
            assert forall|i: int| 0 <= i < k implies (#[trigger] list[i]).0 != name@ by {
                assert(s.bundles@[i].name@ != name@);
            }
            lemma_version_at(list, name@, k);
        }
    }
}

proof fn lemma_version_missing(list: Seq<(Seq<char>, Option<Seq<char>>)>, name: Seq<char>)
    requires
        forall|i: int| 0 <= i < list.len() ==> (#[trigger] list[i]).0 != name,
    ensures
        version_in(list, name) is None,
    decreases list.len(),
{
    if list.len() > 0 {
        let rest = list.subrange(1, list.len() as int);
        assert forall|i: int| 0 <= i < rest.len() implies (#[trigger] rest[i]).0 != name by {
            assert(rest[i] == list[i + 1]);
        }
        lemma_version_missing(rest, name);
        assert(list[0].0 != name);
    }
}

proof fn lemma_version_at(list: Seq<(Seq<char>, Option<Seq<char>>)>, name: Seq<char>, k: int)
    requires
        0 <= k < list.len(),
        list[k].0 == name,
        forall|i: int| 0 <= i < k ==> (#[trigger] list[i]).0 != name,
    ensures
        version_in(list, name) == Some(list[k].1),
    decreases list.len(),
{
    if k > 0 {
        let rest = list.subrange(1, list.len() as int);
        assert forall|i: int| 0 <= i < k - 1 implies (#[trigger] rest[i]).0 != name by {
            assert(rest[i] == list[i + 1]);
        }
        lemma_version_at(rest, name, k - 1);
        assert(list[0].0 != name);
    }
}

/// What is remembered of a start is each bundle that the profile names, with the version that is
/// found of it, and when it was. While the service is being changed nothing is remembered.
pub proof fn start_is_remembered_with_its_bundles(
    under_way: bool,
    site: &Site,
    app_data: &str,
    now: u64,
    m: JsonView,
    named: Seq<JsonView>,
    r: Option<Snapshot>,
)
    requires
        call_ensures(record_restart, (under_way, site, app_data, now), r),
        site@.runtime.len() > 0,
        app_data@.len() > 0,
        plugin_profile::manifest_at(site@.os, site@.files, site@.profile) == Ok::<
            JsonView,
            Seq<char>,
        >(m),
        json::at_path(m, seq!["dsh"@, "profile"@, "bundles"@]) == Some(JsonView::Array(named)),
    ensures
        r is Some <==> !under_way,
        r matches Some(s) ==> {
            &&& s.recorded_at == now
            &&& s.profile@ == "web"@
            &&& s.bundles@.len() == json::texts_in(named).len()
            &&& forall|i: int|
                0 <= i < s.bundles@.len() ==> (#[trigger] s.bundles@[i]).name@ == json::texts_in(
                    named,
                )[i] && text::opt(s.bundles@[i].version) == version_found(
                    site@,
                    json::texts_in(named)[i],
                )
        },
{
    if let Some(s) = r {
        let list = snapped(s.bundles@);
        assert(list.len() == s.bundles@.len());
        assert forall|i: int| 0 <= i < s.bundles@.len() implies (#[trigger] s.bundles@[i]).name@
            == json::texts_in(named)[i] && text::opt(s.bundles@[i].version) == version_found(
            site@,
            json::texts_in(named)[i],
        ) by {
            assert(list[i] == (s.bundles@[i].name@, text::opt(s.bundles@[i].version)));
        }
    }
}

/// Where a dependency comes from is told by how it is specified: a path, a repository, or else the
/// registry.
pub proof fn specification_tells_the_source(os: Os, spec: &str, r: String)
    requires
        call_ensures(classify_dep_source, (os, spec), r),
    ensures
        "file:"@.is_prefix_of(spec@) || paths::absolute(os, spec@) ==> r@ == "file"@,
        !"file:"@.is_prefix_of(spec@) && !paths::absolute(os, spec@) ==> r@ == (
        if "git+"@.is_prefix_of(spec@) || "github:"@.is_prefix_of(spec@) || "git://"@.is_prefix_of(
            spec@,
        ) || text::contains(spec@, ".git"@) {
            "git"@
        } else {
            "npm"@
        }),
{
}

/// What the user has typed is taken as it is, without white space around it and without `file:` before
/// it, where it names a package
/// or a repository or an absolute path that is there; `owner/name` means a repository of GitHub.
/// Nothing, a relative path, a path that is not there and a name with white space are refused.
pub proof fn typed_plugin_is_understood(
    os: Os,
    disk: &Disk,
    spec: &str,
    s: Seq<char>,
    r: Result<String, String>,
)
    requires
        call_ensures(normalize_spec, (os, disk, spec), r),
        s == (if "file:"@.is_prefix_of(text::trim(spec@)) {
            text::trim(spec@).subrange(5, text::trim(spec@).len() as int)
        } else {
            text::trim(spec@)
        }),
    ensures
        ({
            let t = text::trim(spec@);
            let relative = s == "."@ || s == ".."@ || "./"@.is_prefix_of(s) || ".\\"@.is_prefix_of(
                s,
            ) || "../"@.is_prefix_of(s) || "..\\"@.is_prefix_of(s);
            let repository = "git+"@.is_prefix_of(s) || "github:"@.is_prefix_of(s)
                || "git://"@.is_prefix_of(s);
            let spaced = exists|i: int| 0 <= i < s.len() && text::space(#[trigger] s[i]);
            &&& t.len() == 0 ==> r is Err && r->Err_0@ == "插件名不能为空"@
            &&& s.len() > 0 && relative ==> r is Err && r->Err_0@
                == "本地路径必须是绝对路径（请粘贴完整路径）。"@
            &&& s.len() > 0 && !relative && paths::absolute(os, s) ==> (if disk::present(
                disk@,
                s,
            ) {
                r is Ok && r->Ok_0@ == s
            } else {
                r is Err && r->Err_0@ == "路径不存在："@ + s
            })
            &&& s.len() > 0 && !relative && !paths::absolute(os, s) && repository ==> r is Ok
                && r->Ok_0@ == s
            &&& s.len() > 0 && !relative && !paths::absolute(os, s) && !repository
                && text::contains(s, "/"@) && !"@"@.is_prefix_of(s) && !".git"@.is_suffix_of(s)
                ==> r is Ok && r->Ok_0@ == "github:"@ + s
            &&& s.len() > 0 && !relative && !paths::absolute(os, s) && !repository && (
            !text::contains(s, "/"@) || "@"@.is_prefix_of(s)) && !".git"@.is_suffix_of(s) ==> (
            if spaced {
                r is Err && r->Err_0@ == "插件名不能包含空格。"@
            } else {
                r is Ok && r->Ok_0@ == s
            })
        }),
{
    reveal_strlit("file:");
    assert(s == typed_spec(spec@));
    if !".git"@.is_suffix_of(s) {
        assert(text::strip_end_all(s, ".git"@) == s);
    }
}

/// npm is told to install what was understood, and may take longer where it comes from no registry.
/// What the profile depended on before is kept to compare.
pub proof fn npm_installs_what_was_understood(
    os: Os,
    disk: &Disk,
    profile: &str,
    spec: &str,
    source: &str,
    n: Seq<char>,
    m: JsonView,
    r: Result<AddPlan, String>,
)
    requires
        call_ensures(plan_add, (os, disk, profile, spec, source), r),
        normalized(os, disk@, spec@) == Ok::<Seq<char>, Seq<char>>(n),
        plugin_profile::manifest_at(os, disk@, profile@) == Ok::<JsonView, Seq<char>>(m),
    ensures
        r is Ok,
        r->Ok_0.npm_spec@ == n,
        text::strs(r->Ok_0.args@) == seq![
            "install"@,
            n,
            "--no-audit"@,
            "--no-fund"@,
            "--no-update-notifier"@,
            "--loglevel=error"@,
            "--legacy-peer-deps"@,
        ] + (if source@ == "npmjs"@ {
            seq!["--registry"@, "https://registry.npmjs.org"@]
        } else if source@ == "npmmirror"@ {
            seq!["--registry"@, "https://registry.npmmirror.com"@]
        } else {
            Seq::empty()
        }),
        text::strs(r->Ok_0.before@) == plugin_profile::dependencies(m),
        r->Ok_0.remote <==> !("git+"@.is_prefix_of(n) || "github:"@.is_prefix_of(n)
            || "git://"@.is_prefix_of(n) || paths::absolute(os, n)),
        r->Ok_0.timeout == (if r->Ok_0.remote {
            600_000u64
        } else {
            1_800_000u64
        }),
{
}

/// An installation that fails is tried once more, from the mirror, only where the registry is left
/// to the application and the plugin comes from one. What comes out of the last try is the result.
pub proof fn installation_is_tried_from_the_mirror(
    remote: bool,
    source: &str,
    at: Adding,
    outcome: Result<(), String>,
    r: Adding,
)
    requires
        call_ensures(add_step, (remote, source, at, outcome), r),
    ensures
        at@ matches AddingView::Running { args, again } ==> {
            &&& outcome is Ok ==> r@ is Done && r@->Done_0 is Ok
            &&& outcome matches Err(e) ==> if !again && source@ == "auto"@ && remote {
                r@ == (AddingView::Running {
                    args: args + seq!["--registry"@, "https://registry.npmmirror.com"@],
                    again: true,
                })
            } else {
                r@ is Done && r@->Done_0 == Err::<(), Seq<char>>(e@)
            }
        },
        at@ is Done ==> r@ == at@,
{
}

/// What was installed is the first dependency that was not there before, and its version is told;
/// where there is none the user is told that it was there, or that nothing came of it.
pub proof fn new_dependency_was_installed(
    site: &Site,
    plan: &AddPlan,
    m: JsonView,
    k: int,
    r: Result<AddDone, String>,
)
    requires
        call_ensures(finish_add, (site, plan), r),
        plugin_profile::manifest_at(site@.os, site@.files, site@.profile) == Ok::<
            JsonView,
            Seq<char>,
        >(m),
    ensures
        0 <= k < plugin_profile::dependencies(m).len() && !text::strs(plan.before@).contains(
            plugin_profile::dependencies(m)[k],
        ) && (forall|i: int|
            0 <= i < k ==> text::strs(plan.before@).contains(
                #[trigger] plugin_profile::dependencies(m)[i],
            )) && r is Ok ==> {
            &&& r->Ok_0.result.name@ == plugin_profile::dependencies(m)[k]
            &&& r->Ok_0.result.version@ == version_shown(site@, plugin_profile::dependencies(m)[k])
            &&& r->Ok_0.result.restart_required
            &&& r->Ok_0.result.warning is None <==> plugin_profile::is_layer(
                site@,
                plugin_profile::dependencies(m)[k],
            )
        },
        (forall|i: int|
            0 <= i < plugin_profile::dependencies(m).len() ==> text::strs(plan.before@).contains(
                #[trigger] plugin_profile::dependencies(m)[i],
            )) ==> r is Err,
{
    let deps = plugin_profile::dependencies(m);
    let before = text::strs(plan.before@);
    if 0 <= k < deps.len() && !before.contains(deps[k]) && (forall|i: int|
        0 <= i < k ==> before.contains(#[trigger] deps[i])) {
        lemma_first_new(deps, before, k);
    }
    if forall|i: int| 0 <= i < deps.len() ==> before.contains(#[trigger] deps[i]) {
        lemma_none_new(deps, before);
    }
}

proof fn lemma_first_new(names: Seq<Seq<char>>, before: Seq<Seq<char>>, k: int)
    requires
        0 <= k < names.len(),
        !before.contains(names[k]),
        forall|i: int| 0 <= i < k ==> before.contains(#[trigger] names[i]),
    ensures
        first_new(names, before) == Some(names[k]),
    decreases names.len(),
{
    if k > 0 {
        let rest = names.subrange(1, names.len() as int);
        assert forall|i: int| 0 <= i < k - 1 implies before.contains(#[trigger] rest[i]) by {
            assert(rest[i] == names[i + 1]);
        }
        lemma_first_new(rest, before, k - 1);
        assert(before.contains(names[0]));
    }
}

proof fn lemma_none_new(names: Seq<Seq<char>>, before: Seq<Seq<char>>)
    requires
        forall|i: int| 0 <= i < names.len() ==> before.contains(#[trigger] names[i]),
    ensures
        first_new(names, before) is None,
    decreases names.len(),
{
    if names.len() > 0 {
        let rest = names.subrange(1, names.len() as int);
        assert forall|i: int| 0 <= i < rest.len() implies before.contains(#[trigger] rest[i]) by {
            assert(rest[i] == names[i + 1]);
        }
        lemma_none_new(rest, before);
        assert(before.contains(names[0]));
    }
}

/// A plugin that is installed is removed by npm under its name; one that is not is refused.
pub proof fn only_an_installed_plugin_is_removed(
    os: Os,
    disk: &Disk,
    profile: &str,
    name: &str,
    source: &str,
    m: JsonView,
    r: Result<RemovePlan, String>,
)
    requires
        call_ensures(remove_impl, (os, disk, profile, name, source), r),
        plugin_profile::manifest_at(os, disk@, profile@) == Ok::<JsonView, Seq<char>>(m),
    ensures
        r is Ok <==> plugin_profile::dependencies(m).contains(name@),
        r matches Ok(plan) ==> plan.args@.len() >= 2 && text::strs(plan.args@)[0] == "uninstall"@
            && text::strs(plan.args@)[1] == name@ && text::strs(plan.before@)
            == plugin_profile::dependencies(m),
        r matches Err(e) ==> e@ == "未安装该插件。"@,
{
    if r is Ok {
        assert(text::strs(r->Ok_0.args@).len() == r->Ok_0.args@.len());
    }
}

/// Of the plugins that are blamed, those that the profile depends on can be removed, all of them and
/// no others, in the order of the profile.
pub proof fn blamed_dependencies_are_removable(
    os: Os,
    disk: &Disk,
    profile: &str,
    names: &[String],
    m: JsonView,
    r: Vec<String>,
)
    requires
        call_ensures(removable_from_manifest, (os, disk, profile, names), r),
        plugin_profile::manifest_at(os, disk@, profile@) == Ok::<JsonView, Seq<char>>(m),
    ensures
        text::strs(r@) == plugin_profile::dependencies(m).filter(
            |d: Seq<char>| text::strs(names@).contains(d),
        ),
{
    lemma_common(plugin_profile::dependencies(m), text::strs(names@));
}

proof fn lemma_common(deps: Seq<Seq<char>>, names: Seq<Seq<char>>)
    ensures
        common(deps, names) == deps.filter(|d: Seq<char>| names.contains(d)),
    decreases deps.len(),
{
    reveal(Seq::filter);
    if deps.len() > 0 {
        lemma_common(deps.drop_last(), names);
    }
}

/// Of the plugins whose removal was tried, those are told whose removal went well.
pub proof fn removed_plugins_are_told(tried: &[(String, Result<(), String>)], r: Vec<String>)
    requires
        call_ensures(removed_plugins, (tried,), r),
    ensures
        text::strs(r@) == tried@.filter(|t: (String, Result<(), String>)| t.1 is Ok).map_values(
            |t: (String, Result<(), String>)| t.0@,
        ),
{
    lemma_removed(tried@);
}

proof fn lemma_removed(tried: Seq<(String, Result<(), String>)>)
    ensures
        removed_names(tried) == tried.filter(
            |t: (String, Result<(), String>)| t.1 is Ok,
        ).map_values(|t: (String, Result<(), String>)| t.0@),
    decreases tried.len(),
{
    let well = |t: (String, Result<(), String>)| t.1 is Ok;
    let name = |t: (String, Result<(), String>)| t.0@;
    reveal(Seq::filter);
    if tried.len() > 0 {
        lemma_removed(tried.drop_last());
        let front = tried.drop_last().filter(well);
        if well(tried.last()) {
            assert(tried.filter(well) == front.push(tried.last()));
            assert(front.push(tried.last()).map_values(name) =~= front.map_values(name).push(
                name(tried.last()),
            ));
        } else {
            assert(tried.filter(well) == front);
        }
    } else {
        assert(removed_names(tried) =~= tried.filter(well).map_values(name));
    }
}

/// A specification means a package by its name, or by the directory whose manifest has that name.
pub proof fn specification_means_a_package(
    os: Os,
    disk: &Disk,
    spec: &str,
    name: &str,
    r: bool,
)
    requires
        call_ensures(spec_matches_name, (os, disk, spec, name), r),
    ensures
        spec@ == name@ ==> r,
        spec@ != name@ && !"file:"@.is_prefix_of(spec@) && !paths::absolute(os, spec@) ==> !r,
        !"file:"@.is_prefix_of(spec@) && paths::absolute(os, spec@) && spec@ != name@ ==> (r
            <==> plugin_profile::json_at(
            disk@,
            paths::joined_path(os, spec@, "package.json"@),
        ) is Some && json::member(
            plugin_profile::json_at(disk@, paths::joined_path(os, spec@, "package.json"@))->0,
            "name"@,
        ) == Some(JsonView::Str(name@))),
{
}

/// The plugin that every user gets is installed unless that was dealt with before; where it is there
/// already that is only noted, and a note is made of a later installation just where it went well.
pub proof fn every_user_gets_the_plugin_once(
    os: Os,
    disk: &Disk,
    app_data: &str,
    home: &str,
    r: DefaultPlugin,
)
    requires
        call_ensures(ensure_default_plugin, (os, disk, app_data, home), r),
    ensures
        r is Leave <==> disk::present(
            disk@,
            paths::joined_path(os, app_data@, "default-plugin.json"@),
        ),
        r matches DefaultPlugin::Install(name) ==> name@ == "dshmarket"@,
        !(r is Leave) ==> (r is Mark <==> installed_names(os, disk@, home@).contains(
            "dshmarket"@,
        )),
{
    let names = seq!["dshmarket"@];
    if let Ok(m) = plugin_profile::manifest_at(os, disk@, plugin_profile::profile_of(os, home@)) {
        let deps = plugin_profile::dependencies(m);
        lemma_common_some(deps, names);
        if deps.contains("dshmarket"@) {
            let k = choose|k: int| 0 <= k < deps.len() && deps[k] == "dshmarket"@;
            assert(names[0] == deps[k]);
            assert(names.contains(deps[k]));
        }
        if common(deps, names).len() > 0 {
            let i = choose|i: int| 0 <= i < deps.len() && names.contains(#[trigger] deps[i]);
            assert(deps[i] == "dshmarket"@);
        }
    }
}

proof fn lemma_common_some(deps: Seq<Seq<char>>, names: Seq<Seq<char>>)
    ensures
        common(deps, names).len() > 0 <==> exists|i: int|
            0 <= i < deps.len() && names.contains(#[trigger] deps[i]),
    decreases deps.len(),
{
    if deps.len() > 0 {
        let front = deps.drop_last();
        lemma_common_some(front, names);
        if common(front, names).len() > 0 {
            let i = choose|i: int| 0 <= i < front.len() && names.contains(#[trigger] front[i]);
            assert(deps[i] == front[i]);
        }
        if names.contains(deps.last()) {
            assert(names.contains(deps[deps.len() - 1]));
        }
        if exists|i: int| 0 <= i < deps.len() && names.contains(#[trigger] deps[i]) {
            let i = choose|i: int| 0 <= i < deps.len() && names.contains(#[trigger] deps[i]);
            if i < front.len() {
                assert(front[i] == deps[i]);
            }
        }
    }
}

/// Plugins are only dealt with once the service was set up; one that is there is not added again, and
/// one that is not there is not removed.
pub proof fn plugins_need_a_service(
    os: Os,
    disk: &Disk,
    runtime: &str,
    home: &str,
    what: &str,
    added: Result<(), String>,
    removed: Result<(), String>,
)
    requires
        call_ensures(plugins_add, (os, disk, runtime, home, what), added),
        call_ensures(plugins_remove, (os, disk, runtime, home, what), removed),
    ensures
        runtime@.len() == 0 ==> added is Err && removed is Err && added->Err_0@
            == "服务尚未初始化"@ && removed->Err_0@ == "服务尚未初始化"@,
        runtime@.len() > 0 ==> (removed is Ok <==> installed_names(os, disk@, home@).contains(
            what@,
        )),
        runtime@.len() > 0 && installed_names(os, disk@, home@).contains(what@) ==> added is Err
            && added->Err_0@ == "该插件已安装。"@,
        runtime@.len() > 0 && !installed_names(os, disk@, home@).contains(what@)
            && !"file:"@.is_prefix_of(what@) && !paths::absolute(os, what@) ==> added is Ok,
{
    let names = installed_names(os, disk@, home@);
    if names.contains(what@) {
        let k = choose|k: int| 0 <= k < names.len() && names[k] == what@;
        assert(means_package(os, disk@, what@, names[k]));
    }
    if means_one(os, disk@, what@, names) && !"file:"@.is_prefix_of(what@) && !paths::absolute(
        os,
        what@,
    ) {
        let i = choose|i: int|
            0 <= i < names.len() && means_package(os, disk@, what@, #[trigger] names[i]);
        assert(names[i] == what@);
    }
}

/// A row that is switched is listed so: once the text that the switch gives is in the profile's patch
/// file, the list shows every row of that id as it was switched, and the application's to switch,
/// as long as the patch file of the user's home says nothing of it.
pub proof fn switched_row_is_shown_in_the_list(
    os: Os,
    disk: &Disk,
    then: &Disk,
    profile: &str,
    runtime: &str,
    home: &str,
    snapshot: Option<&Snapshot>,
    id: &str,
    enabled: bool,
    switched: Result<PatchWrite, String>,
    list: Result<PluginsListData, String>,
)
    requires
        call_ensures(set_enabled_impl, (os, disk, profile, id, enabled), switched),
        call_ensures(list_impl, (os, then, runtime, home, snapshot), list),
        profile@ == paths::joined_path(os, paths::joined_path(os, home@, "profiles"@), "web"@),
        switched is Ok,
        then@ == disk@.insert(
            paths::joined_path(os, profile@, "cordis.patch.yml"@),
            FileView::Text(switched->Ok_0.text@),
        ),
        last_word(
            text::trim(id@),
            file_rows(then@, paths::joined_path(os, home@, "cordis.patch.yml"@)),
        ) is None,
    ensures
        list matches Ok(data) ==> forall|i: int, k: int|
            0 <= i < data.plugins@.len() && 0 <= k < infos(data.plugins@)[i].rows.len() ==> {
                let row = #[trigger] infos(data.plugins@)[i].rows[k];
                row.id == text::trim(id@) ==> row.enabled == enabled && row.managed
            },
{
    let path = paths::joined_path(os, profile@, "cordis.patch.yml"@);
    let text = disk::contents(disk@, path)->Ok_0;
    assert(disk::contents(disk@, path) == Ok::<Seq<char>, Seq<char>>(text));
    switched_row_is_listed(
        os,
        disk@,
        runtime@,
        home@,
        opt_snapped(snapshot),
        id@,
        enabled,
        text,
        switched->Ok_0.text@,
        list,
    );
}

/// A row needs an id, which is taken without white space around it; the switch says that it is
/// disabled just where it is switched off, and goes beside the profile's patch file.
pub proof fn switch_speaks_of_its_row(
    os: Os,
    disk: &Disk,
    profile: &str,
    id: &str,
    enabled: bool,
    r: Result<PatchWrite, String>,
)
    requires
        call_ensures(set_enabled_impl, (os, disk, profile, id, enabled), r),
    ensures
        text::trim(id@).len() == 0 ==> r is Err && r->Err_0@ == "行 id 不能为空"@,
        r matches Ok(w) ==> {
            &&& text::trim(id@).len() > 0
            &&& w.temp@ == paths::with_extension_of(
                os,
                paths::joined_path(os, profile@, "cordis.patch.yml"@),
                "yml.tmp"@,
            )
            &&& plugin_profile::patch_entries(w.text@) is Some
            &&& ({
                let rows = plugin_profile::patch_rows(plugin_profile::patch_entries(w.text@)->0);
                &&& rows.len() > 0
                &&& rows.last().id == text::trim(id@)
                &&& rows.last().disabled == Some(!enabled)
            })
        },
{
}

/// The list is given only once the service was set up, and then it is the list of the profile.
pub proof fn list_needs_a_service(
    os: Os,
    disk: &Disk,
    runtime: &str,
    home: &str,
    snapshot: Option<&Snapshot>,
    names: &[String],
    r: Result<PluginsListData, String>,
    gone: Result<Vec<String>, String>,
)
    requires
        call_ensures(plugins_list, (os, disk, runtime, home, snapshot), r),
        call_ensures(plugins_remove_incompatible, (os, disk, runtime, home, names), gone),
    ensures
        runtime@.len() == 0 ==> r is Err && r->Err_0@ == "服务尚未初始化"@ && gone is Err
            && gone->Err_0@ == "服务尚未初始化"@,
        runtime@.len() > 0 ==> listed(os, disk@, runtime@, home@, opt_snapped(snapshot), r),
        runtime@.len() > 0 ==> gone is Ok && text::strs(gone->Ok_0@) == installed_names(
            os,
            disk@,
            home@,
        ).filter(|d: Seq<char>| text::strs(names@).contains(d)),
{
    if runtime@.len() > 0 {
        match plugin_profile::manifest_at(os, disk@, plugin_profile::profile_of(os, home@)) {
            Ok(m) => {
                lemma_common(plugin_profile::dependencies(m), text::strs(names@));
            },
            Err(_) => {
                reveal(Seq::filter);
            },
        }
    }
}

/// Of the plugins that are blamed those can be removed that are installed in the profile of the data
/// directory.
pub proof fn blamed_plugins_are_removable(
    os: Os,
    disk: &Disk,
    home: &str,
    names: &[String],
    r: Vec<String>,
)
    requires
        call_ensures(removable_plugin_names, (os, disk, home, names), r),
    ensures
        text::strs(r@) == installed_names(os, disk@, home@).filter(
            |d: Seq<char>| text::strs(names@).contains(d),
        ),
{
    match plugin_profile::manifest_at(os, disk@, plugin_profile::profile_of(os, home@)) {
        Ok(m) => {
            lemma_common(plugin_profile::dependencies(m), text::strs(names@));
        },
        Err(_) => {
            reveal(Seq::filter);
        },
    }
}

/// The names that are asked after are the two bundles that every profile has, then those that the
/// profile names, then its dependencies.
pub proof fn all_names_are_asked_after(os: Os, disk: &Disk, profile: &str, m: JsonView, r: Vec<String>)
    requires
        call_ensures(list_names, (os, disk, profile), r),
        plugin_profile::manifest_at(os, disk@, profile@) == Ok::<JsonView, Seq<char>>(m),
    ensures
        text::strs(r@) == seq!["@deepseek-ai/dsh-base"@, "@deepseek-ai/dsh-web-app"@] + (
        plugin_profile::bundles_in(m) + plugin_profile::dependencies(m)),
{
}

/// A plugin counts as installed where one of the dependencies is what the specification means.
pub proof fn installed_plugin_is_recognised(
    os: Os,
    disk: &Disk,
    deps: &[String],
    spec: &str,
    k: int,
    r: bool,
)
    requires
        call_ensures(already_installed, (os, disk, deps, spec), r),
    ensures
        0 <= k < deps@.len() && deps@[k]@ == spec@ ==> r,
        deps@.len() == 0 ==> !r,
        r ==> exists|i: int|
            0 <= i < deps@.len() && means_package(os, disk@, spec@, (#[trigger] deps@[i])@),
{
    let names = text::strs(deps@);
    if 0 <= k < deps@.len() && deps@[k]@ == spec@ {
        assert(means_package(os, disk@, spec@, names[k]));
    }
    if r {
        let i = choose|i: int|
            0 <= i < names.len() && means_package(os, disk@, spec@, #[trigger] names[i]);
        assert(names[i] == deps@[i]@);
    }
}

/// A first try installs what was planned, and what comes of the plugin that every user gets is noted
/// with its name and its version, just where it went well.
pub proof fn planned_installation_is_tried(
    plan: &AddPlan,
    at: Adding,
    outcome: &Result<PluginAddResult, String>,
    note: Option<String>,
)
    requires
        call_ensures(add_begin, (plan,), at),
        call_ensures(installed_default_plugin, (outcome,), note),
    ensures
        at@ == (AddingView::Running { args: text::strs(plan.args@), again: false }),
        note is Some <==> outcome is Ok,
        outcome matches Ok(done) ==> note->0@ == json::json_compact(
            JsonView::Object(
                seq![
                    ("installed"@, JsonView::Bool(true)),
                    ("name"@, JsonView::Str(done.name@)),
                    ("version"@, JsonView::Str(done.version@)),
                ],
            ),
        ),
{
}

/// A start is remembered in the same way whoever asks for it.
pub proof fn start_is_remembered_in_one_way(
    site: &Site,
    app_data: &str,
    now: u64,
    written: Option<Snapshot>,
    forced: Option<Snapshot>,
    recorded: Option<Snapshot>,
)
    requires
        call_ensures(write_snapshot, (site, app_data, now), written),
        call_ensures(record_restart_force, (site, app_data, now), forced),
        call_ensures(record_restart, (false, site, app_data, now), recorded),
    ensures
        written is Some <==> recorded is Some,
        forced is Some <==> recorded is Some,
        recorded is Some ==> snapped(written->0.bundles@) == snapped(recorded->0.bundles@)
            && snapped(forced->0.bundles@) == snapped(recorded->0.bundles@)
            && written->0.recorded_at == now && forced->0.recorded_at == now,
        site@.runtime.len() == 0 || app_data@.len() == 0 ==> recorded is None,
{
}

/// The files that are looked at before a plugin is added or listed are those that decide.
pub proof fn deciding_files_are_asked_after(
    os: Os,
    app_data: &str,
    spec: &str,
    place: Option<String>,
    manifest: Option<String>,
    snapshot: String,
    marker: String,
)
    requires
        call_ensures(spec_question, (os, spec), place),
        call_ensures(name_question, (os, spec), manifest),
        call_ensures(snapshot_path, (os, app_data), snapshot),
        call_ensures(default_plugin_marker, (os, app_data), marker),
    ensures
        snapshot@ == paths::joined_path(os, app_data@, "plugins-state.json"@),
        marker@ == paths::joined_path(os, app_data@, "default-plugin.json"@),
        !"file:"@.is_prefix_of(text::trim(spec@)) ==> (place is Some <==> paths::absolute(
            os,
            text::trim(spec@),
        )) && (place is Some ==> place->0@ == text::trim(spec@)),
        !"file:"@.is_prefix_of(spec@) ==> (manifest is Some <==> paths::absolute(os, spec@)) && (
        manifest is Some ==> manifest->0@ == paths::joined_path(os, spec@, "package.json"@)),
{
}

/// The rows of a package are those of the patch in the directory where it is found, and a package that
/// is nowhere has none; the rows of a file are those of its entries. A version that is not known is
/// shown as a dash.
pub proof fn rows_are_those_of_the_found_patch(site: SiteView, name: Seq<char>, path: Seq<char>)
    ensures
        plugin_profile::bundle_dir(site, name) is None ==> package_rows(site, name).len() == 0
            && version_shown(site, name) == "-"@,
        plugin_profile::bundle_dir(site, name) matches Some(dir) ==> {
            &&& package_rows(site, name) == plugin_profile::bundle_rows(site.os, site.files, dir)
            &&& plugin_profile::version_at(site.os, site.files, dir) matches Some(v)
                ==> version_shown(site, name) == v
            &&& plugin_profile::version_at(site.os, site.files, dir) is None ==> version_shown(
                site,
                name,
            ) == "-"@
        },
        plugin_profile::patch_at(site.files, path) matches Some(entries) ==> file_rows(
            site.files,
            path,
        ) == plugin_profile::patch_rows(entries),
        plugin_profile::patch_at(site.files, path) is None ==> file_rows(site.files, path).len()
            == 0,
{
}

/// Without a profile there is nothing to list and no restart to ask for; a manifest that cannot be
/// read is told of.
pub proof fn no_profile_lists_nothing(
    os: Os,
    disk: &Disk,
    runtime: &str,
    home: &str,
    snapshot: Option<&Snapshot>,
    profile: Seq<char>,
    r: Result<PluginsListData, String>,
)
    requires
        call_ensures(list_impl, (os, disk, runtime, home, snapshot), r),
        profile == paths::joined_path(os, paths::joined_path(os, home@, "profiles"@), "web"@),
    ensures
        !disk::present(disk@, paths::joined_path(os, profile, "package.json"@)) ==> r is Ok
            && !r->Ok_0.initialized && r->Ok_0.plugins@.len() == 0
            && !r->Ok_0.service_restart_required,
        disk::present(disk@, paths::joined_path(os, profile, "package.json"@)) ==> (
        plugin_profile::manifest_at(os, disk@, profile) matches Err(e) ==> r is Err && r->Err_0@
            == e),
        r matches Ok(data) ==> data.profile_dir@ == profile,
{
}

/// What a package is known by at the last start decides whether it differs: its absence does, and
/// another version does unless the one now is unknown.
pub proof fn difference_is_absence_or_another_version(
    list: Seq<(Seq<char>, Option<Seq<char>>)>,
    name: Seq<char>,
    version: Seq<char>,
    held: Option<Seq<char>>,
)
    ensures
        !differs(None, name, version),
        differs(Some(Seq::empty()), name, version),
        differs(Some(seq![(name, held)] + list), name, version) == (version != "-"@ && held != Some(
            version,
        )),
        forall|other: Seq<char>|
            other != name ==> #[trigger] differs(Some(seq![(other, held)] + list), name, version)
                == differs(Some(list), name, version),
{
    let a = seq![(name, held)] + list;
    assert(a[0] == (name, held));
    assert forall|other: Seq<char>| other != name implies #[trigger] differs(
        Some(seq![(other, held)] + list),
        name,
        version,
    ) == differs(Some(list), name, version) by {
        let b = seq![(other, held)] + list;
        assert(b[0] == (other, held));
        assert(b.subrange(1, b.len() as int) =~= list);
    }
}

} // verus!
