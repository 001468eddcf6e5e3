use dsh_desktop::disk::{Disk, FileState};
use dsh_desktop::json::{parse_json, Json};
use dsh_desktop::paths::Os;
use dsh_desktop::plugins::plugin_market::{
    catalogue_urls, parse_awesome_readme, plugins_marketplace, topic_error, topic_items, GhRepo,
};
use dsh_desktop::plugins::plugin_npm::{
    friendly_npm_error, npm_cli_path, npm_questions, npm_step, registry_flag, run_npm, tail,
    NpmNext, NpmPoll, GIT_TIMEOUT, NPM_TIMEOUT,
};
use dsh_desktop::plugins::plugin_profile::{
    append_disable_row, bundle_questions, bundles_of, dep_keys, dsh_home, dsh_home_from,
    ensure_profile, exports_patch, parse_patch_file_opt, profile_dir, read_manifest, reconcile,
    resolve_bundle_dir, row_patches, write_manifest, RowPatch, Site,
};
use dsh_desktop::plugins::{
    add_begin, add_step, already_installed, classify_dep_source, composed_enabled, default_plugin_marker,
    ensure_default_plugin, finish_add, installed_default_plugin, list_impl, list_names,
    name_question, normalize_spec, plan_add, plugins_add, plugins_list, plugins_remove,
    plugins_remove_incompatible, record_restart, record_restart_force, removable_from_manifest,
    removable_plugin_names, remove_impl, removed_plugins, row_id, set_enabled_impl,
    snapshot_differs, snapshot_path, spec_question, write_snapshot, Adding, DefaultPlugin,
    PluginAddResult, Snapshot, SnapshotBundle,
};

const OS: Os = Os::Linux;

const BASE: &str = "@deepseek-ai/dsh-base";

const PATCH_TEMPLATE: &str = "# Your patch layer for this dsh profile, applied after every bundle layer:\n# a top-level YAML array of loader patch entries (id-targeted config\n# overrides, disables, and insert lists; `!!js` expressions allowed).\n[]\n";

fn put(disk: &mut Disk, path: &str, text: &str) {
    disk.learn(path.to_string(), FileState::Text(text.to_string()));
}

fn names(list: &[&str]) -> Vec<String> {
    list.iter().map(|s| s.to_string()).collect()
}

fn profile_with_deps() -> Disk {
    let mut disk = Disk::new();
    put(
        &mut disk,
        "/profile/package.json",
        r#"{"name":"dsh-profile-web","private":true,
            "dependencies":{"plugin-b":"^1.0.0","plugin-a":"^1.0.0","plugin-c":"^1.0.0"},
            "dsh":{"profile":{"bundles":[]}}}"#,
    );
    disk
}

fn make_runtime(disk: &mut Disk, root: &str, bundle_name: &str) {
    put(
        disk,
        &format!("{root}/node_modules/@deepseek-ai/dsh/package.json"),
        r#"{"name":"@deepseek-ai/dsh","version":"0.1.1-rc.2"}"#,
    );
    let dir = format!("{root}/node_modules/{bundle_name}");
    put(
        disk,
        &format!("{dir}/package.json"),
        &format!(
            r#"{{"name":"{bundle_name}","version":"1.0.0","dsh":{{"bundle":{{"patch":"./cordis.patch.yml"}}}}}}"#
        ),
    );
    put(
        disk,
        &format!("{dir}/./cordis.patch.yml"),
        "- insert:\n    - id: test-row\n      name: 'test-entry'\n",
    );
}

fn site<'a>(disk: &'a Disk) -> Site<'a> {
    Site { os: OS, disk, runtime: "/runtime", profile: "/profile" }
}

#[test]
fn removable_from_manifest_intersects_and_orders_deterministically() {
    let disk = profile_with_deps();
    let asked = names(&["plugin-c", "ghost", "plugin-a", "plugin-b"]);
    assert_eq!(
        removable_from_manifest(OS, &disk, "/profile", &asked),
        vec!["plugin-a", "plugin-b", "plugin-c"]
    );
}

#[test]
fn removable_from_manifest_empty_when_no_overlap() {
    let disk = profile_with_deps();
    assert!(removable_from_manifest(OS, &disk, "/profile", &names(&["ghost"])).is_empty());
}

#[test]
fn removable_from_manifest_missing_profile_is_empty() {
    let disk = Disk::new();
    assert!(removable_from_manifest(OS, &disk, "/nope", &names(&["plugin-a"])).is_empty());
}

#[test]
fn removable_names_do_not_depend_on_order() {
    let disk = profile_with_deps();
    let a = removable_from_manifest(OS, &disk, "/profile", &names(&["plugin-a", "plugin-c"]));
    let b = removable_from_manifest(
        OS,
        &disk,
        "/profile",
        &names(&["plugin-c", "plugin-a", "plugin-c"]),
    );
    assert_eq!(a, b);
    assert_eq!(a, vec!["plugin-a", "plugin-c"]);
}

#[test]
fn normalize_spec_cases() {
    let mut disk = Disk::new();
    let norm = |disk: &Disk, s: &str| normalize_spec(OS, disk, s);
    assert_eq!(norm(&disk, "dsh-plugin-manager").unwrap(), "dsh-plugin-manager");
    assert_eq!(norm(&disk, "@scope/pkg").unwrap(), "@scope/pkg");
    assert_eq!(norm(&disk, "some-org/my-plugin").unwrap(), "github:some-org/my-plugin");
    assert_eq!(norm(&disk, "some-org/my-plugin.git").unwrap(), "github:some-org/my-plugin");
    assert_eq!(norm(&disk, "github:a/b").unwrap(), "github:a/b");
    assert_eq!(
        norm(&disk, "git+https://example.com/x.git").unwrap(),
        "git+https://example.com/x.git"
    );
    assert!(norm(&disk, "./plugin").is_err());
    assert!(norm(&disk, "../plugin").is_err());
    assert!(norm(&disk, "").is_err());
    disk.learn("/root".to_string(), FileState::Unreadable("a directory".to_string()));
    assert_eq!(norm(&disk, "/root").unwrap(), "/root");
    assert!(norm(&disk, "/root/ghost").is_err());
}

#[test]
fn specifications_are_refused_with_a_reason() {
    let disk = Disk::new();
    let err = |s: &str| normalize_spec(OS, &disk, s).unwrap_err();
    assert_eq!(err("  "), "插件名不能为空");
    assert_eq!(err("."), "本地路径必须是绝对路径（请粘贴完整路径）。");
    assert_eq!(err("file:../x"), "本地路径必须是绝对路径（请粘贴完整路径）。");
    assert_eq!(err("/x"), "路径不存在：/x");
    assert_eq!(err("a b"), "插件名不能包含空格。");
    assert_eq!(normalize_spec(OS, &disk, " x.git ").unwrap(), "x.git");
    assert_eq!(spec_question(OS, "file:/x").as_deref(), Some("/x"));
    assert_eq!(spec_question(OS, "x"), None);
    assert_eq!(spec_question(Os::Windows, r"C:\x").as_deref(), Some(r"C:\x"));
}

#[test]
fn ensure_default_plugin_marks_when_already_installed() {
    let home = "/home/.dsh";
    let profile = profile_dir(OS, home);
    assert_eq!(profile, "/home/.dsh/profiles/web");
    let mut disk = Disk::new();
    for w in ensure_profile(OS, &disk, &profile).unwrap() {
        put(&mut disk, &w.path, &w.text);
    }
    put(
        &mut disk,
        "/home/.dsh/profiles/web/package.json",
        r#"{"name":"dsh-profile-web","dependencies":{"dshmarket":"^1.0.0"}}"#,
    );
    match ensure_default_plugin(OS, &disk, "/appdata", home) {
        DefaultPlugin::Mark(text) => {
            assert_eq!(text, r#"{"installed":true,"name":"dshmarket"}"#, "补写标记")
        }
        other => panic!("{:?}", other),
    }
}

#[test]
fn ensure_default_plugin_skips_when_marker_exists() {
    let mut disk = Disk::new();
    put(&mut disk, "/appdata/default-plugin.json", "{\"installed\":true}");
    assert_eq!(default_plugin_marker(OS, "/appdata"), "/appdata/default-plugin.json");
    assert!(
        matches!(ensure_default_plugin(OS, &disk, "/appdata", "/home"), DefaultPlugin::Leave),
        "标记短路，无副作用"
    );
}

#[test]
fn default_plugin_is_installed_otherwise() {
    let disk = Disk::new();
    match ensure_default_plugin(OS, &disk, "/appdata", "/home") {
        DefaultPlugin::Install(name) => assert_eq!(name, "dshmarket"),
        other => panic!("{:?}", other),
    }
    let result = PluginAddResult {
        name: "dshmarket".to_string(),
        version: "1.2.3".to_string(),
        restart_required: true,
        warning: None,
    };
    assert_eq!(
        installed_default_plugin(&Ok(result)).as_deref(),
        Some(r#"{"installed":true,"name":"dshmarket","version":"1.2.3"}"#)
    );
    assert_eq!(installed_default_plugin(&Err("no network".to_string())), None);
}

#[test]
fn parse_awesome_readme_classifies_entries() {
    let text = "# Awesome\n- [My Plugin](https://github.com/someone/my-plugin)\n- [@scope/cool](https://www.npmjs.com/package/@scope/cool)\n- [skip me](https://example.com/nope)\n";
    let items = parse_awesome_readme(text);
    assert_eq!(items.len(), 2);
    assert_eq!(items[0].spec, "github:someone/my-plugin");
    assert_eq!(items[0].source, "github");
    assert_eq!(items[1].spec, "@scope/cool");
    assert_eq!(items[1].source, "npm");
}

#[test]
fn catalogue_entries_are_read_in_full() {
    let items = parse_awesome_readme(
        "  - [](https://github.com/a//b.git/tree) — – does things  \n- [x](https://npmjs.com/package/@s%2Fp) - npm\n* [y](https://github.com/a/c)\n- [z](https://github.com/only)\n- [open](https://github.com/a/d",
    );
    assert_eq!(items.len(), 2);
    assert_eq!(items[0].name, "b");
    assert_eq!(items[0].description, "– does things");
    assert_eq!(items[0].url, "https://github.com/a/b");
    assert_eq!(items[1].spec, "@s/p");
    assert_eq!(items[1].description, "npm");
    assert_eq!(items[1].url, "https://npmjs.com/package/@s%2Fp");
    let long = format!("- [n](https://github.com/a/b) {}", "é".repeat(200));
    assert_eq!(parse_awesome_readme(&long)[0].description.chars().count(), 160);
}

fn repo(name: &str, description: Option<&str>) -> GhRepo {
    GhRepo {
        full_name: name.to_string(),
        description: description.map(|s| s.to_string()),
        html_url: format!("https://github.com/{name}"),
    }
}

#[test]
fn marketplace_shows_each_plugin_once() {
    let readme = "- [One](https://github.com/o/one) - ÄPFEL\n- [Again](https://github.com/o/one)";
    let topic = || Ok(vec![repo("o/one", None), repo("o/two", Some("Second"))]);
    let r = plugins_marketplace(Some(readme), topic(), None);
    assert!(r.errors.is_empty());
    let specs: Vec<&str> = r.items.iter().map(|i| i.spec.as_str()).collect();
    assert_eq!(specs, vec!["github:o/one", "github:o/two"]);
    assert_eq!(r.items[0].name, "One");
    assert_eq!(r.items[1].name, "two");
    let r = plugins_marketplace(Some(readme), topic(), Some("äpf"));
    assert_eq!(r.items.len(), 1, "{:?}", r.items);
    let r = plugins_marketplace(Some(readme), topic(), Some("SECOND"));
    assert_eq!(r.items[0].spec, "github:o/two");
    let r = plugins_marketplace(Some(readme), topic(), Some("  "));
    assert_eq!(r.items.len(), 2);
    let r = plugins_marketplace(None, Err(topic_error(403, "403 Forbidden")), None);
    assert!(r.items.is_empty());
    assert_eq!(r.errors, vec![
        "市场目录加载失败（网络不可达？）",
        "GitHub 搜索暂时受限（免费额度用完），稍后再试。",
    ]);
    assert_eq!(
        topic_error(500, "500 Internal Server Error"),
        "GitHub 搜索失败（HTTP 500 Internal Server Error）。"
    );
    let many: Vec<GhRepo> = (0..150).map(|i| repo(&format!("o/p{i}"), None)).collect();
    let r = plugins_marketplace(Some(""), Ok(many), None);
    assert_eq!(r.items.len(), 100);
    assert_eq!(topic_items(vec![repo("plain", None)])[0].name, "plain");
    assert_eq!(catalogue_urls().len(), 4);
}

#[test]
fn resolve_bundle_dir_prefers_runtime_over_profile() {
    let mut disk = Disk::new();
    make_runtime(&mut disk, "/runtime", "@scope/pkg-a");
    put(
        &mut disk,
        "/profile/node_modules/@scope/pkg-a/package.json",
        r#"{"name":"@scope/pkg-a","version":"9.9.9","dsh":{"bundle":{"patch":"./cordis.patch.yml"}}}"#,
    );
    let resolved = resolve_bundle_dir(&site(&disk), "@scope/pkg-a").unwrap();
    assert!(resolved.starts_with("/runtime"), "runtime 锚点优先: {}", resolved);
    assert_eq!(resolved, "/runtime/node_modules/@scope/pkg-a");
}

#[test]
fn resolve_bundle_dir_falls_back_to_profile_and_none() {
    let mut disk = Disk::new();
    make_runtime(&mut disk, "/runtime", "unused");
    put(
        &mut disk,
        "/profile/node_modules/only-in-profile/package.json",
        r#"{"name":"only-in-profile","version":"1.0.0"}"#,
    );
    assert!(resolve_bundle_dir(&site(&disk), "only-in-profile").is_some());
    assert!(resolve_bundle_dir(&site(&disk), "ghost").is_none());
}

#[test]
fn a_package_is_asked_for_up_to_the_root() {
    let asked = bundle_questions(OS, "/r", "/p", "x");
    assert_eq!(asked, vec![
        "/r/node_modules/@deepseek-ai/dsh/node_modules/x/package.json",
        "/r/node_modules/@deepseek-ai/node_modules/x/package.json",
        "/r/node_modules/node_modules/x/package.json",
        "/r/node_modules/x/package.json",
        "/node_modules/x/package.json",
        "/p/node_modules/x/package.json",
        "/node_modules/x/package.json",
    ]);
    let mut disk = Disk::new();
    put(&mut disk, &asked[4], "{}");
    let s = Site { os: OS, disk: &disk, runtime: "/r", profile: "/p" };
    assert_eq!(resolve_bundle_dir(&s, "x").as_deref(), Some("/node_modules/x"));
    assert!(!exports_patch(&s, "x"));
}

#[test]
fn reconcile_registers_bundle_and_drops_removed() {
    let mut disk = Disk::new();
    make_runtime(&mut disk, "/runtime", "plugin-a");
    put(
        &mut disk,
        "/profile/node_modules/plain-b/package.json",
        r#"{"name":"plain-b","version":"1.0.0"}"#,
    );
    put(
        &mut disk,
        "/profile/package.json",
        r#"{"name":"dsh-profile-web","private":true,
            "dependencies":{"plugin-a":"^1.0.0","plain-b":"^1.0.0"},
            "dsh":{"profile":{"bundles":["@deepseek-ai/dsh-base"]}}}"#,
    );

    let text = reconcile(&site(&disk), &[]).unwrap().expect("the bundles change");
    put(&mut disk, "/profile/package.json", &text);
    let manifest = read_manifest(OS, &disk, "/profile").unwrap();
    let bundles = bundles_of(&manifest);
    assert!(bundles.contains(&"plugin-a".to_string()), "bundle 依赖注册进层栈");
    assert!(!bundles.contains(&"plain-b".to_string()), "非 bundle 依赖不进层栈");
    assert!(bundles.contains(&BASE.to_string()), "内置 bundle 保留");
    assert_eq!(dep_keys(&manifest), vec!["plain-b", "plugin-a"]);
    assert!(reconcile(&site(&disk), &[]).unwrap().is_none(), "once is enough");

    put(
        &mut disk,
        "/profile/package.json",
        r#"{"name":"dsh-profile-web","private":true,"dependencies":{},
            "dsh":{"profile":{"bundles":["@deepseek-ai/dsh-base","plugin-a"]}}}"#,
    );
    let text = reconcile(&site(&disk), &names(&["plugin-a"])).unwrap().expect("the bundles change");
    put(&mut disk, "/profile/package.json", &text);
    let manifest = read_manifest(OS, &disk, "/profile").unwrap();
    assert_eq!(bundles_of(&manifest), vec![BASE.to_string()]);
}

#[test]
fn reconcile_keeps_what_else_stands_in_the_manifest() {
    let mut disk = Disk::new();
    make_runtime(&mut disk, "/runtime", "plugin-a");
    put(
        &mut disk,
        "/profile/package.json",
        r#"{"zeta":[1.5,null],"dependencies":{"plugin-a":"1"},"dsh":{"other":{"k":"v"},"profile":7}}"#,
    );
    assert_eq!(
        reconcile(&site(&disk), &[]).unwrap().unwrap(),
        "{\n  \"dependencies\": {\n    \"plugin-a\": \"1\"\n  },\n  \"dsh\": {\n    \"other\": {\n      \"k\": \"v\"\n    },\n    \"profile\": {\n      \"bundles\": [\n        \"plugin-a\"\n      ]\n    }\n  },\n  \"zeta\": [\n    1.5,\n    null\n  ]\n}\n"
    );
    assert!(reconcile(&Site { os: OS, disk: &disk, runtime: "/r", profile: "/q" }, &[]).is_err());
}

#[test]
fn ensure_profile_creates_template_and_is_idempotent() {
    let mut disk = Disk::new();
    let written = ensure_profile(OS, &disk, "/root/web").unwrap();
    let files: Vec<&str> = written.iter().map(|w| w.path.as_str()).collect();
    assert_eq!(files, vec![
        "/root/web/package.json",
        "/root/web/cordis.patch.yml",
        "/root/web/pnpm-workspace.yaml",
    ]);
    for w in &written {
        put(&mut disk, &w.path, &w.text);
    }
    let manifest = read_manifest(OS, &disk, "/root/web").unwrap();
    assert_eq!(bundles_of(&manifest)[0], "@deepseek-ai/dsh-base");
    assert_eq!(
        manifest.get("name").and_then(|v| v.as_str()).map(|s| s.as_str()),
        Some("dsh-profile-web")
    );
    assert!(disk.is_there("/root/web/cordis.patch.yml"));
    assert_eq!(written[1].text, PATCH_TEMPLATE);
    assert!(parse_patch_file_opt(&disk, "/root/web/cordis.patch.yml").unwrap().is_empty());
    assert!(disk.is_there("/root/web/pnpm-workspace.yaml"));

    put(&mut disk, "/root/web/package.json", r#"{"name":"mine"}"#);
    assert!(ensure_profile(OS, &disk, "/root/web").unwrap().is_empty());
    let manifest = read_manifest(OS, &disk, "/root/web").unwrap();
    assert_eq!(
        manifest.get("name").and_then(|v| v.as_str()).map(|s| s.as_str()),
        Some("mine")
    );
}

#[test]
fn manifests_are_read_and_written() {
    let mut disk = Disk::new();
    let err = read_manifest(OS, &disk, "/p").unwrap_err();
    assert!(err.starts_with("读取 profile 配置失败（/p/package.json）: "), "{}", err);
    put(&mut disk, "/p/package.json", "[]");
    assert_eq!(
        read_manifest(OS, &disk, "/p").unwrap_err(),
        "profile 配置必须是 JSON 对象（/p/package.json）"
    );
    put(&mut disk, "/p/package.json", "{");
    assert!(read_manifest(OS, &disk, "/p")
        .unwrap_err()
        .starts_with("profile 配置不是有效 JSON（/p/package.json）: "));
    let m = parse_json("{\"b\":[\"x\",true],\"a\":{}}").unwrap();
    let text = write_manifest(&m).unwrap();
    assert_eq!(text, "{\n  \"a\": {},\n  \"b\": [\n    \"x\",\n    true\n  ]\n}\n");
    put(&mut disk, "/p/package.json", &text);
    let back = read_manifest(OS, &disk, "/p").unwrap();
    assert_eq!(write_manifest(&back).unwrap(), text, "what was written is read");
}

#[test]
fn append_disable_row_template_shape() {
    let patch = "/root/cordis.patch.yml";
    let mut disk = Disk::new();
    put(&mut disk, patch, PATCH_TEMPLATE);
    let w = append_disable_row(OS, &disk, patch, "row-x", true).unwrap();
    assert_eq!(w.temp, "/root/cordis.patch.yml.tmp");
    put(&mut disk, patch, &w.text);
    let w = append_disable_row(OS, &disk, patch, "row-x", false).unwrap();
    let text = w.text;
    assert!(text.contains("- id: row-x\n  disabled: true"));
    assert!(text.contains("- id: row-x\n  disabled: false"));
    let parsed: serde_yaml::Value = serde_yaml::from_str(&text).unwrap();
    let seq = parsed.as_sequence().unwrap();
    assert_eq!(seq.len(), 2);
    let last_disabled = seq[1].get("disabled").and_then(|v| v.as_bool());
    assert_eq!(last_disabled, Some(false));
}

#[test]
fn append_disable_row_quotes_id_and_rejects_bad_yaml() {
    let patch = "/root/cordis.patch.yml";
    let mut disk = Disk::new();
    put(&mut disk, patch, "[]\n");
    let w = append_disable_row(OS, &disk, patch, "has: colon", true).unwrap();
    let parsed: serde_yaml::Value = serde_yaml::from_str(&w.text).unwrap();
    let id = parsed.as_sequence().unwrap()[0].get("id").and_then(|v| v.as_str());
    assert_eq!(id, Some("has: colon"));

    put(&mut disk, patch, "{{{{");
    assert!(append_disable_row(OS, &disk, patch, "x", true).is_err(), "坏 YAML 必须报修复错误");
}

#[test]
fn patch_files_are_changed_as_they_are_written() {
    let patch = "/p/cordis.patch.yml";
    let mut disk = Disk::new();
    let err = append_disable_row(OS, &disk, patch, "x", true).unwrap_err();
    assert!(err.starts_with("读取补丁文件失败（/p/cordis.patch.yml）: "), "{}", err);
    put(&mut disk, patch, "a: 1\n");
    assert_eq!(
        append_disable_row(OS, &disk, patch, "x", true).unwrap_err(),
        "cordis.patch.yml 必须是顶层 YAML 数组（补丁条目列表）。"
    );
    put(&mut disk, patch, "{{{{");
    assert_eq!(
        append_disable_row(OS, &disk, patch, "x", true).unwrap_err(),
        "cordis.patch.yml 无法解析（可能被手动改坏），请修复后重试。"
    );
    let flow = "{\"disabled\":true,\"id\":\"x\"}";
    let block = "- id: x\n  disabled: true\n";
    for (before, after) in [
        ("[{id: a, n: 1}]\n", format!("[{{id: a, n: 1}}, {}]\n", flow)),
        ("# c\n[{id: a}] # d ]\n", format!("# c\n[{{id: a}}, {}] # d ]\n", flow)),
        ("[\n  {id: a}, # c\n]\n", format!("[\n  {{id: a}}, # c\n{}]\n", flow)),
        ("[{id: a, insert: [{id: b}]}]", format!("[{{id: a, insert: [{{id: b}}]}}, {}]", flow)),
        ("# c\n[ ]\n# d\n", format!("# c\n{}\n# d\n", block)),
        ("[\n]\n", format!("{}\n", block)),
        ("[] # d\n", format!("{} # d\n", block)),
        ("[ # d\n]\n", format!("[ # d\n{}]\n", flow)),
        ("--- []\n", format!("--- [{}]\n", flow)),
        ("-\n  []\n", format!("-\n  []\n{}", block)),
        ("  - id: a\n    n: 1\n", "  - id: a\n    n: 1\n  - id: x\n    disabled: true\n".to_string()),
    ] {
        put(&mut disk, patch, before);
        let was = parse_patch_file_opt(&disk, patch).unwrap();
        let text = append_disable_row(OS, &disk, patch, "x", true).unwrap().text;
        assert_eq!(text, after);
        let mut then = Disk::new();
        put(&mut then, patch, &text);
        let now = parse_patch_file_opt(&then, patch).unwrap();
        assert_eq!(now.len(), was.len() + 1);
        let last = row_patches(&now).pop().unwrap();
        assert_eq!((last.id.as_str(), last.disabled), ("x", Some(true)));
    }
    put(&mut disk, patch, "- id: a\n...\n");
    assert_eq!(
        append_disable_row(OS, &disk, patch, "x", true).unwrap_err(),
        "cordis.patch.yml 的写法无法追加补丁行，请改为每行一条（- id: …）后重试。"
    );
    put(&mut disk, patch, "- id: a\n");
    assert_eq!(
        append_disable_row(OS, &disk, patch, "a\n\nb", true).unwrap().text,
        "- id: a\n- {\"disabled\":true,\"id\":\"a\\n\\nb\"}\n"
    );
    put(&mut disk, patch, "- id: a\n  insert:\n    []\n");
    assert_eq!(
        append_disable_row(OS, &disk, patch, "x", true).unwrap().text,
        "- id: a\n  insert:\n    []\n- id: x\n  disabled: true\n"
    );
    put(&mut disk, patch, "- id: a # kept\n\n\n");
    assert_eq!(
        append_disable_row(OS, &disk, patch, "x", false).unwrap().text,
        "- id: a # kept\n- id: x\n  disabled: false\n"
    );
    put(&mut disk, patch, "\u{feff}# c\n[]");
    assert_eq!(
        append_disable_row(OS, &disk, patch, "x", true).unwrap().text,
        "\u{feff}# c\n- id: x\n  disabled: true\n\n"
    );
    assert_eq!(row_id("  "), Err("行 id 不能为空".to_string()));
    assert_eq!(row_id(" a "), Ok("a".to_string()));
    assert_eq!(
        set_enabled_impl(OS, &disk, "/p", " x ", true).unwrap().text,
        "\u{feff}# c\n- id: x\n  disabled: false\n\n"
    );
    assert_eq!(
        set_enabled_impl(OS, &disk, "/p", " x ", false).unwrap().text,
        "\u{feff}# c\n- id: x\n  disabled: true\n\n"
    );
    assert!(set_enabled_impl(OS, &disk, "/p", " ", true).is_err());
}

#[test]
fn row_patches_tolerates_js_tags() {
    let patch = "/root/cordis.patch.yml";
    let mut disk = Disk::new();
    put(
        &mut disk,
        patch,
        "- insert:\n    - id: row-a\n      name: 'x'\n      config:\n        path: !!js dshHomePath('sessions')\n- id: row-b\n  disabled: true\n",
    );
    let entries = parse_patch_file_opt(&disk, patch).unwrap();
    let rows = row_patches(&entries);
    let ids: Vec<&str> = rows.iter().map(|r| r.id.as_str()).collect();
    assert_eq!(ids, vec!["row-a", "row-b"]);
    assert_eq!(rows[1].disabled, Some(true));
    assert_eq!(rows[0].name.as_deref(), Some("x"));
}

fn row(id: &str, disabled: Option<bool>) -> RowPatch {
    RowPatch { id: id.to_string(), name: None, disabled }
}

#[test]
fn upper_layers_win() {
    let low = || vec![row("a", Some(true)), row("b", None)];
    assert_eq!(composed_enabled("a", &[low()]), (false, true));
    assert_eq!(composed_enabled("b", &[low()]), (true, false));
    assert_eq!(composed_enabled("a", &[low(), vec![row("a", Some(false))]]), (true, true));
    assert_eq!(composed_enabled("a", &[low(), vec![]]), (false, false));
    let twice = vec![row("a", Some(true)), row("a", Some(false)), row("a", None)];
    assert_eq!(composed_enabled("a", &[twice]), (true, true));
    assert_eq!(composed_enabled("a", &[]), (true, false));
}

#[test]
fn plugins_are_listed() {
    let home = "/home";
    let profile = "/home/profiles/web";
    let mut disk = Disk::new();
    let r = list_impl(OS, &disk, "/runtime", home, None).unwrap();
    assert!(!r.initialized && r.plugins.is_empty() && !r.service_restart_required);
    assert_eq!(r.profile_dir, profile);
    make_runtime(&mut disk, "/runtime", "plugin-a");
    put(
        &mut disk,
        "/home/profiles/web/package.json",
        r#"{"dependencies":{"plugin-a":"^1.0.0","loose":"file:/x"},
            "dsh":{"profile":{"bundles":["@deepseek-ai/dsh-base","plugin-a"]}}}"#,
    );
    put(&mut disk, "/home/profiles/web/cordis.patch.yml", "- id: test-row\n  disabled: true\n");
    assert_eq!(list_names(OS, &disk, profile), vec![
        "@deepseek-ai/dsh-base",
        "@deepseek-ai/dsh-web-app",
        "@deepseek-ai/dsh-base",
        "plugin-a",
        "loose",
        "plugin-a",
    ]);
    let snapshot = Snapshot {
        profile: "web".to_string(),
        recorded_at: 0,
        bundles: vec![SnapshotBundle { name: BASE.to_string(), version: None }],
    };
    let r = list_impl(OS, &disk, "/runtime", home, Some(&snapshot)).unwrap();
    assert!(r.initialized && r.service_restart_required);
    let shown: Vec<(&str, &str, &str, bool, bool)> = r
        .plugins
        .iter()
        .map(|p| {
            (p.name.as_str(), p.version.as_str(), p.source.as_str(), p.is_bundle, p.restart_required)
        })
        .collect();
    assert_eq!(shown, vec![
        (BASE, "-", "builtin", true, false),
        ("@deepseek-ai/dsh-web-app", "-", "builtin", true, true),
        ("loose", "-", "file", false, false),
        ("plugin-a", "1.0.0", "npm", true, true),
    ]);
    let rows = &r.plugins[3].rows;
    assert_eq!(rows.len(), 1);
    assert_eq!(rows[0].id, "test-row");
    assert_eq!(rows[0].name.as_deref(), Some("test-entry"));
    assert!(!rows[0].enabled && rows[0].managed && !rows[0].home_layer);
    put(&mut disk, "/home/cordis.patch.yml", "- id: test-row\n  disabled: false\n");
    let r = list_impl(OS, &disk, "/runtime", home, None).unwrap();
    assert!(!r.service_restart_required);
    let rows = &r.plugins[3].rows;
    assert!(rows[0].enabled && !rows[0].managed && rows[0].home_layer);
}

#[test]
fn snapshots_tell_what_runs() {
    let mut disk = Disk::new();
    make_runtime(&mut disk, "/runtime", "plugin-a");
    put(
        &mut disk,
        "/profile/package.json",
        r#"{"dsh":{"profile":{"bundles":["plugin-a","gone",3]}}}"#,
    );
    let snap = write_snapshot(&site(&disk), "/data", 17).unwrap();
    assert_eq!(snap.profile, "web");
    assert_eq!(snap.recorded_at, 17);
    assert_eq!(snap.bundles.len(), 2);
    assert_eq!(snap.bundles[0].version.as_deref(), Some("1.0.0"));
    assert_eq!(snap.bundles[1].version, None);
    assert!(!snapshot_differs(Some(&snap), "plugin-a", "1.0.0"));
    assert!(snapshot_differs(Some(&snap), "plugin-a", "1.0.1"));
    assert!(!snapshot_differs(Some(&snap), "plugin-a", "-"));
    assert!(!snapshot_differs(Some(&snap), "gone", "-"));
    assert!(snapshot_differs(Some(&snap), "other", "-"));
    assert!(!snapshot_differs(None, "other", "1"));
    assert!(write_snapshot(&site(&disk), "", 17).is_none());
    assert_eq!(snapshot_path(OS, "/data"), "/data/plugins-state.json");
}

#[test]
fn sources_of_dependencies() {
    assert_eq!(classify_dep_source(OS, "file:../x"), "file");
    assert_eq!(classify_dep_source(OS, "/x"), "file");
    assert_eq!(classify_dep_source(OS, "github:a/b"), "git");
    assert_eq!(classify_dep_source(OS, "https://h/x.git#v1"), "git");
    assert_eq!(classify_dep_source(OS, "^1.0.0"), "npm");
}

#[test]
fn a_plugin_is_added() {
    let mut disk = Disk::new();
    make_runtime(&mut disk, "/runtime", "other");
    put(&mut disk, "/profile/package.json", r#"{"dependencies":{"old":"1"}}"#);
    let plan = plan_add(OS, &disk, "/profile", "new-one", "npmjs").unwrap();
    assert_eq!(plan.args, vec![
        "install",
        "new-one",
        "--no-audit",
        "--no-fund",
        "--no-update-notifier",
        "--loglevel=error",
        "--legacy-peer-deps",
        "--registry",
        "https://registry.npmjs.org",
    ]);
    assert!(plan.remote);
    assert_eq!(plan.timeout, NPM_TIMEOUT);
    assert_eq!(plan.before, vec!["old"]);
    let git = plan_add(OS, &disk, "/profile", "a/b", "auto").unwrap();
    assert!(!git.remote);
    assert_eq!(git.timeout, GIT_TIMEOUT);

    assert_eq!(
        finish_add(&site(&disk), &plan).unwrap_err(),
        "安装未生效（依赖未写入），请查看日志。"
    );
    let old = plan_add(OS, &disk, "/profile", "old", "auto").unwrap();
    assert_eq!(finish_add(&site(&disk), &old).unwrap_err(), "该插件已安装。");

    put(&mut disk, "/profile/package.json", r#"{"dependencies":{"new-one":"1","old":"1"}}"#);
    put(&mut disk, "/profile/node_modules/new-one/package.json", r#"{"version":"2.0.0"}"#);
    let done = finish_add(&site(&disk), &plan).unwrap();
    assert_eq!(done.result.name, "new-one");
    assert_eq!(done.result.version, "2.0.0");
    assert!(done.result.restart_required && done.result.warning.is_some());
    assert_eq!(done.manifest, None);
    put(
        &mut disk,
        "/profile/node_modules/new-one/package.json",
        r#"{"version":"2.0.0","dsh":{"bundle":{"patch":"p.yml"}}}"#,
    );
    let done = finish_add(&site(&disk), &plan).unwrap();
    assert!(done.result.warning.is_none());
    assert!(done.manifest.unwrap().contains("\"bundles\": [\n        \"new-one\"\n      ]"));
}

#[test]
fn a_plugin_in_a_directory_is_known_by_its_manifest() {
    let mut disk = Disk::new();
    put(&mut disk, "/x/package.json", r#"{"name":"mine"}"#);
    assert_eq!(name_question(OS, "/x").as_deref(), Some("/x/package.json"));
    assert_eq!(name_question(OS, "mine"), None);
    assert!(already_installed(OS, &disk, &names(&["a", "mine"]), "/x"));
    assert!(already_installed(OS, &disk, &names(&["mine"]), "file:/x"));
    assert!(!already_installed(OS, &disk, &names(&["a"]), "/x"));
}

#[test]
fn a_plugin_is_removed() {
    let mut disk = profile_with_deps();
    let plan = remove_impl(OS, &disk, "/profile", "plugin-a", "auto").unwrap();
    assert_eq!(plan.args, vec![
        "uninstall",
        "plugin-a",
        "--no-audit",
        "--no-fund",
        "--no-update-notifier",
        "--loglevel=error",
    ]);
    assert_eq!(plan.before, vec!["plugin-a", "plugin-b", "plugin-c"]);
    assert_eq!(
        remove_impl(OS, &disk, "/profile", "x", "auto").unwrap_err(),
        "未安装该插件。"
    );
    put(&mut disk, "/h/profiles/web/package.json", r#"{"dependencies":{"a":"1"}}"#);
    assert_eq!(removable_plugin_names(OS, &disk, "/h", &names(&["a", "b"])), vec!["a"]);
}

#[test]
fn npm_is_found_beside_node() {
    let asked = npm_questions(OS, "/n/bin/node");
    assert_eq!(asked, vec![
        "/n/bin/node_modules/npm/bin/npm-cli.js",
        "/n/bin/../lib/node_modules/npm/bin/npm-cli.js",
        "/n/bin/lib/node_modules/npm/bin/npm-cli.js",
    ]);
    let mut disk = Disk::new();
    assert_eq!(
        run_npm(OS, &disk, "/n/bin/node", "/p", &[]).unwrap_err(),
        "内置 npm 不完整，请重新安装本应用。"
    );
    put(&mut disk, &asked[1], "");
    assert_eq!(npm_cli_path(OS, &disk, "/n/bin/node").as_ref(), Some(&asked[1]));
    let c = run_npm(OS, &disk, "/n/bin/node", "/p", &names(&["install"])).unwrap();
    assert_eq!(c.program, "/n/bin/node");
    assert_eq!(c.args, vec![asked[1].as_str(), "install"]);
    assert_eq!(c.cwd, "/p");
    assert_eq!(registry_flag("npmmirror"), vec!["--registry", "https://registry.npmmirror.com"]);
    assert!(registry_flag("auto").is_empty());
}

#[test]
fn failures_of_npm_are_shortened() {
    let err: String = (0..8).map(|i| format!("npm error line {i} \nnoise\n")).collect();
    assert_eq!(
        friendly_npm_error(&err, ""),
        "安装失败：\nnpm error line 0\nnpm error line 1\nnpm error line 2\nnpm error line 3\nnpm error line 4\nnpm error line 5"
    );
    assert_eq!(friendly_npm_error("", " out \n"), "安装失败：\nout");
    assert_eq!(tail("日本語", 2), "本語");
    assert_eq!(tail("ab", 5), "ab");
    assert!(matches!(npm_step(NpmPoll::Running, 9, 10), NpmNext::Sleep(250)));
    assert!(matches!(npm_step(NpmPoll::Running, 10, 10), NpmNext::Kill(_)));
    let end = NpmPoll::Exited { success: true, stdout: vec![], stderr: vec![] };
    assert!(matches!(npm_step(end, 10, 10), NpmNext::Done(Ok(()))));
    let end = NpmPoll::Exited { success: false, stdout: "o".into(), stderr: "e".into() };
    match npm_step(end, 0, 10) {
        NpmNext::Done(Err(e)) => assert_eq!(e, "安装失败：\ne\no"),
        other => panic!("{:?}", other),
    }
    let end = NpmPoll::Exited { success: false, stdout: "日".into(), stderr: vec![0x65, 0xff] };
    match npm_step(end, 0, 10) {
        NpmNext::Done(Err(e)) => assert_eq!(e, "安装失败：\n日"),
        other => panic!("{:?}", other),
    }
    match npm_step(NpmPoll::Failed("gone".into()), 0, 10) {
        NpmNext::Done(Err(e)) => assert_eq!(e, "npm 进程异常: gone"),
        other => panic!("{:?}", other),
    }
}

#[test]
fn data_directory() {
    let at = |c: Option<&str>, h: Option<&str>| dsh_home_from(OS, c, h, Some("/cwd"));
    assert_eq!(at(None, Some("/u")), "/u/.dsh");
    assert_eq!(at(Some("  "), Some("/u")), "/u/.dsh");
    assert_eq!(at(None, None), ".dsh");
    assert_eq!(at(Some("/d"), Some("/u")), "/d");
    assert_eq!(at(Some("rel"), Some("/u")), "/cwd/rel");
    assert_eq!(at(Some("~"), Some("/u")), "/u");
    assert_eq!(at(Some("~/x"), Some("/u")), "/u/x");
    assert_eq!(at(Some("~x"), Some("/u")), "/cwd/~x");
    assert_eq!(at(Some("~/x"), None), "/cwd/~/x");
    assert_eq!(dsh_home(OS, Some("/d"), None), "/d");
    let own = dsh_home(OS, None, None);
    assert!(own.ends_with(".dsh"), "{}", own);
    let under = dsh_home(OS, Some("~"), None);
    if own != ".dsh" {
        assert_eq!(format!("{}/.dsh", under.trim_end_matches('/')), own);
    }
}

#[test]
fn json_is_kept_in_order() {
    match parse_json("{\"b\":1,\"a\":2,\"b\":3}").unwrap() {
        Json::Object(members) => {
            assert_eq!(members.len(), 2);
            assert_eq!(members[0].0, "a");
            assert_eq!(members[1].0, "b");
        }
        other => panic!("{:?}", other),
    }
}

fn home_with_dep() -> Disk {
    let mut disk = Disk::new();
    put(
        &mut disk,
        "/home/profiles/web/package.json",
        r#"{"dependencies":{"plugin-a":"^1.0.0"},"dsh":{"profile":{"bundles":["plugin-a"]}}}"#,
    );
    disk
}

#[test]
fn commands_need_a_runtime() {
    let disk = home_with_dep();
    let unknown = "服务尚未初始化".to_string();
    assert_eq!(plugins_add(OS, &disk, "", "/home", "x"), Err(unknown.clone()));
    assert_eq!(plugins_remove(OS, &disk, "", "/home", "plugin-a"), Err(unknown.clone()));
    assert_eq!(
        plugins_remove_incompatible(OS, &disk, "", "/home", &names(&["plugin-a"])),
        Err(unknown.clone())
    );
    assert_eq!(plugins_list(OS, &disk, "", "/home", None).unwrap_err(), unknown);
}

#[test]
fn commands_go_by_what_is_installed() {
    assert_eq!(profile_dir(OS, "/home"), "/home/profiles/web");
    let disk = home_with_dep();
    assert_eq!(plugins_add(OS, &disk, "/runtime", "/home", "plugin-b"), Ok(()));
    assert_eq!(
        plugins_add(OS, &disk, "/runtime", "/home", "plugin-a"),
        Err("该插件已安装。".to_string())
    );
    assert_eq!(plugins_remove(OS, &disk, "/runtime", "/home", "plugin-a"), Ok(()));
    assert_eq!(
        plugins_remove(OS, &disk, "/runtime", "/home", "plugin-b"),
        Err("未安装该插件。".to_string())
    );
    assert_eq!(
        plugins_remove_incompatible(
            OS,
            &disk,
            "/runtime",
            "/home",
            &names(&["plugin-b", "plugin-a"])
        ),
        Ok(names(&["plugin-a"]))
    );
    let list = plugins_list(OS, &disk, "/runtime", "/home", None).unwrap();
    assert!(list.initialized);
    assert_eq!(list.plugins.len(), 3);
    assert_eq!(list.plugins[2].name, "plugin-a");
    let empty = Disk::new();
    assert_eq!(plugins_add(OS, &empty, "/runtime", "/home", "plugin-a"), Ok(()));
    assert!(plugins_remove(OS, &empty, "/runtime", "/home", "plugin-a").is_err());
}

#[test]
fn a_plugin_that_stays_does_not_keep_others_from_going() {
    let tried = vec![
        ("a".to_string(), Ok(())),
        ("b".to_string(), Err("no".to_string())),
        ("c".to_string(), Ok(())),
    ];
    assert_eq!(removed_plugins(&tried), names(&["a", "c"]));
    assert!(removed_plugins(&[]).is_empty());
}

#[test]
fn no_snapshot_is_kept_while_an_operation_is_under_way() {
    let mut disk = Disk::new();
    put(
        &mut disk,
        "/profile/package.json",
        r#"{"dsh":{"profile":{"bundles":["x"]}}}"#,
    );
    assert!(record_restart(true, &site(&disk), "/data", 7).is_none());
    let kept = record_restart(false, &site(&disk), "/data", 7).unwrap();
    assert_eq!(kept.profile, "web");
    assert_eq!(kept.recorded_at, 7);
    assert_eq!(kept.bundles.len(), 1);
    assert_eq!(kept.bundles[0].name, "x");
    let forced = record_restart_force(&site(&disk), "/data", 8).unwrap();
    assert_eq!(forced.recorded_at, 8);
    assert!(record_restart_force(&site(&disk), "", 8).is_none());
}

#[test]
fn a_row_is_shown_as_it_was_switched() {
    let profile = "/home/profiles/web";
    let patch = "/home/profiles/web/cordis.patch.yml";
    let mut disk = Disk::new();
    make_runtime(&mut disk, "/runtime", "plugin-a");
    put(
        &mut disk,
        "/home/profiles/web/package.json",
        r#"{"dependencies":{"plugin-a":"1"},"dsh":{"profile":{"bundles":["plugin-a"]}}}"#,
    );
    for first in [PATCH_TEMPLATE, "[ ]\n", "[{id: other, disabled: true}]\n"] {
        put(&mut disk, patch, first);
        for enabled in [false, true, true, false] {
            let write = set_enabled_impl(OS, &disk, profile, "test-row", enabled).unwrap();
            put(&mut disk, patch, &write.text);
            let list = list_impl(OS, &disk, "/runtime", "/home", None).unwrap();
            assert_eq!(list.plugins[2].rows[0].enabled, enabled);
        }
    }
}

#[test]
fn a_reconciled_profile_is_left_alone() {
    let manifest = "/home/profiles/web/package.json";
    let mut disk = Disk::new();
    make_runtime(&mut disk, "/runtime", "plugin-a");
    put(&mut disk, manifest, r#"{"count":-3,"dependencies":{"plugin-a":"1"},"max":[18446744073709551615]}"#);
    let site = Site { os: OS, disk: &disk, runtime: "/runtime", profile: "/home/profiles/web" };
    let text = reconcile(&site, &[]).unwrap().unwrap();
    put(&mut disk, manifest, &text);
    let site = Site { os: OS, disk: &disk, runtime: "/runtime", profile: "/home/profiles/web" };
    assert_eq!(reconcile(&site, &[]), Ok(None));
    let read = read_manifest(OS, &disk, "/home/profiles/web").unwrap();
    assert_eq!(bundles_of(&read), vec!["plugin-a"]);
    assert!(text.contains("\"count\": -3") && text.contains("18446744073709551615"));
}

#[test]
fn a_removed_bundle_asks_for_a_restart() {
    let mut disk = Disk::new();
    make_runtime(&mut disk, "/runtime", "plugin-a");
    let manifest = "/home/profiles/web/package.json";
    let both = r#"{"dependencies":{"plugin-a":"1"},
        "dsh":{"profile":{"bundles":["@deepseek-ai/dsh-base","@deepseek-ai/dsh-web-app","plugin-a"]}}}"#;
    put(&mut disk, manifest, both);
    let site = Site { os: OS, disk: &disk, runtime: "/runtime", profile: "/home/profiles/web" };
    let snapshot = write_snapshot(&site, "/data", 1).unwrap();
    let list = list_impl(OS, &disk, "/runtime", "/home", Some(&snapshot)).unwrap();
    assert!(!list.service_restart_required);
    let rest = r#"{"dependencies":{},
        "dsh":{"profile":{"bundles":["@deepseek-ai/dsh-base","@deepseek-ai/dsh-web-app"]}}}"#;
    put(&mut disk, manifest, rest);
    let list = list_impl(OS, &disk, "/runtime", "/home", Some(&snapshot)).unwrap();
    assert!(list.service_restart_required);
    assert!(list.plugins.iter().all(|p| !p.restart_required));
    let list = list_impl(OS, &disk, "/runtime", "/home", None).unwrap();
    assert!(!list.service_restart_required);
}

#[test]
fn npm_runs_once_more_with_another_registry() {
    let mut disk = Disk::new();
    put(&mut disk, "/profile/package.json", r#"{"dependencies":{}}"#);
    let plan = plan_add(OS, &disk, "/profile", "new-one", "auto").unwrap();
    let failed = |e: &str| Err::<(), String>(e.to_string());
    let result = |at: Adding| match at {
        Adding::Done(r) => r,
        other => panic!("{:?}", other),
    };
    let at = add_step(plan.remote, "auto", add_begin(&plan), failed("one"));
    match &at {
        Adding::Running { args, again } => {
            assert!(*again);
            assert_eq!(args[..plan.args.len()], plan.args[..]);
            assert_eq!(
                args[plan.args.len()..],
                ["--registry", "https://registry.npmmirror.com"]
            );
        }
        other => panic!("{:?}", other),
    }
    assert_eq!(result(add_step(plan.remote, "auto", at, failed("two"))), failed("two"));
    let at = add_step(plan.remote, "auto", add_begin(&plan), failed("one"));
    assert_eq!(result(add_step(plan.remote, "auto", at, Ok(()))), Ok(()));
    assert_eq!(result(add_step(plan.remote, "auto", add_begin(&plan), Ok(()))), Ok(()));
    assert_eq!(result(add_step(plan.remote, "npmjs", add_begin(&plan), failed("x"))), failed("x"));
    assert_eq!(result(add_step(false, "auto", add_begin(&plan), failed("x"))), failed("x"));
}

#[test]
fn npm_that_does_not_start_is_reported() {
    match npm_step(NpmPoll::NotStarted("a".to_string()), 0, 1) {
        NpmNext::Done(r) => assert_eq!(r, Err("无法启动 npm: a".to_string())),
        other => panic!("{:?}", other),
    }
    match npm_step(NpmPoll::NoPipe("b".to_string()), 0, 1) {
        NpmNext::Done(r) => assert_eq!(r, Err("无法创建管道: b".to_string())),
        other => panic!("{:?}", other),
    }
}
