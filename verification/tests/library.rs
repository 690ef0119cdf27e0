use herdr_layout::config::{
    config_files, find_repo_override, parse_args, parse_slot, select_layout, validate_config_root, LoadedConfig,
    Mode, OverrideProbe, Yaml, YamlKey,
};
use herdr_layout::herdr::{
    assemble_snapshot, attempt_outcome, check_listing, herdr_command_text, invoking_cwd, list_args,
    notification_args, operation_calls, process_info_args, process_map, read_plugin_context, run_args, spawn_failure_outcome,
    HerdrCall, HerdrOutcome, PluginContext, HERDR_RETRIES,
};
use herdr_layout::model::{Layout, LayoutTarget, Operation, PaneInfo, PaneProcess, PaneProcessInfo, Snapshot, TabInfo};
use herdr_layout::names::{command_name, name_leaf, normalize_name, strip_exe_suffix};
use herdr_layout::plan::{plan_layout, plan_target};
use herdr_layout::response::{
    parse_created_root_pane, parse_json, parse_plugin_context, parse_process_info, parse_tab_list, Json,
};
use herdr_layout::text_map::{LayoutMap, ProcessMap};

fn s(v: &str) -> String {
    v.to_string()
}

fn target(label: &str, command: &str) -> LayoutTarget {
    LayoutTarget { label: s(label), command: s(command) }
}

fn tab(tab_id: &str, label: &str) -> TabInfo {
    TabInfo { tab_id: s(tab_id), workspace_id: s("w"), label: s(label), focused: false }
}

fn pane(pane_id: &str, tab_id: &str) -> PaneInfo {
    PaneInfo {
        pane_id: s(pane_id),
        workspace_id: s("w"),
        tab_id: s(tab_id),
        focused: false,
        cwd: None,
        foreground_cwd: None,
        agent: None,
    }
}

fn procs(entries: &[(&str, &[&str])]) -> ProcessMap {
    let mut map = ProcessMap::new();
    for (pane_id, names) in entries {
        map.insert(
            s(pane_id),
            PaneProcessInfo {
                pane_id: s(pane_id),
                foreground_processes: names.iter().map(|n| PaneProcess { name: s(n), argv0: None }).collect(),
            },
        );
    }
    map
}

fn snap(tabs: Vec<TabInfo>, panes: Vec<PaneInfo>, processes: ProcessMap, current: Option<PaneInfo>) -> Snapshot {
    Snapshot {
        tabs,
        panes,
        processes,
        current_pane: current,
        original_tab_id: None,
        workspace_id: Some(s("w9")),
        active_cwd: s("/repo"),
    }
}

fn plain(key: &str) -> YamlKey {
    YamlKey { value: ystr(key), debug: format!("String({key:?})") }
}

fn map(entries: Vec<(&str, Yaml)>) -> Yaml {
    Yaml::Mapping(entries.into_iter().map(|(k, v)| (plain(k), v)).collect())
}

fn ystr(v: &str) -> Yaml {
    Yaml::String(s(v))
}

fn config_with_layout(layout: Yaml) -> Yaml {
    map(vec![("layouts", map(vec![("1", layout)]))])
}

fn one_target_layout(extra: Vec<(&str, Yaml)>) -> Yaml {
    let mut entries = vec![("tabs", Yaml::Sequence(vec![map(vec![("label", ystr("api")), ("command", ystr("api"))])]))];
    entries.extend(extra);
    map(entries)
}

fn jobj(members: Vec<(&str, Json)>) -> Json {
    Json::Object(members.into_iter().map(|(k, v)| (s(k), v)).collect())
}

fn jstr(v: &str) -> Json {
    Json::String(s(v))
}

#[test]
fn merged_override_selects_like_override_in_front() {
    let a = Layout { first_uses_current_tab: false, tabs: vec![target("a", "a")] };
    let b = Layout { first_uses_current_tab: false, tabs: vec![target("b", "b")] };
    let o = Layout { first_uses_current_tab: true, tabs: vec![target("o", "o")] };
    let mut global = LayoutMap::new();
    global.insert(s("1"), a.clone());
    global.insert(s("2"), b.clone());
    let mut over = LayoutMap::new();
    over.insert(s("1"), o.clone());
    let mut merged = LayoutMap::new();
    merged.insert(s("1"), a);
    merged.insert(s("2"), b.clone());
    merged.extend(over);
    let empty = LayoutMap::new();
    assert_eq!(merged.len(), 2);
    assert_eq!(select_layout(&merged, &empty, "1").unwrap(), o);
    assert_eq!(select_layout(&merged, &empty, "2").unwrap(), b);
    assert_eq!(select_layout(&global, &empty, "3").unwrap_err(), "Layout slot 3 is missing or invalid");
}

#[test]
fn text_map_insert_replaces_and_get_reads_back() {
    let mut m = ProcessMap::new();
    assert_eq!(m.len(), 0);
    assert!(!m.contains_key("p"));
    m.insert(s("p"), PaneProcessInfo { pane_id: s("p"), foreground_processes: vec![] });
    m.insert(s("p"), PaneProcessInfo { pane_id: s("q"), foreground_processes: vec![] });
    assert_eq!(m.len(), 1);
    assert_eq!(m.get("p").unwrap().pane_id, "q");
    assert!(m.get("x").is_none());
}

#[test]
fn config_number_keys_and_tags_read_as_slots() {
    let raw = map(vec![(
        "layouts",
        Yaml::Mapping(vec![(
            YamlKey { value: Yaml::Number(s("2")), debug: s("Number(2)") },
            Yaml::Tagged(Box::new(one_target_layout(vec![("firstUsesCurrentTab", Yaml::Bool(true))]))),
        )]),
    )]);
    let got = validate_config_root(&raw, "cfg").unwrap();
    assert_eq!(got.get("2"), Some(&Layout { first_uses_current_tab: true, tabs: vec![target("api", "api")] }));
}

#[test]
fn config_errors_name_their_place() {
    let cases: Vec<(Yaml, &str)> = vec![
        (config_with_layout(ystr("x")), "cfg: layouts.1 must be a map"),
        (
            config_with_layout(one_target_layout(vec![("firstUsesCurrentTab", ystr("yes"))])),
            "cfg: layouts.1.firstUsesCurrentTab must be boolean",
        ),
        (config_with_layout(map(vec![("tabs", ystr("api"))])), "cfg: layouts.1.tabs must be a non-empty list"),
        (config_with_layout(map(vec![])), "cfg: layouts.1.tabs must be a non-empty list"),
        (config_with_layout(map(vec![("tabs", Yaml::Sequence(vec![Yaml::Null]))])), "cfg: layouts.1.tabs[0] must be a map"),
        (
            config_with_layout(map(vec![(
                "tabs",
                Yaml::Sequence(vec![
                    map(vec![("label", ystr("a")), ("command", ystr("a"))]),
                    map(vec![("label", ystr(" \t ")), ("command", ystr("b"))]),
                ]),
            )])),
            "cfg: layouts.1.tabs[1].label must be a non-empty string",
        ),
        (map(vec![("layouts", Yaml::Sequence(vec![]))]), "cfg: layouts must be a map"),
        (Yaml::Number(s("3")), "cfg: YAML root must be a map"),
        (
            map(vec![("layouts", Yaml::Mapping(vec![(YamlKey { value: Yaml::Bool(true), debug: s("Bool(true)") }, Yaml::Null)]))]),
            "cfg: invalid layout slot true",
        ),
    ];
    for (raw, expected) in cases {
        assert_eq!(validate_config_root(&raw, "cfg").unwrap_err(), expected);
    }
}

#[test]
fn slots_and_arguments() {
    assert_eq!(parse_slot(Some(&s("2"))), Some(s("2")));
    assert_eq!(parse_slot(Some(&s("4"))), None);
    assert_eq!(parse_slot(None), None);
    assert_eq!(parse_args(&[s("3")]), Some(Mode::Apply(s("3"))));
    assert_eq!(parse_args(&[s("--dry-run"), s("1")]), Some(Mode::DryRun(s("1"))));
    assert_eq!(parse_args(&[s("--check-config"), s("2")]), Some(Mode::CheckConfig(s("2"))));
    assert_eq!(parse_args(&[s("--dry-run"), s("9")]), None);
    assert_eq!(parse_args(&[s("--other"), s("1")]), None);
    assert_eq!(parse_args(&[]), None);
}

#[test]
fn config_files_lists_global_then_override() {
    let loaded = LoadedConfig { global_path: s("/c/config.yaml"), override_path: Some(s("/r/.herdr-layout.yml")), layouts: LayoutMap::new() };
    assert_eq!(config_files(&loaded), vec![s("/c/config.yaml"), s("/r/.herdr-layout.yml")]);
    let loaded = LoadedConfig { global_path: s("/c/config.yaml"), override_path: None, layouts: LayoutMap::new() };
    assert_eq!(config_files(&loaded), vec![s("/c/config.yaml")]);
}

#[test]
fn nearest_repo_override_wins() {
    let probe = |dir: &str, yaml: Option<&str>, yml: Option<&str>| OverrideProbe {
        dir: s(dir),
        yaml: yaml.map(s),
        yml: yml.map(s),
    };
    let probes = vec![probe("/a/b", None, None), probe("/a", None, Some("/a/.herdr-layout.yml")), probe("/", Some("/.herdr-layout.yaml"), None)];
    assert_eq!(find_repo_override(&probes), Ok(Some(s("/a/.herdr-layout.yml"))));
    let probes = vec![probe("/a", Some("/a/.herdr-layout.yaml"), Some("/a/.herdr-layout.yml"))];
    assert_eq!(find_repo_override(&probes), Err(s("/a: both .herdr-layout.yaml and .herdr-layout.yml exist")));
    assert_eq!(find_repo_override(&[probe("/", None, None)]), Ok(None));
}

#[test]
fn names_are_leaves_lowercased_without_exe() {
    assert_eq!(normalize_name(Some("\"C:\\Tools\\API.EXE\"")), "api");
    assert_eq!(normalize_name(Some("BASH")), "bash");
    assert_eq!(normalize_name(Some("")), "");
    assert_eq!(normalize_name(None), "");
    assert_eq!(normalize_name(Some("/usr/bin/")), "");
    assert_eq!(name_leaf("'/opt/x/Tool'"), "Tool");
    assert_eq!(strip_exe_suffix("node.exe"), "node");
    assert_eq!(strip_exe_suffix(".exe"), "");
    assert_eq!(strip_exe_suffix("exe"), "exe");
    assert_eq!(command_name("  'My App' --x"), "my app");
    assert_eq!(command_name("\"unterminated"), "unterminated");
    assert_eq!(command_name("   "), "");
    assert_eq!(command_name("lazygit\t--debug"), "lazygit");
}

#[test]
fn plan_has_one_operation_per_target_and_never_reuses_a_pane() {
    let layout = Layout { first_uses_current_tab: false, tabs: vec![target("api", "api"), target("web", "web")] };
    let ops = plan_layout(
        &layout,
        &snap(vec![tab("t1", "api")], vec![pane("p1", "t1")], procs(&[("p1", &["api"])]), None),
    )
    .unwrap();
    assert_eq!(
        ops,
        vec![
            Operation::AlreadyRunning { label: s("api"), pane_id: s("p1"), tab_id: s("t1") },
            Operation::CreateTab { target: target("web", "web") },
        ]
    );
    let twice = Layout { first_uses_current_tab: false, tabs: vec![target("api", "api"), target("api", "api --two")] };
    assert_eq!(
        plan_layout(&twice, &snap(vec![tab("t1", "api")], vec![pane("p1", "t1")], procs(&[("p1", &["api"])]), None)).unwrap_err(),
        "Tab \"api\" exists, but no matching or idle pane is available"
    );
}

#[test]
fn idle_current_pane_is_claimed_when_target_has_no_tab() {
    let current = pane("p-cur", "t-cur");
    let layout = Layout { first_uses_current_tab: true, tabs: vec![target("git", "lazygit"), target("git2", "lazygit")] };
    let ops = plan_layout(
        &layout,
        &snap(vec![tab("t-cur", "scratch")], vec![current.clone()], procs(&[("p-cur", &["zsh"])]), Some(current)),
    )
    .unwrap();
    assert_eq!(
        ops,
        vec![
            Operation::ClaimCurrent { target: target("git", "lazygit"), pane_id: s("p-cur"), tab_id: s("t-cur") },
            Operation::CreateTab { target: target("git2", "lazygit") },
        ]
    );
}

#[test]
fn busy_current_pane_is_left_alone() {
    let current = pane("p-cur", "t-cur");
    let layout = Layout { first_uses_current_tab: true, tabs: vec![target("git", "lazygit")] };
    let ops = plan_layout(
        &layout,
        &snap(vec![tab("t-cur", "scratch")], vec![current.clone()], procs(&[("p-cur", &["vim"])]), Some(current)),
    )
    .unwrap();
    assert_eq!(ops, vec![Operation::CreateTab { target: target("git", "lazygit") }]);
}

#[test]
fn plan_target_records_the_pane_it_takes() {
    let mut assigned = vec![s("p1")];
    let got = plan_target(
        &target("api", "api"),
        &[tab("t1", "api")],
        &[pane("p1", "t1"), pane("p2", "t1")],
        &procs(&[("p1", &["api"]), ("p2", &["bash"])]),
        &mut assigned,
    );
    assert_eq!(got, Ok(Operation::AlreadyRunning { label: s("api"), pane_id: s("p2"), tab_id: s("t1") }));
    assert!(assigned.contains(&s("p2")));
}

#[test]
fn herdr_outcomes() {
    let out = |attempt, success, code, json, stdout: &str, stderr: &str| {
        attempt_outcome("herdr tab list", attempt, success, code, json, s(stdout), s(stderr))
    };
    assert_eq!(out(0, false, Some(3), false, "", ""), HerdrOutcome::Fail(s("herdr tab list: herdr tab list failed with exit 3")));
    assert_eq!(out(0, false, None, false, "", ""), HerdrOutcome::Fail(s("herdr tab list: herdr tab list failed with exit -1")));
    assert_eq!(out(0, false, Some(1), false, "out", "  bad thing \n"), HerdrOutcome::Fail(s("herdr tab list: bad thing")));
    assert_eq!(out(0, false, Some(1), false, " out ", ""), HerdrOutcome::Fail(s("herdr tab list: out")));
    assert_eq!(out(0, false, Some(1), false, "", "BrokenPipe"), HerdrOutcome::Retry);
    assert_eq!(out(HERDR_RETRIES, false, Some(1), false, "", "BrokenPipe"), HerdrOutcome::Fail(s("herdr tab list: BrokenPipe")));
    assert_eq!(out(HERDR_RETRIES, true, Some(0), true, " \n", ""), HerdrOutcome::Fail(s("herdr tab list returned empty output")));
    assert_eq!(out(0, true, Some(0), false, "", ""), HerdrOutcome::Output(s("")));
    assert_eq!(out(1, true, Some(0), true, "{}\n", ""), HerdrOutcome::Output(s("{}\n")));
    assert_eq!(spawn_failure_outcome("herdr x", "kind: BrokenPipe", 0), HerdrOutcome::Retry);
    assert_eq!(spawn_failure_outcome("herdr x", "kind: BrokenPipe", 3), HerdrOutcome::Fail(s("herdr x failed to start: kind: BrokenPipe")));
    assert_eq!(spawn_failure_outcome("herdr x", "not found", 0), HerdrOutcome::Fail(s("herdr x failed to start: not found")));
}

#[test]
fn herdr_command_lines() {
    assert_eq!(herdr_command_text(&[s("tab"), s("list")]), "herdr tab list");
    assert_eq!(herdr_command_text(&[]), "herdr ");
    assert_eq!(run_args("p1", "npm run dev"), vec![s("pane"), s("run"), s("p1"), s("npm run dev")]);
    assert_eq!(process_info_args("p1"), vec![s("pane"), s("process-info"), s("--pane"), s("p1")]);
    assert_eq!(notification_args("hi")[4], "hi");
    let ctx = PluginContext { workspace_id: Some(s("w1")), tab_id: None, focused_pane_id: None, focused_pane_cwd: None, workspace_cwd: None };
    assert_eq!(list_args("tab", &ctx), vec![s("tab"), s("list"), s("--workspace"), s("w1")]);
    let snapshot = snap(vec![], vec![], ProcessMap::new(), None);
    assert_eq!(
        operation_calls(&Operation::CreateTab { target: target("api", "api --serve") }, &snapshot),
        vec![HerdrCall::CreateTab {
            create: vec![s("tab"), s("create"), s("--workspace"), s("w9"), s("--cwd"), s("/repo"), s("--label"), s("api"), s("--no-focus")],
            command: s("api --serve"),
        }]
    );
    assert_eq!(
        operation_calls(&Operation::ClaimCurrent { target: target("api", "api"), pane_id: s("p"), tab_id: s("t") }, &snapshot),
        vec![
            HerdrCall::Run(vec![s("tab"), s("rename"), s("t"), s("api")]),
            HerdrCall::Run(vec![s("pane"), s("run"), s("p"), s("api")]),
        ]
    );
    assert_eq!(operation_calls(&Operation::AlreadyRunning { label: s("a"), pane_id: s("p"), tab_id: s("t") }, &snapshot), vec![]);
}

#[test]
fn herdr_replies_are_read_or_refused() {
    let tab_json = jobj(vec![("tab_id", jstr("t1")), ("workspace_id", jstr("w")), ("label", jstr("api")), ("focused", Json::Bool(true))]);
    let reply = jobj(vec![("result", jobj(vec![("type", jstr("tab_list")), ("tabs", Json::Array(vec![tab_json]))]))]);
    assert_eq!(
        parse_tab_list(reply),
        Ok(vec![TabInfo { tab_id: s("t1"), workspace_id: s("w"), label: s("api"), focused: true }])
    );
    let wrong = jobj(vec![("result", jobj(vec![("type", jstr("pane_list"))]))]);
    assert_eq!(parse_tab_list(wrong), Err(s("Expected Herdr result tab_list, got pane_list")));
    assert_eq!(parse_tab_list(Json::Null), Err(s("Herdr response must be object")));
    let err = jobj(vec![("error", jobj(vec![("message", jstr("no such tab"))]))]);
    assert_eq!(parse_tab_list(err), Err(s("no such tab")));
    let bare = jobj(vec![("error", jobj(vec![("code", Json::Number(s("7"))), ("message", jstr(""))]))]);
    assert_eq!(parse_tab_list(bare), Err(s("{\"code\":7,\"message\":\"\"}")));
    let missing = jobj(vec![("result", jobj(vec![("type", jstr("tab_list"))]))]);
    assert_eq!(parse_tab_list(missing), Err(s("herdr tab list: tabs missing")));
    let bad_tab = jobj(vec![("result", jobj(vec![("type", jstr("tab_list")), ("tabs", Json::Array(vec![jobj(vec![("tab_id", jstr("t"))])]))]))]);
    assert_eq!(parse_tab_list(bad_tab), Err(s("tab.workspace_id must be string")));
    let proc_reply = jobj(vec![(
        "result",
        jobj(vec![
            ("type", jstr("pane_process_info")),
            ("process_info", jobj(vec![("pane_id", jstr("p1")), ("foreground_processes", Json::Array(vec![jobj(vec![("name", jstr("zsh")), ("argv0", jstr(""))])]))])),
        ]),
    )]);
    assert_eq!(
        parse_process_info(proc_reply),
        Ok(PaneProcessInfo { pane_id: s("p1"), foreground_processes: vec![PaneProcess { name: s("zsh"), argv0: None }] })
    );
    let created = jobj(vec![(
        "result",
        jobj(vec![("type", jstr("tab_created")), ("root_pane", jobj(vec![("pane_id", jstr("p9")), ("workspace_id", jstr("w")), ("tab_id", jstr("t9")), ("cwd", jstr("/x"))]))]),
    )]);
    let root = parse_created_root_pane(created).unwrap();
    assert_eq!(root.pane_id, "p9");
    assert_eq!(root.cwd, Some(s("/x")));
    assert_eq!(root.agent, None);
}

#[test]
fn plugin_context_prefers_record_then_nested_then_environment() {
    let record = jobj(vec![
        ("workspace", jobj(vec![("id", jstr("w-nested")), ("cwd", jstr("/ws"))])),
        ("tab_id", jstr("")),
        ("focused_pane", jobj(vec![("pane_id", jstr("p7")), ("cwd", jstr("/pane"))])),
    ]);
    let ctx = read_plugin_context(&record, Some(s("w-env")), Some(s("")), Some(s("p-env")));
    assert_eq!(
        ctx,
        PluginContext {
            workspace_id: Some(s("w-nested")),
            tab_id: None,
            focused_pane_id: Some(s("p7")),
            focused_pane_cwd: Some(s("/pane")),
            workspace_cwd: Some(s("/ws")),
        }
    );
    let ctx = read_plugin_context(&Json::Null, None, Some(s("t-env")), None);
    assert_eq!(ctx.tab_id, Some(s("t-env")));
    assert_eq!(invoking_cwd(&ctx, s("/proc")), "/proc");
}

#[test]
fn snapshot_takes_context_first_then_focus() {
    let mut p1 = pane("p1", "t1");
    p1.workspace_id = s("w1");
    let mut p2 = pane("p2", "t2");
    p2.focused = true;
    p2.cwd = Some(s("/p2"));
    let mut t2 = tab("t2", "x");
    t2.focused = true;
    let ctx = PluginContext { workspace_id: None, tab_id: None, focused_pane_id: None, focused_pane_cwd: None, workspace_cwd: None };
    let snapshot = assemble_snapshot(&ctx, vec![tab("t1", "a"), t2], vec![p1.clone(), p2.clone()], ProcessMap::new(), s("/proc"));
    assert_eq!(snapshot.current_pane, Some(p2.clone()));
    assert_eq!(snapshot.original_tab_id, Some(s("t2")));
    assert_eq!(snapshot.active_cwd, "/p2");
    assert_eq!(snapshot.workspace_id, Some(s("w")));
    let ctx = PluginContext { workspace_id: None, tab_id: None, focused_pane_id: Some(s("p1")), focused_pane_cwd: None, workspace_cwd: None };
    let snapshot = assemble_snapshot(&ctx, vec![tab("t1", "a")], vec![p1.clone(), p2], ProcessMap::new(), s("/proc"));
    assert_eq!(snapshot.current_pane, Some(p1));
    assert_eq!(snapshot.active_cwd, "/proc");
    assert_eq!(snapshot.workspace_id, Some(s("w1")));
    assert_eq!(check_listing(&[], &[]), Err(s("No Herdr tabs found")));
    assert_eq!(check_listing(&[tab("t", "x")], &[]), Err(s("No Herdr panes found")));
    assert_eq!(check_listing(&[tab("t", "x")], &[pane("p", "t")]), Ok(()));
}

#[test]
fn json_text_is_parsed() {
    assert_eq!(
        parse_json("{\"b\":[1,\"x\"],\"a\":true}").unwrap(),
        jobj(vec![("a", Json::Bool(true)), ("b", Json::Array(vec![Json::Number(s("1")), jstr("x")]))])
    );
    assert!(parse_json("{").is_err());
    assert_eq!(parse_plugin_context(Some("{\"tab_id\":\"t1\"}")), jobj(vec![("tab_id", jstr("t1"))]));
    assert_eq!(parse_plugin_context(Some("[1]")), Json::Object(vec![]));
    assert_eq!(parse_plugin_context(Some("not json")), Json::Object(vec![]));
    assert_eq!(parse_plugin_context(None), Json::Object(vec![]));
}

#[test]
fn process_map_keys_each_pane() {
    let info = |id: &str, n: &str| PaneProcessInfo { pane_id: s(id), foreground_processes: vec![PaneProcess { name: s(n), argv0: None }] };
    let m = process_map(&[pane("p1", "t"), pane("p2", "t"), pane("p1", "t")], &[info("a", "x"), info("b", "y"), info("c", "z")]);
    assert_eq!(m.len(), 2);
    assert_eq!(m.get("p1").unwrap().pane_id, "c");
    assert_eq!(m.get("p2").unwrap().pane_id, "b");
}
