use herdr_layout::herdr::should_retry_herdr_output;
use herdr_layout::model::{Layout, LayoutTarget, Operation, PaneInfo, PaneProcess, PaneProcessInfo, Snapshot, TabInfo};
use herdr_layout::names::{is_idle, is_target_running};
use herdr_layout::plan::plan_layout;
use herdr_layout::config::select_layout;
use herdr_layout::text_map::{LayoutMap, ProcessMap};

fn target(label: &str, command: &str) -> LayoutTarget {
    LayoutTarget { label: label.to_string(), command: command.to_string() }
}

fn layout(tabs: Vec<LayoutTarget>) -> Layout {
    Layout { first_uses_current_tab: false, tabs }
}

fn tab(tab_id: &str, label: &str) -> TabInfo {
    TabInfo { tab_id: tab_id.to_string(), workspace_id: "w".to_string(), label: label.to_string(), focused: false }
}

fn pane(pane_id: &str, tab_id: &str) -> PaneInfo {
    PaneInfo {
        pane_id: pane_id.to_string(),
        workspace_id: "w".to_string(),
        tab_id: tab_id.to_string(),
        focused: false,
        cwd: None,
        foreground_cwd: None,
        agent: None,
    }
}

fn pane_with_agent(pane_id: &str, tab_id: &str, agent: &str) -> PaneInfo {
    PaneInfo { agent: Some(agent.to_string()), ..pane(pane_id, tab_id) }
}

fn process(name: &str) -> PaneProcess {
    PaneProcess { name: name.to_string(), argv0: None }
}

fn process_with_argv0(name: &str, argv0: &str) -> PaneProcess {
    PaneProcess { name: name.to_string(), argv0: Some(argv0.to_string()) }
}

fn processes(entries: &[(&str, Vec<PaneProcess>)]) -> ProcessMap {
    let mut map = ProcessMap::new();
    for (pane_id, foreground_processes) in entries {
        map.insert(
            (*pane_id).to_string(),
            PaneProcessInfo { pane_id: (*pane_id).to_string(), foreground_processes: foreground_processes.clone() },
        );
    }
    map
}

fn snapshot(tabs: Vec<TabInfo>, panes: Vec<PaneInfo>, process_map: ProcessMap, current_pane: Option<PaneInfo>) -> Snapshot {
    Snapshot {
        tabs,
        panes,
        processes: process_map,
        current_pane,
        original_tab_id: None,
        workspace_id: None,
        active_cwd: "/repo".to_string(),
    }
}

#[test]
fn repo_override_replaces_whole_slot_layout() {
    let mut global = LayoutMap::new();
    global.insert("1".to_string(), layout(vec![target("global-a", "global-a"), target("global-b", "global-b")]));
    let override_layout = Layout { first_uses_current_tab: true, tabs: vec![target("repo-only", "repo-only")] };
    let mut overrides = LayoutMap::new();
    overrides.insert("1".to_string(), override_layout.clone());

    assert_eq!(select_layout(&global, &overrides, "1").unwrap(), override_layout);
}

#[test]
fn planning_matches_tab_labels_exactly() {
    let desired = target("api", "api --serve");

    assert_eq!(
        plan_layout(
            &layout(vec![desired.clone()]),
            &snapshot(vec![tab("t1", "API")], vec![pane("p1", "t1")], processes(&[("p1", vec![process("bash")])]), None),
        )
        .unwrap(),
        vec![Operation::CreateTab { target: desired }],
    );
}

#[test]
fn target_running_matches_command_basename_exe_and_pane_agent() {
    assert!(is_target_running(
        &pane("p1", "t1"),
        &target("api", r"C:\tools\api.exe --serve"),
        &processes(&[("p1", vec![process_with_argv0("ignored", "/usr/local/bin/api.exe")])]),
    ));

    assert!(is_target_running(&pane_with_agent("p2", "t2", "api.exe"), &target("api", "api --serve"), &ProcessMap::new()));
}

#[test]
fn idle_panes_require_known_foreground_shells() {
    for shell in ["pwsh", "powershell.exe", "cmd", "zsh", "bash", "fish", "nu", "sh"] {
        let pane_id = format!("p-{shell}");
        assert!(is_idle(&pane(&pane_id, "t1"), &processes(&[(&pane_id, vec![process(shell)])])), "{shell}");
    }

    assert!(!is_idle(&pane("p-node", "t1"), &processes(&[("p-node", vec![process("node")])])));
    assert!(!is_idle(&pane("p-empty", "t1"), &processes(&[("p-empty", vec![])])));
}

#[test]
fn first_uses_current_tab_prefers_already_running_target_elsewhere() {
    let desired = target("api", "api.exe --serve");
    let current = pane("p-current", "t-current");
    let mut first = layout(vec![desired]);
    first.first_uses_current_tab = true;

    assert_eq!(
        plan_layout(
            &first,
            &snapshot(
                vec![tab("t-current", "scratch"), tab("t-existing", "api")],
                vec![current.clone(), pane("p-existing", "t-existing")],
                processes(&[("p-current", vec![process("pwsh")]), ("p-existing", vec![process("api.exe")])]),
                Some(current),
            ),
        )
        .unwrap(),
        vec![Operation::AlreadyRunning { label: "api".to_string(), pane_id: "p-existing".to_string(), tab_id: "t-existing".to_string() }],
    );
}

#[test]
fn first_uses_current_tab_renames_current_running_target() {
    let desired = target("agent", "omp");
    let current = pane("p-current", "t-current");
    let mut first = layout(vec![desired.clone()]);
    first.first_uses_current_tab = true;

    assert_eq!(
        plan_layout(
            &first,
            &snapshot(vec![tab("t-current", "1")], vec![current.clone()], processes(&[("p-current", vec![process("omp")])]), Some(current)),
        )
        .unwrap(),
        vec![Operation::RenameCurrent { target: desired, pane_id: "p-current".to_string(), tab_id: "t-current".to_string() }],
    );
}

#[test]
fn matching_label_shell_foreground_is_noop_to_avoid_tui_keystrokes() {
    let desired = target("files", "yazi");
    let tabs = vec![tab("t-files", "files")];
    let panes = vec![pane("p-files", "t-files")];

    assert_eq!(
        plan_layout(&layout(vec![desired]), &snapshot(tabs, panes, processes(&[("p-files", vec![process("pwsh")])]), None)).unwrap(),
        vec![Operation::AlreadyRunning { label: "files".to_string(), pane_id: "p-files".to_string(), tab_id: "t-files".to_string() }],
    );
}

#[test]
fn duplicate_target_tabs_prefer_running_then_idle_then_error() {
    let desired = target("api", "api --serve");
    let tabs = vec![tab("t-idle", "api"), tab("t-running", "api")];
    let panes = vec![pane("p-idle", "t-idle"), pane("p-running", "t-running")];

    assert_eq!(
        plan_layout(
            &layout(vec![desired.clone()]),
            &snapshot(tabs.clone(), panes.clone(), processes(&[("p-idle", vec![process("bash")]), ("p-running", vec![process("api")])]), None),
        )
        .unwrap(),
        vec![Operation::AlreadyRunning { label: "api".to_string(), pane_id: "p-running".to_string(), tab_id: "t-running".to_string() }],
    );

    assert_eq!(
        plan_layout(
            &layout(vec![desired.clone()]),
            &snapshot(tabs.clone(), panes.clone(), processes(&[("p-idle", vec![process("bash")]), ("p-running", vec![process("zsh")])]), None),
        )
        .unwrap(),
        vec![Operation::AlreadyRunning { label: "api".to_string(), pane_id: "p-idle".to_string(), tab_id: "t-idle".to_string() }],
    );

    assert_eq!(
        plan_layout(
            &layout(vec![desired]),
            &snapshot(tabs, panes, processes(&[("p-idle", vec![process("node")]), ("p-running", vec![process("python")])]), None),
        )
        .unwrap(),
        vec![Operation::AlreadyRunning { label: "api".to_string(), pane_id: "p-idle".to_string(), tab_id: "t-idle".to_string() }],
    );
}

#[test]
fn herdr_retry_detects_pipe_failures_and_empty_json() {
    assert!(should_retry_herdr_output(false, false, "", r#"Error: Os { code: 232, kind: BrokenPipe, message: "pipe closing" }"#));
    assert!(should_retry_herdr_output(false, false, "BrokenPipe", ""));
    assert!(should_retry_herdr_output(true, true, "", ""));
    assert!(!should_retry_herdr_output(true, true, r#"{"ok":true}"#, ""));
    assert!(!should_retry_herdr_output(false, false, "", "real error"));
}
