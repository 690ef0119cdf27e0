//! The data the planner works on, with their mathematical views.
use vstd::prelude::*;
use crate::text_map::ProcessMap;

verus! {

/// A desired tab: its label and the shell line it runs.
#[derive(Debug, PartialEq, Eq)]
pub struct LayoutTarget {
    pub label: String,
    pub command: String,
}

pub struct LayoutTargetView {
    pub label: Seq<char>,
    pub command: Seq<char>,
}

impl View for LayoutTarget {
    type V = LayoutTargetView;

    open spec fn view(&self) -> LayoutTargetView {
        LayoutTargetView { label: self.label@, command: self.command@ }
    }
}

impl DeepView for LayoutTarget {
    type V = LayoutTargetView;

    open spec fn deep_view(&self) -> LayoutTargetView {
        self.view()
    }
}

impl Clone for LayoutTarget {
    fn clone(&self) -> (r: Self)
        ensures
            r == *self,
    {
        LayoutTarget { label: self.label.clone(), command: self.command.clone() }
    }
}

/// One layout slot: its targets, and whether the first may claim the current tab.
#[derive(Debug, PartialEq, Eq)]
pub struct Layout {
    pub first_uses_current_tab: bool,
    pub tabs: Vec<LayoutTarget>,
}

pub struct LayoutView {
    pub first_uses_current_tab: bool,
    pub tabs: Seq<LayoutTargetView>,
}

impl View for Layout {
    type V = LayoutView;

    open spec fn view(&self) -> LayoutView {
        LayoutView { first_uses_current_tab: self.first_uses_current_tab, tabs: self.tabs.deep_view() }
    }
}

impl DeepView for Layout {
    type V = LayoutView;

    open spec fn deep_view(&self) -> LayoutView {
        self.view()
    }
}

impl Clone for Layout {
    fn clone(&self) -> (r: Self)
        ensures
            r@ == self@,
    {
        let tabs = self.tabs.clone();
        assert(tabs.deep_view() =~= self.tabs.deep_view());
        Layout { first_uses_current_tab: self.first_uses_current_tab, tabs }
    }
}

/// A Herdr tab as listed by `herdr tab list`.
#[derive(Debug, PartialEq, Eq)]
pub struct TabInfo {
    pub tab_id: String,
    pub workspace_id: String,
    pub label: String,
    pub focused: bool,
}

pub struct TabInfoView {
    pub tab_id: Seq<char>,
    pub workspace_id: Seq<char>,
    pub label: Seq<char>,
    pub focused: bool,
}

impl View for TabInfo {
    type V = TabInfoView;

    open spec fn view(&self) -> TabInfoView {
        TabInfoView {
            tab_id: self.tab_id@,
            workspace_id: self.workspace_id@,
            label: self.label@,
            focused: self.focused,
        }
    }
}

impl DeepView for TabInfo {
    type V = TabInfoView;

    open spec fn deep_view(&self) -> TabInfoView {
        self.view()
    }
}

impl Clone for TabInfo {
    fn clone(&self) -> (r: Self)
        ensures
            r == *self,
    {
        TabInfo {
            tab_id: self.tab_id.clone(),
            workspace_id: self.workspace_id.clone(),
            label: self.label.clone(),
            focused: self.focused,
        }
    }
}

/// A Herdr pane as listed by `herdr pane list`.
#[derive(Debug, PartialEq, Eq)]
pub struct PaneInfo {
    pub pane_id: String,
    pub workspace_id: String,
    pub tab_id: String,
    pub focused: bool,
    pub cwd: Option<String>,
    pub foreground_cwd: Option<String>,
    pub agent: Option<String>,
}

pub struct PaneInfoView {
    pub pane_id: Seq<char>,
    pub workspace_id: Seq<char>,
    pub tab_id: Seq<char>,
    pub focused: bool,
    pub cwd: Option<Seq<char>>,
    pub foreground_cwd: Option<Seq<char>>,
    pub agent: Option<Seq<char>>,
}

impl View for PaneInfo {
    type V = PaneInfoView;

    open spec fn view(&self) -> PaneInfoView {
        PaneInfoView {
            pane_id: self.pane_id@,
            workspace_id: self.workspace_id@,
            tab_id: self.tab_id@,
            focused: self.focused,
            cwd: self.cwd.deep_view(),
            foreground_cwd: self.foreground_cwd.deep_view(),
            agent: self.agent.deep_view(),
        }
    }
}

impl DeepView for PaneInfo {
    type V = PaneInfoView;

    open spec fn deep_view(&self) -> PaneInfoView {
        self.view()
    }
}

/// A copy of an optional string that is equal to it.
pub fn clone_opt_string(s: &Option<String>) -> (r: Option<String>)
    ensures
        r == *s,
{
    match s {
        Some(x) => Some(x.clone()),
        None => None,
    }
}

impl Clone for PaneInfo {
    fn clone(&self) -> (r: Self)
        ensures
            r == *self,
    {
        PaneInfo {
            pane_id: self.pane_id.clone(),
            workspace_id: self.workspace_id.clone(),
            tab_id: self.tab_id.clone(),
            focused: self.focused,
            cwd: clone_opt_string(&self.cwd),
            foreground_cwd: clone_opt_string(&self.foreground_cwd),
            agent: clone_opt_string(&self.agent),
        }
    }
}

/// A foreground process of a pane.
#[derive(Debug, PartialEq, Eq)]
pub struct PaneProcess {
    pub name: String,
    pub argv0: Option<String>,
}

pub struct PaneProcessView {
    pub name: Seq<char>,
    pub argv0: Option<Seq<char>>,
}

impl View for PaneProcess {
    type V = PaneProcessView;

    open spec fn view(&self) -> PaneProcessView {
        PaneProcessView { name: self.name@, argv0: self.argv0.deep_view() }
    }
}

impl DeepView for PaneProcess {
    type V = PaneProcessView;

    open spec fn deep_view(&self) -> PaneProcessView {
        self.view()
    }
}

impl Clone for PaneProcess {
    fn clone(&self) -> (r: Self)
        ensures
            r == *self,
    {
        PaneProcess { name: self.name.clone(), argv0: clone_opt_string(&self.argv0) }
    }
}

/// The foreground processes of one pane.
#[derive(Debug, PartialEq, Eq)]
pub struct PaneProcessInfo {
    pub pane_id: String,
    pub foreground_processes: Vec<PaneProcess>,
}

pub struct PaneProcessInfoView {
    pub pane_id: Seq<char>,
    pub foreground_processes: Seq<PaneProcessView>,
}

impl View for PaneProcessInfo {
    type V = PaneProcessInfoView;

    open spec fn view(&self) -> PaneProcessInfoView {
        PaneProcessInfoView {
            pane_id: self.pane_id@,
            foreground_processes: self.foreground_processes.deep_view(),
        }
    }
}

impl DeepView for PaneProcessInfo {
    type V = PaneProcessInfoView;

    open spec fn deep_view(&self) -> PaneProcessInfoView {
        self.view()
    }
}

impl Clone for PaneProcessInfo {
    fn clone(&self) -> (r: Self)
        ensures
            r@ == self@,
    {
        let foreground_processes = self.foreground_processes.clone();
        assert(foreground_processes.deep_view() =~= self.foreground_processes.deep_view());
        PaneProcessInfo { pane_id: self.pane_id.clone(), foreground_processes }
    }
}

/// One step of applying a layout.
#[derive(Debug, PartialEq, Eq)]
pub enum Operation {
    AlreadyRunning { label: String, pane_id: String, tab_id: String },
    RunExisting { target: LayoutTarget, pane_id: String, tab_id: String },
    RenameCurrent { target: LayoutTarget, pane_id: String, tab_id: String },
    ClaimCurrent { target: LayoutTarget, pane_id: String, tab_id: String },
    CreateTab { target: LayoutTarget },
}

pub enum OperationView {
    AlreadyRunning { label: Seq<char>, pane_id: Seq<char>, tab_id: Seq<char> },
    RunExisting { target: LayoutTargetView, pane_id: Seq<char>, tab_id: Seq<char> },
    RenameCurrent { target: LayoutTargetView, pane_id: Seq<char>, tab_id: Seq<char> },
    ClaimCurrent { target: LayoutTargetView, pane_id: Seq<char>, tab_id: Seq<char> },
    CreateTab { target: LayoutTargetView },
}

impl View for Operation {
    type V = OperationView;

    open spec fn view(&self) -> OperationView {
        match self {
            Operation::AlreadyRunning { label, pane_id, tab_id } => OperationView::AlreadyRunning {
                label: label@,
                pane_id: pane_id@,
                tab_id: tab_id@,
            },
            Operation::RunExisting { target, pane_id, tab_id } => OperationView::RunExisting {
                target: target@,
                pane_id: pane_id@,
                tab_id: tab_id@,
            },
            Operation::RenameCurrent { target, pane_id, tab_id } => OperationView::RenameCurrent {
                target: target@,
                pane_id: pane_id@,
                tab_id: tab_id@,
            },
            Operation::ClaimCurrent { target, pane_id, tab_id } => OperationView::ClaimCurrent {
                target: target@,
                pane_id: pane_id@,
                tab_id: tab_id@,
            },
            Operation::CreateTab { target } => OperationView::CreateTab { target: target@ },
        }
    }
}

impl DeepView for Operation {
    type V = OperationView;

    open spec fn deep_view(&self) -> OperationView {
        self.view()
    }
}

/// What Herdr reported about the workspace when planning started.
#[derive(Debug)]
pub struct Snapshot {
    pub tabs: Vec<TabInfo>,
    pub panes: Vec<PaneInfo>,
    pub processes: ProcessMap,
    pub current_pane: Option<PaneInfo>,
    pub original_tab_id: Option<String>,
    pub workspace_id: Option<String>,
    pub active_cwd: String,
}

pub struct SnapshotView {
    pub tabs: Seq<TabInfoView>,
    pub panes: Seq<PaneInfoView>,
    pub processes: Map<Seq<char>, PaneProcessInfoView>,
    pub current_pane: Option<PaneInfoView>,
    pub original_tab_id: Option<Seq<char>>,
    pub workspace_id: Option<Seq<char>>,
    pub active_cwd: Seq<char>,
}

impl View for Snapshot {
    type V = SnapshotView;

    open spec fn view(&self) -> SnapshotView {
        SnapshotView {
            tabs: self.tabs.deep_view(),
            panes: self.panes.deep_view(),
            processes: self.processes@,
            current_pane: self.current_pane.deep_view(),
            original_tab_id: self.original_tab_id.deep_view(),
            workspace_id: self.workspace_id.deep_view(),
            active_cwd: self.active_cwd@,
        }
    }
}

} // verus!
