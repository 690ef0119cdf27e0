//! Planning: which Herdr operations bring the workspace to a layout.
use vstd::prelude::*;
use vstd::string::StringExecFns;
use crate::text::str_eq;
use crate::model::{
    Layout, LayoutView, Snapshot, SnapshotView, LayoutTarget, LayoutTargetView, Operation, OperationView, PaneInfo, PaneInfoView,
    PaneProcessInfoView, TabInfo, TabInfoView,
};
use crate::names::{is_target_running, is_idle, spec_is_target_running, spec_is_idle};
use crate::text_map::ProcessMap;
use crate::search::{first_index, lemma_first_index, lemma_first_index_at, lemma_first_index_none};

verus! {

/// The set of ids that a list of strings holds.
pub open spec fn id_set(ids: Seq<String>) -> Set<Seq<char>> {
    Set::new(|k: Seq<char>| exists|i: int| 0 <= i < ids.len() && #[trigger] ids[i]@ == k)
}

/// Panes that may be taken for a target: not yet assigned, and running it when `need_running`.
pub open spec fn pane_ok(
    target: LayoutTargetView,
    procs: Map<Seq<char>, PaneProcessInfoView>,
    assigned: Set<Seq<char>>,
    need_running: bool,
) -> spec_fn(PaneInfoView) -> bool {
    |p: PaneInfoView|
        !assigned.contains(p.pane_id) && (need_running ==> spec_is_target_running(p, target, procs))
}

/// The first pane of tab `tab_id` that `ok` accepts.
pub open spec fn pane_pick(panes: Seq<PaneInfoView>, tab_id: Seq<char>, ok: spec_fn(PaneInfoView) -> bool) -> Option<
    int,
> {
    first_index(panes, |p: PaneInfoView| p.tab_id == tab_id && ok(p))
}

/// The first tab labelled `label` that has a pane `ok` accepts.
pub open spec fn tab_pick(
    tabs: Seq<TabInfoView>,
    panes: Seq<PaneInfoView>,
    label: Seq<char>,
    ok: spec_fn(PaneInfoView) -> bool,
) -> Option<int> {
    first_index(tabs, |t: TabInfoView| t.label == label && pane_pick(panes, t.tab_id, ok) is Some)
}

/// The error for a target whose labelled tabs offer no free pane.
pub open spec fn no_pane_message(label: Seq<char>) -> Seq<char> {
    "Tab \""@ + label + "\" exists, but no matching or idle pane is available"@
}

/// Planning one target against the tabs and panes: a new tab when no tab has its label;
/// otherwise the first free pane that runs it (tabs in order, then panes in order),
/// else the first free pane at all, reported as already running; else an error.
/// The chosen pane joins the assigned set.
pub open spec fn spec_plan_target(
    target: LayoutTargetView,
    tabs: Seq<TabInfoView>,
    panes: Seq<PaneInfoView>,
    procs: Map<Seq<char>, PaneProcessInfoView>,
    assigned: Set<Seq<char>>,
) -> (Result<OperationView, Seq<char>>, Set<Seq<char>>) {
    let running = pane_ok(target, procs, assigned, true);
    let free = pane_ok(target, procs, assigned, false);
    if !(exists|i: int| 0 <= i < tabs.len() && #[trigger] tabs[i].label == target.label) {
        (Ok(OperationView::CreateTab { target }), assigned)
    } else {
        match tab_pick(tabs, panes, target.label, running) {
            Some(ti) => {
                let pi = pane_pick(panes, tabs[ti].tab_id, running)->0;
                (
                    Ok(
                        OperationView::AlreadyRunning {
                            label: target.label,
                            pane_id: panes[pi].pane_id,
                            tab_id: tabs[ti].tab_id,
                        },
                    ),
                    assigned.insert(panes[pi].pane_id),
                )
            },
            None => match tab_pick(tabs, panes, target.label, free) {
                Some(ti) => {
                    let pi = pane_pick(panes, tabs[ti].tab_id, free)->0;
                    (
                        Ok(
                            OperationView::AlreadyRunning {
                                label: target.label,
                                pane_id: panes[pi].pane_id,
                                tab_id: tabs[ti].tab_id,
                            },
                        ),
                        assigned.insert(panes[pi].pane_id),
                    )
                },
                None => (Err(no_pane_message(target.label)), assigned),
            },
        }
    }
}

/// The view of a planning result.
pub open spec fn op_result_view(r: Result<Operation, String>) -> Result<OperationView, Seq<char>> {
    match r {
        Ok(op) => Ok(op@),
        Err(e) => Err(e@),
    }
}

/// Whether `id` is among `ids`.
pub fn ids_contain(ids: &Vec<String>, id: &str) -> (r: bool)
    ensures
        r == id_set(ids@).contains(id@),
{
    let mut i: usize = 0;
    while i < ids.len()
        invariant
            i <= ids@.len(),
            forall|j: int| 0 <= j < i ==> ids@[j]@ != id@,
        decreases ids.len() - i,
    {
        if str_eq(ids[i].as_str(), id) {
            assert(ids@[i as int]@ == id@);
            return true;
        }
        i = i + 1;
    }
    false
}

/// Adds `id` to `ids`.
pub fn add_id(ids: &mut Vec<String>, id: String)
    ensures
        id_set(final(ids)@) == id_set(old(ids)@).insert(id@),
{
    let ghost before = ids@;
    ids.push(id);
    proof {
        let after = ids@;
        assert(id_set(after) =~= id_set(before).insert(id@)) by {
            assert forall|k: Seq<char>| id_set(before).insert(id@).contains(k) implies #[trigger] id_set(
                after,
            ).contains(k) by {
                if k == id@ {
                    assert(after[before.len() as int]@ == k);
                } else {
                    let i = choose|i: int| 0 <= i < before.len() && #[trigger] before[i]@ == k;
                    assert(after[i]@ == k);
                }
            }
            assert forall|k: Seq<char>| #[trigger] id_set(after).contains(k) implies id_set(before).insert(
                id@,
            ).contains(k) by {
                let i = choose|i: int| 0 <= i < after.len() && #[trigger] after[i]@ == k;
                if i < before.len() {
                    assert(before[i]@ == k);
                }
            }
        }
    }
}

/// The first pane of tab `tab_id` that is unassigned and, when `need_running`, runs `target`.
fn find_pane(
    panes: &[PaneInfo],
    tab_id: &str,
    target: &LayoutTarget,
    processes: &ProcessMap,
    assigned: &Vec<String>,
    need_running: bool,
) -> (r: Option<usize>)
    ensures
        match r {
            Some(k) => k < panes.len() && pane_pick(
                panes.deep_view(),
                tab_id@,
                pane_ok(target@, processes@, id_set(assigned@), need_running),
            ) == Some(k as int),
            None => pane_pick(
                panes.deep_view(),
                tab_id@,
                pane_ok(target@, processes@, id_set(assigned@), need_running),
            ) == None::<int>,
        },
{
    let ghost ok = pane_ok(target@, processes@, id_set(assigned@), need_running);
    let ghost pred = |p: PaneInfoView| p.tab_id == tab_id@ && ok(p);
    let mut k: usize = 0;
    while k < panes.len()
        invariant
            k <= panes@.len(),
            pred == (|p: PaneInfoView| p.tab_id == tab_id@ && ok(p)),
            ok == pane_ok(target@, processes@, id_set(assigned@), need_running),
            forall|j: int| 0 <= j < k ==> !pred(#[trigger] panes.deep_view()[j]),
        decreases panes.len() - k,
    {
        let p = &panes[k];
        assert(panes.deep_view()[k as int] == p@);
        if str_eq(p.tab_id.as_str(), tab_id) && !ids_contain(assigned, p.pane_id.as_str()) && (
        !need_running || is_target_running(p, target, processes)) {
            proof {
                lemma_first_index_at(panes.deep_view(), pred, k as int);
            }
            return Some(k);
        }
        k = k + 1;
    }
    proof {
        lemma_first_index_none(panes.deep_view(), pred);
    }
    None
}

/// The first tab labelled `target.label` holding a pane that `find_pane` accepts, with that pane.
fn find_tab_pane(
    target: &LayoutTarget,
    tabs: &[TabInfo],
    panes: &[PaneInfo],
    processes: &ProcessMap,
    assigned: &Vec<String>,
    need_running: bool,
) -> (r: Option<(usize, usize)>)
    ensures
        ({
            let ok = pane_ok(target@, processes@, id_set(assigned@), need_running);
            match r {
                Some((ti, pi)) => tab_pick(tabs.deep_view(), panes.deep_view(), target@.label, ok) == Some(
                    ti as int,
                ) && ti < tabs.len() && pane_pick(panes.deep_view(), tabs.deep_view()[ti as int].tab_id, ok)
                    == Some(pi as int) && pi < panes.len(),
                None => tab_pick(tabs.deep_view(), panes.deep_view(), target@.label, ok) == None::<int>,
            }
        }),
{
    let ghost ok = pane_ok(target@, processes@, id_set(assigned@), need_running);
    let ghost pred = |t: TabInfoView|
        t.label == target@.label && pane_pick(panes.deep_view(), t.tab_id, ok) is Some;
    let mut ti: usize = 0;
    while ti < tabs.len()
        invariant
            ti <= tabs@.len(),
            ok == pane_ok(target@, processes@, id_set(assigned@), need_running),
            pred == (|t: TabInfoView|
                t.label == target@.label && pane_pick(panes.deep_view(), t.tab_id, ok) is Some),
            forall|j: int| 0 <= j < ti ==> !pred(#[trigger] tabs.deep_view()[j]),
        decreases tabs.len() - ti,
    {
        let t = &tabs[ti];
        assert(tabs.deep_view()[ti as int] == t@);
        if str_eq(t.label.as_str(), target.label.as_str()) {
            match find_pane(panes, t.tab_id.as_str(), target, processes, assigned, need_running) {
                Some(pi) => {
                    proof {
                        lemma_first_index_at(tabs.deep_view(), pred, ti as int);
                        lemma_first_index(
                            panes.deep_view(),
                            |p: PaneInfoView| p.tab_id == t.tab_id@ && ok(p),
                        );
                    }
                    return Some((ti, pi));
                },
                None => {},
            }
        }
        ti = ti + 1;
    }
    proof {
        lemma_first_index_none(tabs.deep_view(), pred);
    }
    None
}

/// Plans one target (see `spec_plan_target`). A pane that the last pass could take would
/// already have been taken by the one before it, so that pass never yields an operation.
pub fn plan_target(
    target: &LayoutTarget,
    tabs: &[TabInfo],
    panes: &[PaneInfo],
    processes: &ProcessMap,
    assigned: &mut Vec<String>,
) -> (r: Result<Operation, String>)
    ensures
        ({
            let (res, ids) = spec_plan_target(
                target@,
                tabs.deep_view(),
                panes.deep_view(),
                processes@,
                id_set(old(assigned)@),
            );
            op_result_view(r) == res && id_set(final(assigned)@) == ids
        }),
{
    let ghost tv = tabs.deep_view();
    let mut any = false;
    let mut i: usize = 0;
    while i < tabs.len()
        invariant
            i <= tabs@.len(),
            tv == tabs.deep_view(),
            !any ==> forall|j: int| 0 <= j < i ==> tv[j].label != target@.label,
            any ==> exists|j: int| 0 <= j < tv.len() && #[trigger] tv[j].label == target@.label,
        decreases tabs.len() - i,
    {
        if str_eq(tabs[i].label.as_str(), target.label.as_str()) {
            assert(tv[i as int].label == target@.label);
            any = true;
        }
        i = i + 1;
    }
    if !any {
        return Ok(Operation::CreateTab { target: target.clone() });
    }
    match find_tab_pane(target, tabs, panes, processes, assigned, true) {
        Some((ti, pi)) => {
            let pane_id = panes[pi].pane_id.clone();
            add_id(assigned, panes[pi].pane_id.clone());
            return Ok(
                Operation::AlreadyRunning {
                    label: target.label.clone(),
                    pane_id,
                    tab_id: tabs[ti].tab_id.clone(),
                },
            );
        },
        None => {},
    }
    match find_tab_pane(target, tabs, panes, processes, assigned, false) {
        Some((ti, pi)) => {
            let pane_id = panes[pi].pane_id.clone();
            add_id(assigned, panes[pi].pane_id.clone());
            return Ok(
                Operation::AlreadyRunning {
                    label: target.label.clone(),
                    pane_id,
                    tab_id: tabs[ti].tab_id.clone(),
                },
            );
        },
        None => {},
    }
    let mut ti: usize = 0;
    while ti < tabs.len()
        invariant
            ti <= tabs@.len(),
            assigned@ == old(assigned)@,
            tab_pick(
                tabs.deep_view(),
                panes.deep_view(),
                target@.label,
                pane_ok(target@, processes@, id_set(assigned@), false),
            ) == None::<int>,
            tab_pick(
                tabs.deep_view(),
                panes.deep_view(),
                target@.label,
                pane_ok(target@, processes@, id_set(assigned@), true),
            ) == None::<int>,
            exists|j: int| 0 <= j < tabs.deep_view().len() && #[trigger] tabs.deep_view()[j].label == target@.label,
        decreases tabs.len() - ti,
    {
        if str_eq(tabs[ti].label.as_str(), target.label.as_str()) {
            let mut k: usize = 0;
            while k < panes.len()
                invariant
                    ti < tabs@.len(),
                    assigned@ == old(assigned)@,
                    k <= panes@.len(),
                    tab_pick(
                        tabs.deep_view(),
                        panes.deep_view(),
                        target@.label,
                        pane_ok(target@, processes@, id_set(assigned@), false),
                    ) == None::<int>,
                    tab_pick(
                        tabs.deep_view(),
                        panes.deep_view(),
                        target@.label,
                        pane_ok(target@, processes@, id_set(assigned@), true),
                    ) == None::<int>,
                    exists|j: int| 0 <= j < tabs.deep_view().len() && #[trigger] tabs.deep_view()[j].label == target@.label,
                    tabs@[ti as int].label@ == target@.label,
                decreases panes.len() - k,
            {
                let p = &panes[k];
                if str_eq(p.tab_id.as_str(), tabs[ti].tab_id.as_str()) && !ids_contain(
                    assigned,
                    p.pane_id.as_str(),
                ) && is_idle(p, processes) {
                    proof {
                        let ok = pane_ok(target@, processes@, id_set(assigned@), false);
                        let tp = |t: TabInfoView|
                            t.label == target@.label && pane_pick(panes.deep_view(), t.tab_id, ok) is Some;
                        lemma_first_index(tabs.deep_view(), tp);
                        assert(tabs.deep_view()[ti as int] == tabs@[ti as int]@);
                        assert(!tp(tabs.deep_view()[ti as int]));
                        let pp = |q: PaneInfoView| q.tab_id == tabs@[ti as int].tab_id@ && ok(q);
                        lemma_first_index(panes.deep_view(), pp);
                        assert(panes.deep_view()[k as int] == p@);
                        assert(pp(panes.deep_view()[k as int]));
                    }
                    let pane_id = p.pane_id.clone();
                    add_id(assigned, p.pane_id.clone());
                    return Ok(
                        Operation::RunExisting {
                            target: target.clone(),
                            pane_id,
                            tab_id: tabs[ti].tab_id.clone(),
                        },
                    );
                }
                k = k + 1;
            }
        }
        ti = ti + 1;
    }
    let mut msg = String::from_str("Tab \"");
    msg.append(target.label.as_str());
    msg.append("\" exists, but no matching or idle pane is available");
    assert(msg@ == no_pane_message(target@.label));
    Err(msg)
}

/// What planning has built after some of the layout's targets.
pub struct PlanState {
    pub tabs: Seq<TabInfoView>,
    pub assigned: Set<Seq<char>>,
    pub ops: Seq<OperationView>,
}

/// `tabs` with the first tab whose id is `tab_id` relabelled `label`.
pub open spec fn rename_tab(tabs: Seq<TabInfoView>, tab_id: Seq<char>, label: Seq<char>) -> Seq<
    TabInfoView,
> {
    match first_index(tabs, |t: TabInfoView| t.tab_id == tab_id) {
        Some(k) => tabs.update(
            k,
            TabInfoView {
                tab_id: tabs[k].tab_id,
                workspace_id: tabs[k].workspace_id,
                label,
                focused: tabs[k].focused,
            },
        ),
        None => tabs,
    }
}

/// Planning a target the ordinary way, through `spec_plan_target`.
pub open spec fn plan_general(target: LayoutTargetView, snap: SnapshotView, st: PlanState) -> Result<
    PlanState,
    Seq<char>,
> {
    let (res, ids) = spec_plan_target(target, st.tabs, snap.panes, snap.processes, st.assigned);
    match res {
        Ok(op) => Ok(PlanState { tabs: st.tabs, assigned: ids, ops: st.ops.push(op) }),
        Err(e) => Err(e),
    }
}

/// Planning the target at index `i`. The first target of a layout that may use the current
/// tab renames the current tab when the current pane already runs it; when the current pane
/// is idle, the target goes to the pane ordinary planning finds, and only when ordinary
/// planning would create a tab does the current tab take it over.
pub open spec fn plan_step(layout: LayoutView, snap: SnapshotView, i: int, st: PlanState) -> Result<
    PlanState,
    Seq<char>,
> {
    let target = layout.tabs[i];
    if i == 0 && layout.first_uses_current_tab && snap.current_pane is Some {
        let cur = snap.current_pane->0;
        if spec_is_target_running(cur, target, snap.processes) {
            Ok(
                PlanState {
                    tabs: rename_tab(st.tabs, cur.tab_id, target.label),
                    assigned: st.assigned.insert(cur.pane_id),
                    ops: st.ops.push(
                        OperationView::RenameCurrent { target, pane_id: cur.pane_id, tab_id: cur.tab_id },
                    ),
                },
            )
        } else if spec_is_idle(cur, snap.processes) {
            let (res, ids) = spec_plan_target(target, st.tabs, snap.panes, snap.processes, st.assigned);
            match res {
                Ok(op) => if op is CreateTab {
                    Ok(
                        PlanState {
                            tabs: rename_tab(st.tabs, cur.tab_id, target.label),
                            assigned: ids.insert(cur.pane_id),
                            ops: st.ops.push(
                                OperationView::ClaimCurrent {
                                    target,
                                    pane_id: cur.pane_id,
                                    tab_id: cur.tab_id,
                                },
                            ),
                        },
                    )
                } else {
                    Ok(PlanState { tabs: st.tabs, assigned: ids, ops: st.ops.push(op) })
                },
                Err(e) => Err(e),
            }
        } else {
            plan_general(target, snap, st)
        }
    } else {
        plan_general(target, snap, st)
    }
}

/// Planning the first `n` targets, starting from the snapshot's tabs and nothing assigned;
/// the first error stops planning.
pub open spec fn plan_prefix(layout: LayoutView, snap: SnapshotView, n: nat) -> Result<
    PlanState,
    Seq<char>,
>
    decreases n,
{
    if n == 0 {
        Ok(PlanState { tabs: snap.tabs, assigned: Set::empty(), ops: Seq::empty() })
    } else {
        match plan_prefix(layout, snap, (n - 1) as nat) {
            Ok(st) => plan_step(layout, snap, n - 1, st),
            Err(e) => Err(e),
        }
    }
}

/// The operations that apply `layout`, one per target, or the first planning error.
pub open spec fn spec_plan_layout(layout: LayoutView, snap: SnapshotView) -> Result<
    Seq<OperationView>,
    Seq<char>,
> {
    match plan_prefix(layout, snap, layout.tabs.len()) {
        Ok(st) => Ok(st.ops),
        Err(e) => Err(e),
    }
}

/// Once planning fails, it stays failed with the same error.
pub proof fn lemma_plan_prefix_error(layout: LayoutView, snap: SnapshotView, n: nat, m: nat, e: Seq<char>)
    requires
        n <= m,
        plan_prefix(layout, snap, n) == Err::<PlanState, Seq<char>>(e),
    ensures
        plan_prefix(layout, snap, m) == Err::<PlanState, Seq<char>>(e),
    decreases m,
{
    if m > n {
        lemma_plan_prefix_error(layout, snap, n, (m - 1) as nat, e);
    }
}

/// Relabels the first tab whose id is `tab_id`.
fn rename_first(tabs: &mut Vec<TabInfo>, tab_id: &str, label: &String)
    ensures
        final(tabs).deep_view() == rename_tab(old(tabs).deep_view(), tab_id@, label@),
{
    let ghost pred = |t: TabInfoView| t.tab_id == tab_id@;
    let mut k: usize = 0;
    while k < tabs.len()
        invariant
            k <= tabs@.len(),
            tabs@ == old(tabs)@,
            pred == (|t: TabInfoView| t.tab_id == tab_id@),
            forall|j: int| 0 <= j < k ==> !pred(#[trigger] tabs.deep_view()[j]),
        decreases tabs.len() - k,
    {
        if str_eq(tabs[k].tab_id.as_str(), tab_id) {
            proof {
                assert(tabs.deep_view()[k as int] == tabs@[k as int]@);
                lemma_first_index_at(tabs.deep_view(), pred, k as int);
            }
            let ghost before = tabs.deep_view();
            let renamed = TabInfo {
                tab_id: tabs[k].tab_id.clone(),
                workspace_id: tabs[k].workspace_id.clone(),
                label: label.clone(),
                focused: tabs[k].focused,
            };
            tabs.set(k, renamed);
            proof {
                assert(tabs.deep_view() =~= rename_tab(before, tab_id@, label@));
            }
            return;
        }
        k = k + 1;
    }
    proof {
        lemma_first_index_none(tabs.deep_view(), pred);
    }
}

/// Plans the target at `index` onto the current state (see `plan_step`).
fn plan_one(
    layout: &Layout,
    snapshot: &Snapshot,
    index: usize,
    tabs: &mut Vec<TabInfo>,
    assigned: &mut Vec<String>,
    operations: &mut Vec<Operation>,
) -> (r: Result<(), String>)
    requires
        index < layout.tabs@.len(),
    ensures
        ({
            let st = PlanState {
                tabs: old(tabs).deep_view(),
                assigned: id_set(old(assigned)@),
                ops: old(operations).deep_view(),
            };
            match r {
                Ok(()) => plan_step(layout@, snapshot@, index as int, st) == Ok::<PlanState, Seq<char>>(
                    PlanState {
                        tabs: final(tabs).deep_view(),
                        assigned: id_set(final(assigned)@),
                        ops: final(operations).deep_view(),
                    },
                ),
                Err(e) => plan_step(layout@, snapshot@, index as int, st) == Err::<PlanState, Seq<char>>(e@),
            }
        }),
{
    let target = &layout.tabs[index];
    assert(layout@.tabs[index as int] == target@);
    let ghost ops0 = operations.deep_view();
    if index == 0 && layout.first_uses_current_tab {
        match &snapshot.current_pane {
            Some(current) => {
                if is_target_running(current, target, &snapshot.processes) {
                    add_id(assigned, current.pane_id.clone());
                    rename_first(tabs, current.tab_id.as_str(), &target.label);
                    operations.push(
                        Operation::RenameCurrent {
                            target: target.clone(),
                            pane_id: current.pane_id.clone(),
                            tab_id: current.tab_id.clone(),
                        },
                    );
                    assert(operations.deep_view() =~= ops0.push(operations@.last()@));
                    return Ok(());
                }
                if is_idle(current, &snapshot.processes) {
                    match plan_target(target, tabs.as_slice(), snapshot.panes.as_slice(), &snapshot.processes, assigned) {
                        Ok(op) => {
                            let create = match &op {
                                Operation::CreateTab { .. } => true,
                                _ => false,
                            };
                            if !create {
                                operations.push(op);
                                assert(operations.deep_view() =~= ops0.push(operations@.last()@));
                                return Ok(());
                            }
                            add_id(assigned, current.pane_id.clone());
                            rename_first(tabs, current.tab_id.as_str(), &target.label);
                            operations.push(
                                Operation::ClaimCurrent {
                                    target: target.clone(),
                                    pane_id: current.pane_id.clone(),
                                    tab_id: current.tab_id.clone(),
                                },
                            );
                            assert(operations.deep_view() =~= ops0.push(operations@.last()@));
                            return Ok(());
                        },
                        Err(e) => {
                            return Err(e);
                        },
                    }
                }
            },
            None => {},
        }
    }
    match plan_target(target, tabs.as_slice(), snapshot.panes.as_slice(), &snapshot.processes, assigned) {
        Ok(op) => {
            operations.push(op);
            assert(operations.deep_view() =~= ops0.push(operations@.last()@));
            Ok(())
        },
        Err(e) => Err(e),
    }
}

/// The operations that apply `layout` to the workspace in `snapshot`
/// (see `spec_plan_layout`).
pub fn plan_layout(layout: &Layout, snapshot: &Snapshot) -> (r: Result<Vec<Operation>, String>)
    ensures
        match r {
            Ok(ops) => spec_plan_layout(layout@, snapshot@) == Ok::<Seq<OperationView>, Seq<char>>(
                ops.deep_view(),
            ),
            Err(e) => spec_plan_layout(layout@, snapshot@) == Err::<Seq<OperationView>, Seq<char>>(e@),
        },
{
    let mut tabs = snapshot.tabs.clone();
    assert(tabs.deep_view() =~= snapshot.tabs.deep_view());
    let mut assigned: Vec<String> = Vec::new();
    let mut operations: Vec<Operation> = Vec::new();
    assert(id_set(assigned@) =~= Set::<Seq<char>>::empty());
    assert(operations.deep_view() =~= Seq::<OperationView>::empty());
    let mut index: usize = 0;
    while index < layout.tabs.len()
        invariant
            index <= layout.tabs@.len(),
            plan_prefix(layout@, snapshot@, index as nat) == Ok::<PlanState, Seq<char>>(
                PlanState {
                    tabs: tabs.deep_view(),
                    assigned: id_set(assigned@),
                    ops: operations.deep_view(),
                },
            ),
        decreases layout.tabs.len() - index,
    {
        match plan_one(layout, snapshot, index, &mut tabs, &mut assigned, &mut operations) {
            Ok(()) => {},
            Err(e) => {
                proof {
                    lemma_plan_prefix_error(
                        layout@,
                        snapshot@,
                        (index + 1) as nat,
                        layout@.tabs.len(),
                        e@,
                    );
                }
                return Err(e);
            },
        }
        index = index + 1;
    }
    Ok(operations)
}

} // verus!
