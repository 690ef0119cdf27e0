//! Properties of the library as a whole, proved over the specifications its functions meet.
use vstd::prelude::*;
use crate::config::{
    spec_find_repo_override, spec_parse_args, ModeView, OverrideProbeView, spec_read_config_text, yaml_parse,
    is_blank, is_slot, slots_prefix, spec_select_layout, spec_validate_config_root, spec_validate_layout,
    spec_validate_target, targets_prefix, as_mapping, map_get, YamlKey, Yaml,
};
use crate::search::{first_index, lemma_first_index};
use crate::response::{
    as_object, collect_all, collect_prefix, get_object, obj_get, spec_expect_result, spec_optional_json_string,
    spec_parse_pane_info,
    spec_parse_tab_info, Json,
};
use crate::text::{contains_seq, first_word, is_ws, trim, trim_start};
use crate::names::{
    foreground_of, index_of_or_len, is_path_sep, is_quote, last_segment, process_label, spec_command_name,
    spec_is_idle, spec_is_target_running, spec_name_leaf, spec_normalize_name, spec_strip_exe, trim_end_quotes,
    trim_start_quotes,
};
use crate::herdr::{
    non_empty, pick_in, process_map_prefix, spec_pick_string, spec_read_plugin_context, spec_assemble_snapshot,
    spec_attempt_outcome, spec_operation_calls, spec_spawn_failure, HerdrCallView,
    HerdrOutcomeView, PluginContextView, HERDR_RETRIES,
};
use crate::model::{LayoutTargetView, LayoutView, OperationView, PaneInfoView, PaneProcessInfoView, SnapshotView, TabInfoView};
use crate::plan::{
    pane_ok, pane_pick, plan_prefix, rename_tab, plan_step, spec_plan_layout,
    spec_plan_target, tab_pick, PlanState,
};

verus! {

/// Selecting a slot from the global layouts merged with a repo override gives what selecting
/// it with the override in front of the global layouts gives: an override slot replaces the
/// whole global slot, and the other slots still come from the global layouts.
pub proof fn law_override_replaces_whole_slot(
    global: Map<Seq<char>, LayoutView>,
    over: Map<Seq<char>, LayoutView>,
    slot: Seq<char>,
)
    ensures
        spec_select_layout(global.union_prefer_right(over), Map::empty(), slot) == spec_select_layout(
            global,
            over,
            slot,
        ),
        over.contains_key(slot) ==> spec_select_layout(global, over, slot) == Ok::<LayoutView, Seq<char>>(
            over[slot],
        ),
        !over.contains_key(slot) ==> spec_select_layout(global, over, slot) == spec_select_layout(
            global,
            Map::empty(),
            slot,
        ),
{
}

/// A valid tab target: its label and command are not blank.
pub open spec fn target_well_formed(t: LayoutTargetView) -> bool {
    !is_blank(t.label) && !is_blank(t.command)
}

/// A valid layout: at least one target, every target valid, no label used twice.
pub open spec fn layout_well_formed(l: LayoutView) -> bool {
    &&& l.tabs.len() > 0
    &&& forall|i: int| 0 <= i < l.tabs.len() ==> target_well_formed(#[trigger] l.tabs[i])
    &&& forall|i: int, j: int|
        0 <= i < l.tabs.len() && 0 <= j < l.tabs.len() && i != j ==> #[trigger] l.tabs[i].label
            != #[trigger] l.tabs[j].label
}

/// `p` is where `s` starts.
pub open spec fn starts_with(s: Seq<char>, p: Seq<char>) -> bool {
    p.len() <= s.len() && s.take(p.len() as int) == p
}

proof fn lemma_starts_with_concat(p: Seq<char>, x: Seq<char>)
    ensures
        starts_with(p + x, p),
{
    assert((p + x).take(p.len() as int) =~= p);
}

proof fn lemma_starts_with_trans(a: Seq<char>, b: Seq<char>, c: Seq<char>)
    requires
        starts_with(b, a),
        starts_with(c, b),
    ensures
        starts_with(c, a),
{
    assert(c.take(a.len() as int) =~= c.take(b.len() as int).take(a.len() as int));
}

proof fn lemma_target(raw: Yaml, path: Seq<char>)
    ensures
        spec_validate_target(raw, path) matches Ok(t) ==> target_well_formed(t),
        spec_validate_target(raw, path) matches Err(e) ==> starts_with(e, path),
{
    lemma_starts_with_concat(path, " must be a map"@);
    lemma_starts_with_concat(path, ".label must be a non-empty string"@);
    lemma_starts_with_concat(path, ".command must be a non-empty string"@);
}

proof fn lemma_targets_prefix(items: Seq<Yaml>, path: Seq<char>, n: nat)
    requires
        n <= items.len(),
    ensures
        targets_prefix(items, path, n) matches Ok(ts) ==> {
            &&& ts.len() == n
            &&& forall|i: int| 0 <= i < ts.len() ==> target_well_formed(#[trigger] ts[i])
            &&& forall|i: int|
                0 <= i < ts.len() ==> spec_validate_target(items[i], crate::config::target_path(path, i as nat))
                    == Ok::<LayoutTargetView, Seq<char>>(#[trigger] ts[i])
            &&& forall|i: int, j: int|
                0 <= i < ts.len() && 0 <= j < ts.len() && i != j ==> #[trigger] ts[i].label
                    != #[trigger] ts[j].label
        },
        targets_prefix(items, path, n) matches Err(e) ==> starts_with(e, path),
    decreases n,
{
    if n > 0 {
        let tp = crate::config::target_path(path, (n - 1) as nat);
        lemma_targets_prefix(items, path, (n - 1) as nat);
        lemma_target(items[n - 1], tp);
        assert(tp == path + (".tabs["@ + crate::text::decimal((n - 1) as nat) + "]"@));
        lemma_starts_with_concat(path, ".tabs["@ + crate::text::decimal((n - 1) as nat) + "]"@);
        if let Err(e) = spec_validate_target(items[n - 1], tp) {
            lemma_starts_with_trans(path, tp, e);
        }
        if let Ok(t) = spec_validate_target(items[n - 1], tp) {
            assert(path + ": duplicate tab label "@ + t.label == path + (": duplicate tab label "@ + t.label));
            lemma_starts_with_concat(path, ": duplicate tab label "@ + t.label);
        }
        if let Ok(ts) = targets_prefix(items, path, n) {
            let prev = targets_prefix(items, path, (n - 1) as nat)->Ok_0;
            let t = ts.last();
            assert(ts == prev.push(t));
            assert(!(exists|j: int| 0 <= j < prev.len() && #[trigger] prev[j].label == t.label));
            assert forall|i: int, j: int|
                0 <= i < ts.len() && 0 <= j < ts.len() && i != j implies #[trigger] ts[i].label
                != #[trigger] ts[j].label by {
                if i == n - 1 {
                    assert(prev[j].label != t.label);
                } else if j == n - 1 {
                    assert(prev[i].label != t.label);
                } else {
                    assert(prev[i].label != prev[j].label);
                }
            }
            assert forall|i: int| 0 <= i < ts.len() implies target_well_formed(#[trigger] ts[i]) by {
                if i < n - 1 {
                    assert(ts[i] == prev[i]);
                }
            }
            assert forall|i: int| 0 <= i < ts.len() implies spec_validate_target(
                items[i],
                crate::config::target_path(path, i as nat),
            ) == Ok::<LayoutTargetView, Seq<char>>(#[trigger] ts[i]) by {
                if i < n - 1 {
                    assert(ts[i] == prev[i]);
                }
            }
        }
    }
}

/// The items of a layout's `tabs` member, when it is a list.
pub open spec fn layout_items(raw: Yaml) -> Seq<Yaml> {
    match as_mapping(raw) {
        Some(m) => match map_get(m, "tabs"@) {
            Some(v) => match crate::config::as_sequence(v) {
                Some(items) => items,
                None => Seq::empty(),
            },
            None => Seq::empty(),
        },
        None => Seq::empty(),
    }
}

/// A layout's `firstUsesCurrentTab` member is the boolean true.
pub open spec fn first_flag(raw: Yaml) -> bool {
    match as_mapping(raw) {
        Some(m) => map_get(m, "firstUsesCurrentTab"@) == Some(Yaml::Bool(true)),
        None => false,
    }
}

/// A layout is what the YAML layout `raw` at `path` says: well formed, its targets in the order
/// of the YAML list, each the validation of the item at its place, and using the current tab
/// exactly when `firstUsesCurrentTab` is true (absent meaning false).
pub open spec fn layout_follows_yaml(raw: Yaml, path: Seq<char>, l: LayoutView) -> bool {
    &&& layout_well_formed(l)
    &&& l.first_uses_current_tab == first_flag(raw)
    &&& l.tabs.len() == layout_items(raw).len()
    &&& forall|i: int|
        0 <= i < l.tabs.len() ==> spec_validate_target(
            layout_items(raw)[i],
            crate::config::target_path(path, i as nat),
        ) == Ok::<LayoutTargetView, Seq<char>>(#[trigger] l.tabs[i])
}

/// Every layout that validation accepts is well formed, holds its targets in the order of the
/// YAML list, each the validation of the item at its place, and uses the current tab exactly
/// when `firstUsesCurrentTab` is true (absent meaning false); every refusal begins with the
/// layout's place.
pub proof fn law_validated_layout(raw: Yaml, path: Seq<char>)
    ensures
        spec_validate_layout(raw, path) matches Ok(l) ==> layout_follows_yaml(raw, path, l),
        spec_validate_layout(raw, path) matches Err(e) ==> starts_with(e, path),
{
    lemma_starts_with_concat(path, " must be a map"@);
    lemma_starts_with_concat(path, ".firstUsesCurrentTab must be boolean"@);
    lemma_starts_with_concat(path, ".tabs must be a non-empty list"@);
    if let Some(m) = as_mapping(raw) {
        let items = match map_get(m, "tabs"@) {
            Some(v) => crate::config::as_sequence(v),
            None => None,
        };
        if let Some(items) = items {
            lemma_targets_prefix(items, path, items.len());
        }
    }
}

proof fn lemma_slots_prefix(entries: Seq<(YamlKey, Yaml)>, source: Seq<char>, n: nat)
    requires
        n <= entries.len(),
    ensures
        slots_prefix(entries, source, n) matches Ok(m) ==> forall|k: Seq<char>|
            #[trigger] m.contains_key(k) ==> is_slot(k) && slot_from_entry(entries, n as int, source, k, m[k]),
        slots_prefix(entries, source, n) matches Err(e) ==> starts_with(e, source),
    decreases n,
{
    if n > 0 {
        lemma_slots_prefix(entries, source, (n - 1) as nat);
        let slot = crate::config::spec_key_text(entries[n - 1].0);
        let lp = source + ": layouts."@ + slot;
        law_validated_layout(entries[n - 1].1, lp);
        assert(lp == source + (": layouts."@ + slot));
        lemma_starts_with_concat(source, ": layouts."@ + slot);
        if let Err(e) = spec_validate_layout(entries[n - 1].1, lp) {
            lemma_starts_with_trans(source, lp, e);
        }
        assert(source + ": invalid layout slot "@ + slot == source + (": invalid layout slot "@ + slot));
        lemma_starts_with_concat(source, ": invalid layout slot "@ + slot);
        if let Ok(m) = slots_prefix(entries, source, n) {
            let prev = slots_prefix(entries, source, (n - 1) as nat)->Ok_0;
            let layout = spec_validate_layout(entries[n - 1].1, lp)->Ok_0;
            assert(m == prev.insert(slot, layout));
            assert forall|k: Seq<char>| #[trigger] m.contains_key(k) implies is_slot(k) && slot_from_entry(
                entries,
                n as int,
                source,
                k,
                m[k],
            ) by {
                if k == slot {
                    assert(crate::config::spec_key_text(entries[n - 1].0) == k);
                } else {
                    assert(prev.contains_key(k));
                    let j = choose|j: int|
                        0 <= j < n - 1 && #[trigger] crate::config::spec_key_text(entries[j].0) == k
                            && layout_follows_yaml(entries[j].1, source + ": layouts."@ + k, prev[k]);
                    assert(crate::config::spec_key_text(entries[j].0) == k);
                }
            }
        }
    }
}

/// Among the first `n` entries, one keyed `k` holds a YAML layout that `l` follows.
pub open spec fn slot_from_entry(entries: Seq<(YamlKey, Yaml)>, n: int, source: Seq<char>, k: Seq<char>, l: LayoutView) -> bool {
    exists|j: int|
        0 <= j < n && #[trigger] crate::config::spec_key_text(entries[j].0) == k && layout_follows_yaml(
            entries[j].1,
            source + ": layouts."@ + k,
            l,
        )
}

/// The entries of a configuration file's `layouts` map.
pub open spec fn config_entries(raw: Yaml) -> Seq<(YamlKey, Yaml)> {
    match as_mapping(raw) {
        Some(root) => match map_get(root, "layouts"@) {
            Some(v) => match as_mapping(v) {
                Some(entries) => entries,
                None => Seq::empty(),
            },
            None => Seq::empty(),
        },
        None => Seq::empty(),
    }
}

/// A configuration file that validation accepts maps only the slots `1`, `2`, `3`, each to the
/// layout that an entry of its `layouts` map with that key says (well formed, targets in YAML
/// order, the `firstUsesCurrentTab` flag as written); every refusal begins with the file's name.
pub proof fn law_config_keys_are_slots(raw: Yaml, source: Seq<char>)
    ensures
        spec_validate_config_root(raw, source) matches Ok(m) ==> forall|k: Seq<char>|
            #[trigger] m.contains_key(k) ==> is_slot(k) && slot_from_entry(
                config_entries(raw),
                config_entries(raw).len() as int,
                source,
                k,
                m[k],
            ),
        spec_validate_config_root(raw, source) matches Err(e) ==> starts_with(e, source),
{
    lemma_starts_with_concat(source, ": YAML root must be a map"@);
    lemma_starts_with_concat(source, ": layouts must be a map"@);
    if let Some(root) = as_mapping(raw) {
        let layouts = match map_get(root, "layouts"@) {
            Some(v) => as_mapping(v),
            None => None,
        };
        if let Some(entries) = layouts {
            lemma_slots_prefix(entries, source, entries.len());
        }
    }
}

/// Reading a configuration file's text: what it accepts maps only the slots, each to a
/// well-formed layout, and every refusal, a parse error too, begins with the file's path.
pub proof fn law_config_text(text: Seq<char>, path: Seq<char>)
    ensures
        spec_read_config_text(text, path) matches Ok(m) ==> forall|k: Seq<char>|
            #[trigger] m.contains_key(k) ==> is_slot(k) && layout_well_formed(m[k]),
        spec_read_config_text(text, path) matches Err(e) ==> starts_with(e, path),
{
    if let Err(e) = yaml_parse(text) {
        assert(path + ": "@ + e == path + (": "@ + e));
        lemma_starts_with_concat(path, ": "@ + e);
    }
    if let Ok(raw) = yaml_parse(text) {
        law_config_keys_are_slots(raw, path);
        if let Ok(m) = spec_validate_config_root(raw, path) {
            assert forall|k: Seq<char>| #[trigger] m.contains_key(k) implies is_slot(k) && layout_well_formed(m[k]) by {
                let es = config_entries(raw);
                let j = choose|j: int|
                    0 <= j < es.len() && #[trigger] crate::config::spec_key_text(es[j].0) == k
                        && layout_follows_yaml(es[j].1, path + ": layouts."@ + k, m[k]);
            }
        }
    }
}

/// The label of the target an operation is for.
pub open spec fn op_label(op: OperationView) -> Seq<char> {
    match op {
        OperationView::AlreadyRunning { label, .. } => label,
        OperationView::RunExisting { target, .. } => target.label,
        OperationView::RenameCurrent { target, .. } => target.label,
        OperationView::ClaimCurrent { target, .. } => target.label,
        OperationView::CreateTab { target } => target.label,
    }
}

/// The pane an operation uses, if it uses an existing one.
pub open spec fn op_pane(op: OperationView) -> Option<Seq<char>> {
    match op {
        OperationView::AlreadyRunning { pane_id, .. } => Some(pane_id),
        OperationView::RunExisting { pane_id, .. } => Some(pane_id),
        OperationView::RenameCurrent { pane_id, .. } => Some(pane_id),
        OperationView::ClaimCurrent { pane_id, .. } => Some(pane_id),
        OperationView::CreateTab { .. } => None,
    }
}

/// An operation that takes over the current tab.
pub open spec fn uses_current(op: OperationView) -> bool {
    op is RenameCurrent || op is ClaimCurrent
}

/// An operation that puts its target in an existing pane it did not take over.
pub open spec fn uses_existing_pane(op: OperationView) -> bool {
    op is AlreadyRunning || op is RunExisting
}

/// The pane such an operation uses.
pub open spec fn used_pane_id(op: OperationView) -> Seq<char> {
    match op {
        OperationView::AlreadyRunning { pane_id, .. } => pane_id,
        OperationView::RunExisting { pane_id, .. } => pane_id,
        _ => Seq::empty(),
    }
}

/// The tab of the pane such an operation uses.
pub open spec fn used_tab_id(op: OperationView) -> Seq<char> {
    match op {
        OperationView::AlreadyRunning { tab_id, .. } => tab_id,
        OperationView::RunExisting { tab_id, .. } => tab_id,
        _ => Seq::empty(),
    }
}

/// Some pane of `panes` has this id and lies in this tab.
pub open spec fn pane_in(panes: Seq<PaneInfoView>, pane_id: Seq<char>, tab_id: Seq<char>) -> bool {
    exists|p: int| 0 <= p < panes.len() && #[trigger] panes[p].pane_id == pane_id && panes[p].tab_id == tab_id
}

/// Some tab of `tabs` has this id and this label.
pub open spec fn labelled_tab_in(tabs: Seq<TabInfoView>, tab_id: Seq<char>, label: Seq<char>) -> bool {
    exists|t: int| 0 <= t < tabs.len() && #[trigger] tabs[t].tab_id == tab_id && tabs[t].label == label
}

/// What planning one target yields: a new tab for it, or a pane that was free, which then
/// counts as assigned.
pub proof fn lemma_plan_target_shape(
    target: LayoutTargetView,
    tabs: Seq<TabInfoView>,
    panes: Seq<PaneInfoView>,
    procs: Map<Seq<char>, PaneProcessInfoView>,
    assigned: Set<Seq<char>>,
)
    ensures
        ({
            let (res, ids) = spec_plan_target(target, tabs, panes, procs, assigned);
            res matches Ok(op) ==> {
                &&& op_label(op) == target.label
                &&& !uses_current(op)
                &&& (op is AlreadyRunning || op is CreateTab)
                &&& uses_existing_pane(op) ==> pane_in(panes, used_pane_id(op), used_tab_id(op))
                    && labelled_tab_in(tabs, used_tab_id(op), target.label)
                &&& match op_pane(op) {
                    Some(p) => !assigned.contains(p) && ids == assigned.insert(p),
                    None => ids == assigned,
                }
            }
        }),
{
    let running = pane_ok(target, procs, assigned, true);
    let free = pane_ok(target, procs, assigned, false);
    if exists|i: int| 0 <= i < tabs.len() && #[trigger] tabs[i].label == target.label {
        let tp_r = |t: TabInfoView| t.label == target.label && pane_pick(panes, t.tab_id, running) is Some;
        let tp_f = |t: TabInfoView| t.label == target.label && pane_pick(panes, t.tab_id, free) is Some;
        lemma_first_index(tabs, tp_r);
        lemma_first_index(tabs, tp_f);
        match tab_pick(tabs, panes, target.label, running) {
            Some(ti) => {
                lemma_first_index(panes, |p: PaneInfoView| p.tab_id == tabs[ti].tab_id && running(p));
                let pi = pane_pick(panes, tabs[ti].tab_id, running)->0;
                assert(panes[pi].tab_id == tabs[ti].tab_id);
                assert(tabs[ti].label == target.label);
            },
            None => {
                if let Some(ti) = tab_pick(tabs, panes, target.label, free) {
                    lemma_first_index(panes, |p: PaneInfoView| p.tab_id == tabs[ti].tab_id && free(p));
                    let pi = pane_pick(panes, tabs[ti].tab_id, free)->0;
                    assert(panes[pi].tab_id == tabs[ti].tab_id);
                    assert(tabs[ti].label == target.label);
                }
            },
        }
    }
}

/// What holds of the operations planned for the first `n` targets.
pub open spec fn plan_invariant(layout: LayoutView, st: PlanState, n: int) -> bool {
    &&& st.ops.len() == n
    &&& forall|i: int| 0 <= i < n ==> op_label(#[trigger] st.ops[i]) == layout.tabs[i].label
    &&& forall|i: int|
        0 <= i < n && uses_current(#[trigger] st.ops[i]) ==> i == 0 && layout.first_uses_current_tab
    &&& forall|i: int| #![trigger st.ops[i]] 0 <= i < n && op_pane(st.ops[i]) is Some ==> st.assigned.contains(
        op_pane(st.ops[i])->0,
    )
    &&& forall|i: int, j: int|
        0 <= i < n && 0 <= j < n && i != j && op_pane(#[trigger] st.ops[i]) is Some ==> op_pane(st.ops[i])
            != op_pane(#[trigger] st.ops[j])
}

proof fn lemma_plan_prefix_invariant(layout: LayoutView, snap: SnapshotView, n: nat)
    requires
        n <= layout.tabs.len(),
    ensures
        plan_prefix(layout, snap, n) matches Ok(st) ==> plan_invariant(layout, st, n as int),
    decreases n,
{
    if n > 0 {
        let k = (n - 1) as nat;
        lemma_plan_prefix_invariant(layout, snap, k);
        if let Ok(st) = plan_prefix(layout, snap, k) {
            let target = layout.tabs[k as int];
            lemma_plan_target_shape(target, st.tabs, snap.panes, snap.processes, st.assigned);
            if let Ok(next) = plan_step(layout, snap, k as int, st) {
                let op = next.ops.last();
                assert(next.ops == st.ops.push(op));
                assert(op_label(op) == target.label);
                assert(op_pane(op) matches Some(p) ==> !st.assigned.contains(p) || k == 0);
                assert(uses_current(op) ==> k == 0 && layout.first_uses_current_tab);
                assert(st.assigned.subset_of(next.assigned));
                assert(op_pane(op) matches Some(p) ==> next.assigned.contains(p));
                assert forall|i: int| 0 <= i < n implies op_label(#[trigger] next.ops[i]) == layout.tabs[i].label by {
                    if i < k {
                        assert(next.ops[i] == st.ops[i]);
                    }
                }
                assert forall|i: int|
                    0 <= i < n && uses_current(#[trigger] next.ops[i]) implies i == 0
                    && layout.first_uses_current_tab by {
                    if i < k {
                        assert(next.ops[i] == st.ops[i]);
                    }
                }
                assert forall|i: int| #![trigger next.ops[i]]
                    0 <= i < n && op_pane(next.ops[i]) is Some implies next.assigned.contains(
                    op_pane(next.ops[i])->0,
                ) by {
                    if i < k {
                        assert(next.ops[i] == st.ops[i]);
                    }
                }
                assert forall|i: int, j: int|
                    0 <= i < n && 0 <= j < n && i != j && op_pane(#[trigger] next.ops[i]) is Some implies op_pane(
                    next.ops[i],
                ) != op_pane(#[trigger] next.ops[j]) by {
                    if i < k && j < k {
                        assert(next.ops[i] == st.ops[i]);
                        assert(next.ops[j] == st.ops[j]);
                    } else if i == k {
                        if j < k {
                            assert(next.ops[j] == st.ops[j]);
                            if op_pane(st.ops[j]) is Some {
                                assert(st.assigned.contains(op_pane(st.ops[j])->0));
                            }
                        }
                    } else {
                        assert(next.ops[i] == st.ops[i]);
                        assert(st.assigned.contains(op_pane(st.ops[i])->0));
                    }
                }
            }
        }
    }
}

/// A successful plan has one operation per target, in the layout's order and for that
/// target; only the first target, and only when the layout allows it, takes over the
/// current tab; and no pane is used by two operations.
pub proof fn law_plan_follows_layout(layout: LayoutView, snap: SnapshotView)
    ensures
        spec_plan_layout(layout, snap) matches Ok(ops) ==> {
            &&& ops.len() == layout.tabs.len()
            &&& forall|i: int| 0 <= i < ops.len() ==> op_label(#[trigger] ops[i]) == layout.tabs[i].label
            &&& forall|i: int|
                0 <= i < ops.len() && uses_current(#[trigger] ops[i]) ==> i == 0
                    && layout.first_uses_current_tab
            &&& forall|i: int, j: int|
                0 <= i < ops.len() && 0 <= j < ops.len() && i != j && op_pane(#[trigger] ops[i]) is Some
                    ==> op_pane(ops[i]) != op_pane(#[trigger] ops[j])
        },
{
    lemma_plan_prefix_invariant(layout, snap, layout.tabs.len());
}

/// A `herdr` invocation is attempted at most `HERDR_RETRIES + 1` times: once the retries are
/// spent, no outcome asks for another.
pub proof fn law_retries_bounded(
    command: Seq<char>,
    attempt: int,
    success: bool,
    exit_code: Option<i32>,
    expect_json: bool,
    stdout: Seq<char>,
    stderr: Seq<char>,
    error: Seq<char>,
)
    requires
        attempt >= HERDR_RETRIES,
    ensures
        !(spec_attempt_outcome(command, attempt, success, exit_code, expect_json, stdout, stderr) is Retry),
        !(spec_spawn_failure(command, error, attempt) is Retry),
{
}

/// Renaming a tab keeps every tab's id and changes at most labels, to the new label.
proof fn lemma_rename_tab(tabs: Seq<TabInfoView>, tab_id: Seq<char>, label: Seq<char>)
    ensures
        rename_tab(tabs, tab_id, label).len() == tabs.len(),
        forall|k: int|
            0 <= k < tabs.len() ==> #[trigger] rename_tab(tabs, tab_id, label)[k].tab_id == tabs[k].tab_id && (
            rename_tab(tabs, tab_id, label)[k].label == tabs[k].label || rename_tab(tabs, tab_id, label)[k].label
                == label),
{
    lemma_first_index(tabs, |t: TabInfoView| t.tab_id == tab_id);
}

/// The labels of a layout's targets are pairwise distinct.
pub open spec fn labels_distinct(layout: LayoutView) -> bool {
    forall|i: int, j: int|
        0 <= i < layout.tabs.len() && 0 <= j < layout.tabs.len() && i != j ==> #[trigger] layout.tabs[i].label
            != #[trigger] layout.tabs[j].label
}

/// The planning state's tabs are the snapshot's, with only the first target's label given to
/// some once the first target is planned; every existing pane used lies, in the snapshot, in
/// a tab labelled like its target.
pub open spec fn provenance(layout: LayoutView, snap: SnapshotView, st: PlanState, n: int) -> bool {
    &&& st.tabs.len() == snap.tabs.len()
    &&& forall|k: int|
        0 <= k < st.tabs.len() ==> #[trigger] st.tabs[k].tab_id == snap.tabs[k].tab_id && (st.tabs[k].label
            == snap.tabs[k].label || (n > 0 && st.tabs[k].label == layout.tabs[0].label))
    &&& forall|i: int|
        0 <= i < st.ops.len() && #[trigger] uses_existing_pane(st.ops[i]) ==> pane_in(snap.panes, used_pane_id(st.ops[i]), used_tab_id(st.ops[i]))
            && labelled_tab_in(snap.tabs, used_tab_id(st.ops[i]), layout.tabs[i].label)
}

proof fn lemma_plan_prefix_provenance(layout: LayoutView, snap: SnapshotView, n: nat)
    requires
        n <= layout.tabs.len(),
        labels_distinct(layout),
    ensures
        plan_prefix(layout, snap, n) matches Ok(st) ==> provenance(layout, snap, st, n as int),
    decreases n,
{
    if n > 0 {
        let k = (n - 1) as nat;
        lemma_plan_prefix_provenance(layout, snap, k);
        lemma_plan_prefix_invariant(layout, snap, k);
        if let Ok(st) = plan_prefix(layout, snap, k) {
            let target = layout.tabs[k as int];
            lemma_plan_target_shape(target, st.tabs, snap.panes, snap.processes, st.assigned);
            if let Ok(next) = plan_step(layout, snap, k as int, st) {
                let op = next.ops.last();
                assert(next.ops == st.ops.push(op));
                if let Some(cur) = snap.current_pane {
                    lemma_rename_tab(st.tabs, cur.tab_id, target.label);
                }
                assert(next.tabs.len() == snap.tabs.len());
                assert forall|q: int| 0 <= q < next.tabs.len() implies #[trigger] next.tabs[q].tab_id
                    == snap.tabs[q].tab_id && (next.tabs[q].label == snap.tabs[q].label || (n > 0
                    && next.tabs[q].label == layout.tabs[0].label)) by {
                    assert(st.tabs[q].tab_id == snap.tabs[q].tab_id);
                }
                if uses_existing_pane(op) {
                    let tab_id = used_tab_id(op);
                    let t = choose|t: int| 0 <= t < st.tabs.len() && #[trigger] st.tabs[t].tab_id == tab_id
                        && st.tabs[t].label == target.label;
                    assert(st.tabs[t].tab_id == snap.tabs[t].tab_id);
                    if st.tabs[t].label != snap.tabs[t].label {
                        assert(k > 0 && st.tabs[t].label == layout.tabs[0].label);
                        assert(layout.tabs[k as int].label != layout.tabs[0].label);
                    }
                    assert(snap.tabs[t].tab_id == tab_id && snap.tabs[t].label == layout.tabs[k as int].label);
                }
                assert forall|i: int|
                    0 <= i < next.ops.len() && #[trigger] uses_existing_pane(next.ops[i]) implies pane_in(
                    snap.panes,
                    used_pane_id(next.ops[i]),
                    used_tab_id(next.ops[i]),
                ) && labelled_tab_in(snap.tabs, used_tab_id(next.ops[i]), layout.tabs[i].label) by {
                    if i < k {
                        assert(next.ops[i] == st.ops[i]);
                    }
                }
            }
        }
    }
}

/// For a layout whose labels are distinct, every existing pane a successful plan uses
/// (already running the target, or running it anew) is a pane of the snapshot, in a tab of
/// the snapshot that carries the target's label.
pub proof fn law_plan_uses_labelled_tabs(layout: LayoutView, snap: SnapshotView)
    requires
        labels_distinct(layout),
    ensures
        spec_plan_layout(layout, snap) matches Ok(ops) ==> forall|i: int|
            0 <= i < ops.len() && #[trigger] uses_existing_pane(ops[i]) ==> pane_in(snap.panes, used_pane_id(ops[i]), used_tab_id(ops[i]))
                && labelled_tab_in(snap.tabs, used_tab_id(ops[i]), layout.tabs[i].label),
{
    lemma_plan_prefix_provenance(layout, snap, layout.tabs.len());
}

proof fn lemma_last_segment(s: Seq<char>)
    ensures
        forall|i: int| 0 <= i < last_segment(s).len() ==> !is_path_sep(#[trigger] last_segment(s)[i]),
    decreases s.len(),
{
    if s.len() > 0 && !is_path_sep(s.last()) {
        lemma_last_segment(s.drop_last());
        let r = last_segment(s);
        assert forall|i: int| 0 <= i < r.len() implies !is_path_sep(#[trigger] r[i]) by {
            if i < r.len() - 1 {
                assert(r[i] == last_segment(s.drop_last())[i]);
            }
        }
    }
}

/// The leaf that a program name is made from holds no `/` and no `\`.
pub proof fn law_name_leaf_has_no_separator(s: Seq<char>)
    ensures
        forall|i: int| 0 <= i < spec_name_leaf(s).len() ==> !is_path_sep(#[trigger] spec_name_leaf(s)[i]),
{
    lemma_last_segment(trim_end_quotes(trim_start_quotes(s)));
}

/// A pane runs a target exactly when its agent, or some foreground process of the pane at
/// any place in the list, has the program name of the target's command.
pub proof fn law_running_means_some_process_matches(
    pane: PaneInfoView,
    target: LayoutTargetView,
    procs: Map<Seq<char>, PaneProcessInfoView>,
)
    ensures
        spec_normalize_name(pane.agent) == spec_command_name(target.command) ==> spec_is_target_running(
            pane,
            target,
            procs,
        ),
        forall|i: int|
            procs.contains_key(pane.pane_id) && 0 <= i < procs[pane.pane_id].foreground_processes.len()
                && spec_normalize_name(process_label(#[trigger] procs[pane.pane_id].foreground_processes[i]))
                == spec_command_name(target.command) ==> spec_is_target_running(pane, target, procs),
        spec_is_target_running(pane, target, procs) ==> {
            ||| spec_normalize_name(pane.agent) == spec_command_name(target.command)
            ||| procs.contains_key(pane.pane_id) && exists|i: int|
                0 <= i < procs[pane.pane_id].foreground_processes.len() && spec_normalize_name(
                    process_label(#[trigger] procs[pane.pane_id].foreground_processes[i]),
                ) == spec_command_name(target.command)
        },
{
    assert forall|i: int|
        procs.contains_key(pane.pane_id) && 0 <= i < procs[pane.pane_id].foreground_processes.len()
            && spec_normalize_name(process_label(#[trigger] procs[pane.pane_id].foreground_processes[i]))
            == spec_command_name(target.command) implies spec_is_target_running(pane, target, procs) by {
        assert(foreground_of(pane, procs)[i] == procs[pane.pane_id].foreground_processes[i]);
    }
    if spec_is_target_running(pane, target, procs) && spec_normalize_name(pane.agent) != spec_command_name(
        target.command,
    ) {
        let i = choose|i: int|
            0 <= i < foreground_of(pane, procs).len() && spec_normalize_name(
                process_label(#[trigger] foreground_of(pane, procs)[i]),
            ) == spec_command_name(target.command);
        assert(procs.contains_key(pane.pane_id));
        assert(procs[pane.pane_id].foreground_processes[i] == foreground_of(pane, procs)[i]);
    }
}

/// A pane is idle exactly when it has foreground processes and every one of them is a shell:
/// pwsh, powershell, cmd, zsh, bash, fish, nu or sh. One foreground process of another name,
/// wherever it stands in the list, makes the pane not idle; so does having no processes.
pub proof fn law_idle_means_only_shells(pane: PaneInfoView, procs: Map<Seq<char>, PaneProcessInfoView>)
    ensures
        !procs.contains_key(pane.pane_id) ==> !spec_is_idle(pane, procs),
        procs.contains_key(pane.pane_id) && procs[pane.pane_id].foreground_processes.len() == 0 ==> !spec_is_idle(
            pane,
            procs,
        ),
        forall|i: int|
            procs.contains_key(pane.pane_id) && 0 <= i < procs[pane.pane_id].foreground_processes.len() && ({
                let n = spec_normalize_name(process_label(#[trigger] procs[pane.pane_id].foreground_processes[i]));
                n != "pwsh"@ && n != "powershell"@ && n != "cmd"@ && n != "zsh"@ && n != "bash"@ && n != "fish"@
                    && n != "nu"@ && n != "sh"@
            }) ==> !spec_is_idle(pane, procs),
        procs.contains_key(pane.pane_id) && procs[pane.pane_id].foreground_processes.len() > 0 && (forall|i: int|
            0 <= i < procs[pane.pane_id].foreground_processes.len() ==> {
                let n = spec_normalize_name(process_label(#[trigger] procs[pane.pane_id].foreground_processes[i]));
                n == "pwsh"@ || n == "powershell"@ || n == "cmd"@ || n == "zsh"@ || n == "bash"@ || n == "fish"@
                    || n == "nu"@ || n == "sh"@
            }) ==> spec_is_idle(pane, procs),
{
    assert forall|i: int|
        procs.contains_key(pane.pane_id) && 0 <= i < procs[pane.pane_id].foreground_processes.len() && ({
            let n = spec_normalize_name(process_label(#[trigger] procs[pane.pane_id].foreground_processes[i]));
            n != "pwsh"@ && n != "powershell"@ && n != "cmd"@ && n != "zsh"@ && n != "bash"@ && n != "fish"@
                && n != "nu"@ && n != "sh"@
        }) implies !spec_is_idle(pane, procs) by {
        assert(foreground_of(pane, procs)[i] == procs[pane.pane_id].foreground_processes[i]);
    }
}

/// Carrying out an operation: nothing for a target already running; `tab rename <tab> <label>`
/// for taking over the current tab where the target runs; that rename and then
/// `pane run <pane> <command>` for claiming the idle current pane; `pane run <pane> <command>`
/// for an idle pane elsewhere; and for a new tab, `tab create` (in the known workspace, in the
/// active directory, labelled, without focus) whose root pane then runs the command.
pub proof fn law_operation_calls(op: OperationView, snap: SnapshotView)
    ensures
        spec_operation_calls(op, snap).len() == 0 <==> op is AlreadyRunning,
        op matches OperationView::RenameCurrent { target, tab_id, .. } ==> spec_operation_calls(op, snap) == seq![
            HerdrCallView::Run(seq!["tab"@, "rename"@, tab_id, target.label]),
        ],
        op matches OperationView::ClaimCurrent { target, pane_id, tab_id } ==> spec_operation_calls(op, snap)
            == seq![
            HerdrCallView::Run(seq!["tab"@, "rename"@, tab_id, target.label]),
            HerdrCallView::Run(seq!["pane"@, "run"@, pane_id, target.command]),
        ],
        op matches OperationView::RunExisting { target, pane_id, .. } ==> spec_operation_calls(op, snap) == seq![
            HerdrCallView::Run(seq!["pane"@, "run"@, pane_id, target.command]),
        ],
        op matches OperationView::CreateTab { target } ==> spec_operation_calls(op, snap) == seq![
            HerdrCallView::CreateTab {
                create: match snap.workspace_id {
                    Some(w) => seq![
                        "tab"@,
                        "create"@,
                        "--workspace"@,
                        w,
                        "--cwd"@,
                        snap.active_cwd,
                        "--label"@,
                        target.label,
                        "--no-focus"@,
                    ],
                    None => seq![
                        "tab"@,
                        "create"@,
                        "--cwd"@,
                        snap.active_cwd,
                        "--label"@,
                        target.label,
                        "--no-focus"@,
                    ],
                },
                command: target.command,
            },
        ],
{
    if let OperationView::CreateTab { target } = op {
        match snap.workspace_id {
            Some(w) => {
                assert(crate::herdr::spec_create_tab_args(snap, target.label) =~= seq![
                    "tab"@,
                    "create"@,
                    "--workspace"@,
                    w,
                    "--cwd"@,
                    snap.active_cwd,
                    "--label"@,
                    target.label,
                    "--no-focus"@,
                ]);
            },
            None => {
                assert(crate::herdr::spec_create_tab_args(snap, target.label) =~= seq![
                    "tab"@,
                    "create"@,
                    "--cwd"@,
                    snap.active_cwd,
                    "--label"@,
                    target.label,
                    "--no-focus"@,
                ]);
            },
        }
    }
}

/// The directory new tabs start in: the one the context gives for the focused pane; else the
/// current pane's foreground directory; else the current pane's directory; else the
/// directory the program runs in.
pub proof fn law_active_cwd(
    ctx: PluginContextView,
    tabs: Seq<TabInfoView>,
    panes: Seq<PaneInfoView>,
    procs: Map<Seq<char>, PaneProcessInfoView>,
    process_cwd: Seq<char>,
)
    ensures
        ({
            let s = spec_assemble_snapshot(ctx, tabs, panes, procs, process_cwd);
            &&& ctx.focused_pane_cwd matches Some(c) ==> s.active_cwd == c
            &&& ctx.focused_pane_cwd is None ==> match s.current_pane {
                Some(p) => match p.foreground_cwd {
                    Some(f) => s.active_cwd == f,
                    None => match p.cwd {
                        Some(c) => s.active_cwd == c,
                        None => s.active_cwd == process_cwd,
                    },
                },
                None => s.active_cwd == process_cwd,
            }
        }),
{
}

/// The operation with which the first target takes over the current tab: a rename when the
/// current pane already runs it, a claim of the idle pane otherwise.
pub open spec fn takeover_op(target: LayoutTargetView, cur: PaneInfoView, procs: Map<Seq<char>, PaneProcessInfoView>) -> OperationView {
    if spec_is_target_running(cur, target, procs) {
        OperationView::RenameCurrent { target, pane_id: cur.pane_id, tab_id: cur.tab_id }
    } else {
        OperationView::ClaimCurrent { target, pane_id: cur.pane_id, tab_id: cur.tab_id }
    }
}

/// What the law on taking over the current tab assumes: the first target may use the current
/// tab and takes it over (the current pane runs it, or is idle and no tab has its label);
/// labels are distinct, tab ids are distinct, and every tab labelled like a later target is
/// the current pane's tab.
pub open spec fn takeover_setting(layout: LayoutView, snap: SnapshotView, cur: PaneInfoView) -> bool {
    &&& layout.tabs.len() > 0
    &&& layout.first_uses_current_tab
    &&& snap.current_pane == Some(cur)
    &&& labels_distinct(layout)
    &&& forall|j: int, k: int|
        0 <= j < snap.tabs.len() && 0 <= k < snap.tabs.len() && j != k ==> #[trigger] snap.tabs[j].tab_id
            != #[trigger] snap.tabs[k].tab_id
    &&& spec_is_target_running(cur, layout.tabs[0], snap.processes) || (spec_is_idle(cur, snap.processes)
        && forall|j: int| 0 <= j < snap.tabs.len() ==> #[trigger] snap.tabs[j].label != layout.tabs[0].label)
    &&& forall|j: int, i: int|
        0 <= j < snap.tabs.len() && 1 <= i < layout.tabs.len() && #[trigger] snap.tabs[j].label
            == #[trigger] layout.tabs[i].label ==> snap.tabs[j].tab_id == cur.tab_id
}

/// Once the current tab carries the first target's label, no tab carries a later target's.
proof fn lemma_renamed_tabs_free_later_labels(layout: LayoutView, snap: SnapshotView, cur: PaneInfoView, i: int)
    requires
        takeover_setting(layout, snap, cur),
        1 <= i < layout.tabs.len(),
    ensures
        forall|j: int|
            0 <= j < snap.tabs.len() ==> #[trigger] rename_tab(snap.tabs, cur.tab_id, layout.tabs[0].label)[j].label
                != layout.tabs[i].label,
{
    let pred = |t: TabInfoView| t.tab_id == cur.tab_id;
    lemma_first_index(snap.tabs, pred);
    let r = rename_tab(snap.tabs, cur.tab_id, layout.tabs[0].label);
    assert(layout.tabs[0].label != layout.tabs[i].label);
    assert forall|j: int| 0 <= j < snap.tabs.len() implies #[trigger] r[j].label != layout.tabs[i].label by {
        match first_index(snap.tabs, pred) {
            Some(k) => {
                if j != k && snap.tabs[j].label == layout.tabs[i].label {
                    assert(snap.tabs[j].tab_id == cur.tab_id);
                    assert(snap.tabs[k].tab_id == cur.tab_id);
                }
            },
            None => {
                if snap.tabs[j].label == layout.tabs[i].label {
                    assert(snap.tabs[j].tab_id == cur.tab_id);
                    assert(!pred(snap.tabs[j]));
                }
            },
        }
    }
}

proof fn lemma_takeover_prefix(layout: LayoutView, snap: SnapshotView, cur: PaneInfoView, n: nat)
    requires
        takeover_setting(layout, snap, cur),
        1 <= n <= layout.tabs.len(),
    ensures
        plan_prefix(layout, snap, n) is Ok,
        ({
            let st = plan_prefix(layout, snap, n)->Ok_0;
            &&& st.tabs == rename_tab(snap.tabs, cur.tab_id, layout.tabs[0].label)
            &&& st.ops.len() == n
            &&& st.ops[0] == takeover_op(layout.tabs[0], cur, snap.processes)
            &&& forall|i: int|
                1 <= i < n ==> #[trigger] st.ops[i] == OperationView::CreateTab { target: layout.tabs[i] }
        }),
    decreases n,
{
    if n == 1 {
        let st0 = PlanState { tabs: snap.tabs, assigned: Set::empty(), ops: Seq::empty() };
        assert(plan_prefix(layout, snap, 0) == Ok::<PlanState, Seq<char>>(st0));
        let t0 = layout.tabs[0];
        if !spec_is_target_running(cur, t0, snap.processes) {
            assert(!(exists|i: int| 0 <= i < snap.tabs.len() && #[trigger] snap.tabs[i].label == t0.label));
        }
        assert(plan_prefix(layout, snap, 1) == plan_step(layout, snap, 0, st0));
    } else {
        let k = (n - 1) as nat;
        lemma_takeover_prefix(layout, snap, cur, k);
        let st = plan_prefix(layout, snap, k)->Ok_0;
        let target = layout.tabs[k as int];
        lemma_renamed_tabs_free_later_labels(layout, snap, cur, k as int);
        lemma_rename_tab(snap.tabs, cur.tab_id, layout.tabs[0].label);
        assert(!(exists|i: int| 0 <= i < st.tabs.len() && #[trigger] st.tabs[i].label == target.label));
        let next = plan_prefix(layout, snap, n)->Ok_0;
        assert(next.ops == st.ops.push(OperationView::CreateTab { target }));
        assert forall|i: int| 1 <= i < n implies #[trigger] next.ops[i] == OperationView::CreateTab {
            target: layout.tabs[i],
        } by {
            if i < k {
                assert(next.ops[i] == st.ops[i]);
            }
        }
    }
}

/// Once the first target takes over the current tab, later targets see that tab under the
/// first target's label. So for a layout with distinct labels whose first target takes over
/// the current tab, where no tab but the current one carries a later target's label, planning
/// succeeds: the takeover first, then a new tab for every later target.
pub proof fn law_takeover_relabels_current_tab(layout: LayoutView, snap: SnapshotView, cur: PaneInfoView)
    requires
        takeover_setting(layout, snap, cur),
    ensures
        spec_plan_layout(layout, snap) is Ok,
        ({
            let ops = spec_plan_layout(layout, snap)->Ok_0;
            &&& ops.len() == layout.tabs.len()
            &&& ops[0] == takeover_op(layout.tabs[0], cur, snap.processes)
            &&& forall|i: int|
                1 <= i < ops.len() ==> #[trigger] ops[i] == OperationView::CreateTab { target: layout.tabs[i] }
        }),
{
    lemma_takeover_prefix(layout, snap, cur, layout.tabs.len());
}

/// Every pane of every tab labelled `label` is among `assigned`.
pub open spec fn labelled_panes_assigned(
    tabs: Seq<TabInfoView>,
    panes: Seq<PaneInfoView>,
    label: Seq<char>,
    assigned: Set<Seq<char>>,
) -> bool {
    forall|j: int, p: int|
        0 <= j < tabs.len() && 0 <= p < panes.len() && #[trigger] tabs[j].label == label && #[trigger] panes[p].tab_id
            == tabs[j].tab_id ==> assigned.contains(panes[p].pane_id)
}

/// Planning one target: a new tab exactly when no tab carries its label; an error, with its
/// message, exactly when such tabs exist and all their panes are taken; otherwise a free pane
/// of a tab with that label, which joins the assigned panes, and one that runs the target
/// whenever such a tab holds a free pane that runs it.
pub proof fn law_plan_target_choice(
    target: LayoutTargetView,
    tabs: Seq<TabInfoView>,
    panes: Seq<PaneInfoView>,
    procs: Map<Seq<char>, PaneProcessInfoView>,
    assigned: Set<Seq<char>>,
)
    ensures
        ({
            let (res, ids) = spec_plan_target(target, tabs, panes, procs, assigned);
            &&& (forall|j: int| 0 <= j < tabs.len() ==> #[trigger] tabs[j].label != target.label) ==> res
                == Ok::<OperationView, Seq<char>>(OperationView::CreateTab { target }) && ids == assigned
            &&& res is Err <==> (exists|j: int| 0 <= j < tabs.len() && #[trigger] tabs[j].label == target.label)
                && labelled_panes_assigned(tabs, panes, target.label, assigned)
            &&& res is Err ==> res == Err::<OperationView, Seq<char>>(
                "Tab \""@ + target.label + "\" exists, but no matching or idle pane is available"@,
            ) && ids == assigned
            &&& res matches Ok(op) ==> op is AlreadyRunning || op is CreateTab
            &&& res matches Ok(OperationView::AlreadyRunning { label, pane_id, tab_id }) ==> {
                &&& label == target.label
                &&& !assigned.contains(pane_id)
                &&& ids == assigned.insert(pane_id)
                &&& pane_in(panes, pane_id, tab_id)
                &&& labelled_tab_in(tabs, tab_id, target.label)
            }
            &&& (exists|j: int, p: int|
                0 <= j < tabs.len() && 0 <= p < panes.len() && #[trigger] tabs[j].label == target.label
                    && #[trigger] panes[p].tab_id == tabs[j].tab_id && !assigned.contains(panes[p].pane_id)
                    && spec_is_target_running(panes[p], target, procs)) ==> (res matches Ok(
                OperationView::AlreadyRunning { pane_id, tab_id, .. },
            ) && exists|q: int|
                0 <= q < panes.len() && #[trigger] panes[q].pane_id == pane_id && panes[q].tab_id == tab_id
                    && spec_is_target_running(panes[q], target, procs))
        }),
{
    lemma_plan_target_shape(target, tabs, panes, procs, assigned);
    let running = pane_ok(target, procs, assigned, true);
    let free = pane_ok(target, procs, assigned, false);
    let tp_r = |t: TabInfoView| t.label == target.label && pane_pick(panes, t.tab_id, running) is Some;
    let tp_f = |t: TabInfoView| t.label == target.label && pane_pick(panes, t.tab_id, free) is Some;
    lemma_first_index(tabs, tp_r);
    lemma_first_index(tabs, tp_f);
    if exists|j: int| 0 <= j < tabs.len() && #[trigger] tabs[j].label == target.label {
        if tab_pick(tabs, panes, target.label, free) is None {
            assert forall|j: int, p: int|
                0 <= j < tabs.len() && 0 <= p < panes.len() && #[trigger] tabs[j].label == target.label
                    && #[trigger] panes[p].tab_id == tabs[j].tab_id implies assigned.contains(panes[p].pane_id) by {
                assert(!tp_f(tabs[j]));
                lemma_first_index(panes, |q: PaneInfoView| q.tab_id == tabs[j].tab_id && free(q));
                assert(!(panes[p].tab_id == tabs[j].tab_id && free(panes[p])));
            }
        }
        if let Some(ti) = tab_pick(tabs, panes, target.label, free) {
            lemma_first_index(panes, |q: PaneInfoView| q.tab_id == tabs[ti].tab_id && free(q));
            let pi = pane_pick(panes, tabs[ti].tab_id, free)->0;
            assert(tabs[ti].label == target.label && panes[pi].tab_id == tabs[ti].tab_id);
            assert(!assigned.contains(panes[pi].pane_id));
        }
        if let Some(ti) = tab_pick(tabs, panes, target.label, running) {
            lemma_first_index(panes, |q: PaneInfoView| q.tab_id == tabs[ti].tab_id && running(q));
            let pi = pane_pick(panes, tabs[ti].tab_id, running)->0;
            assert(tabs[ti].label == target.label && panes[pi].tab_id == tabs[ti].tab_id);
            assert(!assigned.contains(panes[pi].pane_id));
            assert(spec_is_target_running(panes[pi], target, procs));
        }
        if exists|j: int, p: int|
            0 <= j < tabs.len() && 0 <= p < panes.len() && #[trigger] tabs[j].label == target.label
                && #[trigger] panes[p].tab_id == tabs[j].tab_id && !assigned.contains(panes[p].pane_id)
                && spec_is_target_running(panes[p], target, procs) {
            let (j, p) = choose|j: int, p: int|
                0 <= j < tabs.len() && 0 <= p < panes.len() && #[trigger] tabs[j].label == target.label
                    && #[trigger] panes[p].tab_id == tabs[j].tab_id && !assigned.contains(panes[p].pane_id)
                    && spec_is_target_running(panes[p], target, procs);
            lemma_first_index(panes, |q: PaneInfoView| q.tab_id == tabs[j].tab_id && running(q));
            assert(running(panes[p]));
            assert(tp_r(tabs[j]));
        }
    }
}

/// The snapshot keeps the listings as they came, and takes its current pane, the tab to
/// return to and the workspace from the context first: the current pane is the first pane
/// with the id the context names, else the first focused pane, else none; the tab to return
/// to is the context's tab, else the first focused tab, else the current pane's tab; the
/// workspace is the context's, else the current pane's, else that of the first tab with the
/// id of the tab to return to.
pub proof fn law_snapshot_focus(
    ctx: PluginContextView,
    tabs: Seq<TabInfoView>,
    panes: Seq<PaneInfoView>,
    procs: Map<Seq<char>, PaneProcessInfoView>,
    process_cwd: Seq<char>,
)
    ensures
        ({
            let s = spec_assemble_snapshot(ctx, tabs, panes, procs, process_cwd);
            let named = ctx.focused_pane_id is Some && exists|k: int|
                0 <= k < panes.len() && #[trigger] panes[k].pane_id == ctx.focused_pane_id->0;
            &&& s.tabs == tabs && s.panes == panes && s.processes == procs
            &&& named ==> exists|k: int|
                0 <= k < panes.len() && s.current_pane == Some(#[trigger] panes[k]) && panes[k].pane_id
                    == ctx.focused_pane_id->0 && forall|j: int| 0 <= j < k ==> panes[j].pane_id != ctx.focused_pane_id->0
            &&& !named ==> (exists|k: int| 0 <= k < panes.len() && #[trigger] panes[k].focused) ==> exists|k: int|
                0 <= k < panes.len() && s.current_pane == Some(#[trigger] panes[k]) && panes[k].focused && forall|j: int|
                    0 <= j < k ==> !panes[j].focused
            &&& !named && (forall|k: int| 0 <= k < panes.len() ==> !(#[trigger] panes[k].focused)) ==> s.current_pane
                is None
            &&& ctx.tab_id is Some ==> s.original_tab_id == ctx.tab_id
            &&& ctx.tab_id is None && (exists|k: int| 0 <= k < tabs.len() && #[trigger] tabs[k].focused) ==> exists|k: int|
                0 <= k < tabs.len() && s.original_tab_id == Some(#[trigger] tabs[k].tab_id) && tabs[k].focused
                    && forall|j: int| 0 <= j < k ==> !tabs[j].focused
            &&& ctx.tab_id is None && (forall|k: int| 0 <= k < tabs.len() ==> !(#[trigger] tabs[k].focused))
                ==> s.original_tab_id == match s.current_pane {
                Some(c) => Some(c.tab_id),
                None => None::<Seq<char>>,
            }
            &&& ctx.workspace_id is Some ==> s.workspace_id == ctx.workspace_id
            &&& ctx.workspace_id is None ==> match s.current_pane {
                Some(c) => s.workspace_id == Some(c.workspace_id),
                None => match s.original_tab_id {
                    Some(id) => ((exists|k: int| 0 <= k < tabs.len() && #[trigger] tabs[k].tab_id == id) ==> exists|k: int|
                        0 <= k < tabs.len() && tabs[k].tab_id == id && s.workspace_id == Some(#[trigger] tabs[k].workspace_id)
                            && forall|j: int| 0 <= j < k ==> tabs[j].tab_id != id) && ((forall|k: int|
                        0 <= k < tabs.len() ==> #[trigger] tabs[k].tab_id != id) ==> s.workspace_id is None),
                    None => s.workspace_id is None,
                },
            }
        }),
{
    let s = spec_assemble_snapshot(ctx, tabs, panes, procs, process_cwd);
    if let Some(id) = ctx.focused_pane_id {
        lemma_first_index(panes, |p: PaneInfoView| p.pane_id == id);
    }
    lemma_first_index(panes, |p: PaneInfoView| p.focused);
    lemma_first_index(tabs, |t: TabInfoView| t.focused);
    if let Some(id) = s.original_tab_id {
        lemma_first_index(tabs, |t: TabInfoView| t.tab_id == id);
    }
}

/// A broken pipe (or its exit code 232) in either stream.
pub open spec fn pipe_broke(stdout: Seq<char>, stderr: Seq<char>) -> bool {
    contains_seq(stderr, "BrokenPipe"@) || contains_seq(stdout, "BrokenPipe"@) || contains_seq(stderr, "code: 232"@)
        || contains_seq(stdout, "code: 232"@)
}

/// One attempt at a `herdr` invocation: a success with output (or with no output wanted) is
/// returned as it came and never repeated; a success that owed output and gave none is
/// repeated while attempts remain, then reported as empty; a failure on a broken pipe is
/// repeated while attempts remain; any other failure, and any failure once the attempts are
/// spent, is reported with the command and the trimmed stderr, else the trimmed stdout.
pub proof fn law_attempt_outcome(
    command: Seq<char>,
    attempt: int,
    success: bool,
    exit_code: Option<i32>,
    expect_json: bool,
    stdout: Seq<char>,
    stderr: Seq<char>,
)
    ensures
        ({
            let out = spec_attempt_outcome(command, attempt, success, exit_code, expect_json, stdout, stderr);
            &&& success && !(expect_json && trim(stdout).len() == 0) ==> out == HerdrOutcomeView::Output(stdout)
            &&& success && expect_json && trim(stdout).len() == 0 && attempt < HERDR_RETRIES ==> out
                == HerdrOutcomeView::Retry
            &&& success && expect_json && trim(stdout).len() == 0 && attempt >= HERDR_RETRIES ==> out
                == HerdrOutcomeView::Fail(command + " returned empty output"@)
            &&& !success && pipe_broke(stdout, stderr) && attempt < HERDR_RETRIES ==> out == HerdrOutcomeView::Retry
            &&& !success && (!pipe_broke(stdout, stderr) || attempt >= HERDR_RETRIES) && stderr.len() > 0 ==> out
                == HerdrOutcomeView::Fail(command + ": "@ + trim(stderr))
            &&& !success && (!pipe_broke(stdout, stderr) || attempt >= HERDR_RETRIES) && stderr.len() == 0
                && stdout.len() > 0 ==> out == HerdrOutcomeView::Fail(command + ": "@ + trim(stdout))
        }),
{
}

/// An invocation that could not start is repeated, while attempts remain, only when its
/// error mentions a broken pipe; otherwise it fails with the command and the error.
pub proof fn law_spawn_failure(command: Seq<char>, error: Seq<char>, attempt: int)
    ensures
        attempt < HERDR_RETRIES && contains_seq(error, "BrokenPipe"@) ==> spec_spawn_failure(command, error, attempt)
            == HerdrOutcomeView::Retry,
        attempt >= HERDR_RETRIES ==> spec_spawn_failure(command, error, attempt) == HerdrOutcomeView::Fail(
            command + " failed to start: "@ + error,
        ),
        !contains_seq(command + " failed to start: "@ + error, "BrokenPipe"@) ==> spec_spawn_failure(command, error, attempt)
            == HerdrOutcomeView::Fail(command + " failed to start: "@ + error),
{
    let pre = command + " failed to start: "@;
    let m = pre + error;
    if contains_seq(error, "BrokenPipe"@) {
        let i = choose|i: int| 0 <= i && i + "BrokenPipe"@.len() <= error.len() && #[trigger] error.subrange(i, i + "BrokenPipe"@.len()) == "BrokenPipe"@;
        assert(m.subrange(pre.len() + i, pre.len() + i + "BrokenPipe"@.len()) =~= error.subrange(i, i + "BrokenPipe"@.len()));
    }
}

proof fn lemma_trim_start_after_blanks(lead: Seq<char>, x: Seq<char>)
    requires
        forall|i: int| 0 <= i < lead.len() ==> is_ws(#[trigger] lead[i]),
        x.len() > 0,
        !is_ws(x[0]),
    ensures
        trim_start(lead + x) == x,
    decreases lead.len(),
{
    if lead.len() == 0 {
        assert(lead + x =~= x);
    } else {
        assert((lead + x).drop_first() =~= lead.drop_first() + x);
        assert(is_ws(lead[0]));
        lemma_trim_start_after_blanks(lead.drop_first(), x);
    }
}

proof fn lemma_first_word_of(word: Seq<char>, rest: Seq<char>)
    requires
        forall|i: int| 0 <= i < word.len() ==> !is_ws(#[trigger] word[i]),
        rest.len() == 0 || is_ws(rest[0]),
    ensures
        first_word(word + rest) == word,
    decreases word.len(),
{
    if word.len() == 0 {
        assert(word + rest =~= rest);
    } else {
        assert((word + rest).drop_first() =~= word.drop_first() + rest);
        lemma_first_word_of(word.drop_first(), rest);
        assert(!is_ws(word[0]));
        assert(seq![word[0]] + word.drop_first() =~= word);
    }
}

proof fn lemma_index_of_after(inner: Seq<char>, q: char, tail: Seq<char>)
    requires
        forall|i: int| 0 <= i < inner.len() ==> #[trigger] inner[i] != q,
        tail.len() == 0 || tail[0] == q,
    ensures
        index_of_or_len(inner + tail, q) == inner.len(),
    decreases inner.len(),
{
    if inner.len() == 0 {
        assert(inner + tail =~= tail);
    } else {
        assert((inner + tail).drop_first() =~= inner.drop_first() + tail);
        assert(inner[0] != q);
        lemma_index_of_after(inner.drop_first(), q, tail);
    }
}

/// The program name of a shell line whose first word is not quoted is that word's name:
/// leading white space and everything after the word are ignored.
pub proof fn law_command_name_first_word(lead: Seq<char>, word: Seq<char>, rest: Seq<char>)
    requires
        forall|i: int| 0 <= i < lead.len() ==> is_ws(#[trigger] lead[i]),
        word.len() > 0,
        forall|i: int| 0 <= i < word.len() ==> !is_ws(#[trigger] word[i]),
        !is_quote(word[0]),
        rest.len() == 0 || is_ws(rest[0]),
    ensures
        spec_command_name(lead + word + rest) == spec_normalize_name(Some(word)),
{
    assert(lead + word + rest =~= lead + (word + rest));
    assert(!is_ws(word[0]));
    lemma_trim_start_after_blanks(lead, word + rest);
    lemma_first_word_of(word, rest);
}

/// The program name of a shell line that starts with a quote is the name of what stands
/// between that quote and the next one of the same kind (or the end of the line).
pub proof fn law_command_name_quoted(lead: Seq<char>, q: char, inner: Seq<char>, rest: Seq<char>)
    requires
        forall|i: int| 0 <= i < lead.len() ==> is_ws(#[trigger] lead[i]),
        is_quote(q),
        forall|i: int| 0 <= i < inner.len() ==> #[trigger] inner[i] != q,
    ensures
        spec_command_name(lead + seq![q] + inner + seq![q] + rest) == spec_normalize_name(Some(inner)),
        spec_command_name(lead + seq![q] + inner) == spec_normalize_name(Some(inner)),
{
    assert(!is_ws(q)) by {
        assert(q == '\'' || q == '"');
    }
    let closed = seq![q] + (inner + (seq![q] + rest));
    assert(lead + seq![q] + inner + seq![q] + rest =~= lead + closed);
    lemma_trim_start_after_blanks(lead, closed);
    assert(closed.drop_first() =~= inner + (seq![q] + rest));
    lemma_index_of_after(inner, q, seq![q] + rest);
    assert((inner + (seq![q] + rest)).take(inner.len() as int) =~= inner);
    let open = seq![q] + inner;
    assert(lead + seq![q] + inner =~= lead + open);
    lemma_trim_start_after_blanks(lead, open);
    assert(open.drop_first() =~= inner + Seq::<char>::empty());
    lemma_index_of_after(inner, q, Seq::<char>::empty());
    assert(inner + Seq::<char>::empty() =~= inner);
    assert(inner.take(inner.len() as int) =~= inner);
}

/// A trailing `.exe` is dropped, and only that.
pub proof fn law_strip_exe(s: Seq<char>)
    ensures
        spec_strip_exe(s + ".exe"@) == s,
{
    reveal_strlit(".exe");
    let t = s + ".exe"@;
    assert(t.subrange(t.len() - 4, t.len() as int) =~= seq!['.', 'e', 'x', 'e']);
    assert(t.take(t.len() - 4) =~= s);
}

proof fn lemma_last_segment_suffix(s: Seq<char>)
    ensures
        last_segment(s).len() <= s.len(),
        last_segment(s) == s.skip(s.len() - last_segment(s).len()),
        last_segment(s).len() == s.len() || is_path_sep(s[s.len() - last_segment(s).len() - 1]),
    decreases s.len(),
{
    if s.len() == 0 {
        assert(s.skip(0) =~= s);
    } else if is_path_sep(s.last()) {
        assert(s.skip(s.len() as int) =~= Seq::<char>::empty());
    } else {
        let d = s.drop_last();
        lemma_last_segment_suffix(d);
        let ld = last_segment(d);
        assert(last_segment(s) == ld.push(s.last()));
        assert(ld.push(s.last()) =~= s.skip(s.len() - ld.len() - 1));
        if ld.len() < d.len() {
            assert(s[s.len() - ld.len() - 2] == d[d.len() - ld.len() - 1]);
        }
    }
}

/// The leaf of a program reference is the end of the reference (surrounding quotes trimmed)
/// that follows its last `/` or `\`: the whole of it when there is none.
pub proof fn law_name_leaf_is_last_segment(s: Seq<char>)
    ensures
        ({
            let t = trim_end_quotes(trim_start_quotes(s));
            let l = spec_name_leaf(s);
            &&& l.len() <= t.len()
            &&& l == t.skip(t.len() - l.len())
            &&& l.len() == t.len() || is_path_sep(t[t.len() - l.len() - 1])
            &&& forall|i: int| 0 <= i < l.len() ==> !is_path_sep(#[trigger] l[i])
        }),
{
    lemma_last_segment_suffix(trim_end_quotes(trim_start_quotes(s)));
    law_name_leaf_has_no_separator(s);
}

/// The command line: a lone slot applies it; `--dry-run` or `--check-config` followed by a slot
/// asks for that mode; the slots are `1`, `2` and `3`; every other command line is refused.
pub proof fn law_command_line(argv: Seq<Seq<char>>)
    ensures
        argv.len() == 0 || argv.len() > 2 ==> spec_parse_args(argv) is None,
        argv.len() == 1 ==> spec_parse_args(argv) == if argv[0] == "1"@ || argv[0] == "2"@ || argv[0] == "3"@ {
            Some(ModeView::Apply(argv[0]))
        } else {
            None
        },
        argv.len() == 2 && argv[0] == "--dry-run"@ ==> spec_parse_args(argv) == if argv[1] == "1"@ || argv[1] == "2"@
            || argv[1] == "3"@ {
            Some(ModeView::DryRun(argv[1]))
        } else {
            None
        },
        argv.len() == 2 && argv[0] == "--check-config"@ ==> spec_parse_args(argv) == if argv[1] == "1"@ || argv[1]
            == "2"@ || argv[1] == "3"@ {
            Some(ModeView::CheckConfig(argv[1]))
        } else {
            None
        },
        argv.len() == 2 && argv[0] != "--dry-run"@ && argv[0] != "--check-config"@ ==> spec_parse_args(argv) is None,
{
    reveal_strlit("--dry-run");
    reveal_strlit("--check-config");
    if argv.len() == 2 && argv[0] == "--check-config"@ {
        assert(argv[0] != "--dry-run"@) by {
            assert(argv[0].len() != "--dry-run"@.len());
        }
    }
}

/// Directories without an override file do not matter: the nearest directory holding one
/// decides, by itself, whatever lies above it; with no override file anywhere there is none.
pub proof fn law_nearest_override_decides(empty: Seq<OverrideProbeView>, p: OverrideProbeView, rest: Seq<OverrideProbeView>)
    requires
        forall|i: int| 0 <= i < empty.len() ==> #[trigger] empty[i].yaml is None && empty[i].yml is None,
    ensures
        spec_find_repo_override(empty) == Ok::<Option<Seq<char>>, Seq<char>>(None),
        spec_find_repo_override(empty + rest) == spec_find_repo_override(rest),
        p.yaml is Some || p.yml is Some ==> spec_find_repo_override(seq![p] + rest) == if p.yaml is Some && p.yml is Some {
            Err::<Option<Seq<char>>, Seq<char>>(p.dir + ": both .herdr-layout.yaml and .herdr-layout.yml exist"@)
        } else if p.yaml is Some {
            Ok(p.yaml)
        } else {
            Ok(p.yml)
        },
{
    let pred = |q: OverrideProbeView| q.yaml is Some || q.yml is Some;
    lemma_first_index(empty, pred);
    lemma_first_index(rest, pred);
    lemma_first_index(empty + rest, pred);
    match first_index(rest, pred) {
        Some(k) => {
            assert(pred((empty + rest)[empty.len() + k]));
            crate::search::lemma_first_index_at(empty + rest, pred, empty.len() + k);
            assert((empty + rest)[empty.len() + k] == rest[k]);
        },
        None => {
            assert forall|j: int| 0 <= j < (empty + rest).len() implies !pred(#[trigger] (empty + rest)[j]) by {
                if j >= empty.len() {
                    assert((empty + rest)[j] == rest[j - empty.len()]);
                }
            }
            crate::search::lemma_first_index_none(empty + rest, pred);
        },
    }
    if pred(p) {
        crate::search::lemma_first_index_at(seq![p] + rest, pred, 0);
    }
}

/// A reply is read only when it is an object without an `error` object: an error object
/// refuses it, with its message when that is a non-empty string, whatever else the reply
/// holds; a reply with a `result` object whose `type` is the expected one gives that result;
/// another `type` is refused, naming both.
pub proof fn law_reply_result(response: Json, result_type: Seq<char>)
    ensures
        as_object(response) is None ==> spec_expect_result(response, result_type) == Err::<
            Seq<(String, Json)>,
            Seq<char>,
        >("Herdr response must be object"@),
        as_object(response) matches Some(o) ==> match get_object(o, "error"@) {
            Some(err) => spec_expect_result(response, result_type) is Err && match obj_get(err, "message"@) {
                Some(Json::String(m)) => m@.len() > 0 ==> spec_expect_result(response, result_type) == Err::<
                    Seq<(String, Json)>,
                    Seq<char>,
                >(m@),
                _ => true,
            },
            None => match get_object(o, "result"@) {
                None => spec_expect_result(response, result_type) == Err::<Seq<(String, Json)>, Seq<char>>(
                    "Herdr response missing result"@,
                ),
                Some(r) => match obj_get(r, "type"@) {
                    Some(Json::String(t)) => if t@ == result_type {
                        spec_expect_result(response, result_type) == Ok::<Seq<(String, Json)>, Seq<char>>(r)
                    } else {
                        spec_expect_result(response, result_type) == Err::<Seq<(String, Json)>, Seq<char>>(
                            "Expected Herdr result "@ + result_type + ", got "@ + t@,
                        )
                    },
                    _ => true,
                },
            },
        },
{
}

/// Reading every item of a list keeps the list: all read means one value per item, in the
/// items' order, each what its item reads as; otherwise the error is that of the first item
/// that fails, all before it being read.
pub proof fn law_collect_keeps_order<T>(items: Seq<Json>, f: spec_fn(Json) -> Result<T, Seq<char>>)
    ensures
        collect_all(items, f) matches Ok(ts) ==> ts.len() == items.len() && forall|i: int|
            0 <= i < items.len() ==> f(#[trigger] items[i]) == Ok::<T, Seq<char>>(ts[i]),
        collect_all(items, f) matches Err(e) ==> exists|i: int|
            0 <= i < items.len() && f(#[trigger] items[i]) == Err::<T, Seq<char>>(e) && forall|j: int|
                0 <= j < i ==> f(#[trigger] items[j]) is Ok,
{
    lemma_collect_prefix_order(items, f, items.len());
}

proof fn lemma_collect_prefix_order<T>(items: Seq<Json>, f: spec_fn(Json) -> Result<T, Seq<char>>, n: nat)
    requires
        n <= items.len(),
    ensures
        collect_prefix(items, f, n) matches Ok(ts) ==> ts.len() == n && forall|i: int|
            0 <= i < n ==> f(#[trigger] items[i]) == Ok::<T, Seq<char>>(ts[i]),
        collect_prefix(items, f, n) matches Err(e) ==> exists|i: int|
            0 <= i < n && f(#[trigger] items[i]) == Err::<T, Seq<char>>(e) && forall|j: int|
                0 <= j < i ==> f(#[trigger] items[j]) is Ok,
    decreases n,
{
    if n > 0 {
        let k = (n - 1) as nat;
        lemma_collect_prefix_order(items, f, k);
        match collect_prefix(items, f, k) {
            Ok(prev) => {
                match f(items[k as int]) {
                    Ok(t) => {
                        let ts = prev.push(t);
                        assert forall|i: int| 0 <= i < n implies f(#[trigger] items[i]) == Ok::<T, Seq<char>>(ts[i]) by {
                            if i < k {
                                assert(ts[i] == prev[i]);
                            }
                        }
                    },
                    Err(e) => {
                        assert forall|j: int| 0 <= j < k implies f(#[trigger] items[j]) is Ok by {
                            assert(f(items[j]) == Ok::<T, Seq<char>>(prev[j]));
                        }
                        assert(f(items[k as int]) == Err::<T, Seq<char>>(e));
                    },
                }
            },
            Err(e) => {},
        }
    }
}

/// A pane entry is read exactly when it is an object whose `pane_id`, `workspace_id` and
/// `tab_id` are strings; the pane is focused exactly when `focused` is the boolean true, and
/// it has a directory, a foreground directory or an agent only when that member is a
/// non-empty string.
pub proof fn law_pane_entry(raw: Json)
    ensures
        spec_parse_pane_info(raw) is Ok <==> (as_object(raw) matches Some(o) && (obj_get(o, "pane_id"@) matches Some(
            Json::String(_),
        )) && (obj_get(o, "workspace_id"@) matches Some(Json::String(_))) && (obj_get(o, "tab_id"@) matches Some(
            Json::String(_),
        ))),
        spec_parse_pane_info(raw) matches Ok(p) ==> (as_object(raw) matches Some(o) && {
            &&& (obj_get(o, "pane_id"@) matches Some(Json::String(v)) && v@ == p.pane_id)
            &&& (obj_get(o, "tab_id"@) matches Some(Json::String(v)) && v@ == p.tab_id)
            &&& p.focused == (obj_get(o, "focused"@) == Some(Json::Bool(true)))
            &&& (p.cwd matches Some(c) ==> c.len() > 0 && (obj_get(o, "cwd"@) matches Some(Json::String(v)) && v@ == c))
            &&& (obj_get(o, "cwd"@) matches Some(Json::String(v)) ==> (v@.len() > 0 ==> p.cwd == Some(v@)))
            &&& (p.foreground_cwd matches Some(c) ==> c.len() > 0 && (obj_get(o, "foreground_cwd"@) matches Some(
                Json::String(v),
            ) && v@ == c))
            &&& (obj_get(o, "foreground_cwd"@) matches Some(Json::String(v)) ==> (v@.len() > 0 ==> p.foreground_cwd
                == Some(v@)))
            &&& (p.agent matches Some(c) ==> c.len() > 0 && (obj_get(o, "agent"@) matches Some(Json::String(v)) && v@
                == c))
            &&& (obj_get(o, "agent"@) matches Some(Json::String(v)) ==> (v@.len() > 0 ==> p.agent == Some(v@)))
        }),
{
}

/// A tab entry is read exactly when it is an object whose `tab_id`, `workspace_id` and `label`
/// are strings; the tab is focused exactly when `focused` is the boolean true.
pub proof fn law_tab_entry(raw: Json)
    ensures
        spec_parse_tab_info(raw) is Ok <==> (as_object(raw) matches Some(o) && (obj_get(o, "tab_id"@) matches Some(
            Json::String(_),
        )) && (obj_get(o, "workspace_id"@) matches Some(Json::String(_))) && (obj_get(o, "label"@) matches Some(
            Json::String(_),
        ))),
        spec_parse_tab_info(raw) matches Ok(t) ==> (as_object(raw) matches Some(o) && {
            &&& (obj_get(o, "tab_id"@) matches Some(Json::String(v)) && v@ == t.tab_id)
            &&& (obj_get(o, "label"@) matches Some(Json::String(v)) && v@ == t.label)
            &&& t.focused == (obj_get(o, "focused"@) == Some(Json::Bool(true)))
        }),
{
}

/// Picking a member by a list of keys: the first key whose member is a non-empty string gives
/// it; when none does, nothing is picked.
pub proof fn law_pick_first_key(o: Seq<(String, Json)>, keys: Seq<Seq<char>>)
    ensures
        pick_in(o, keys) matches Some(v) ==> v.len() > 0 && exists|i: int|
            0 <= i < keys.len() && spec_optional_json_string(obj_get(o, #[trigger] keys[i])) == Some(v) && forall|j: int|
                0 <= j < i ==> spec_optional_json_string(obj_get(o, #[trigger] keys[j])) is None,
        pick_in(o, keys) is None ==> forall|i: int|
            0 <= i < keys.len() ==> spec_optional_json_string(obj_get(o, #[trigger] keys[i])) is None,
    decreases keys.len(),
{
    if keys.len() > 0 {
        law_pick_first_key(o, keys.drop_first());
        match spec_optional_json_string(obj_get(o, keys[0])) {
            Some(v) => {
                assert(spec_optional_json_string(obj_get(o, keys[0])) == Some(v));
            },
            None => {
                if let Some(v) = pick_in(o, keys.drop_first()) {
                    let i = choose|i: int|
                        0 <= i < keys.drop_first().len() && spec_optional_json_string(
                            obj_get(o, #[trigger] keys.drop_first()[i]),
                        ) == Some(v) && forall|j: int|
                            0 <= j < i ==> spec_optional_json_string(obj_get(o, #[trigger] keys.drop_first()[j])) is None;
                    assert(keys[i + 1] == keys.drop_first()[i]);
                    assert forall|j: int| 0 <= j < i + 1 implies spec_optional_json_string(
                        obj_get(o, #[trigger] keys[j]),
                    ) is None by {
                        if j > 0 {
                            assert(keys[j] == keys.drop_first()[j - 1]);
                        }
                    }
                } else {
                    assert forall|i: int| 0 <= i < keys.len() implies spec_optional_json_string(
                        obj_get(o, #[trigger] keys[i]),
                    ) is None by {
                        if i > 0 {
                            assert(keys[i] == keys.drop_first()[i - 1]);
                        }
                    }
                }
            },
        }
    }
}

/// The plugin context takes each field from the context record's top-level member first:
/// `workspace_id`, `tab_id`, `focused_pane_id` (then `pane_id`), `focused_pane_cwd` and
/// `workspace_cwd`, when it is a non-empty string; the environment is used for an id only
/// when the record gives none, and no field is ever an empty text.
pub proof fn law_plugin_context_sources(
    parsed: Json,
    env_workspace_id: Option<Seq<char>>,
    env_tab_id: Option<Seq<char>>,
    env_pane_id: Option<Seq<char>>,
)
    ensures
        ({
            let c = spec_read_plugin_context(parsed, env_workspace_id, env_tab_id, env_pane_id);
            &&& as_object(parsed) matches Some(o) ==> {
                &&& (obj_get(o, "workspace_id"@) matches Some(Json::String(v)) ==> (v@.len() > 0 ==> c.workspace_id
                    == Some(v@)))
                &&& (obj_get(o, "tab_id"@) matches Some(Json::String(v)) ==> (v@.len() > 0 ==> c.tab_id == Some(v@)))
                &&& (obj_get(o, "focused_pane_id"@) matches Some(Json::String(v)) ==> (v@.len() > 0
                    ==> c.focused_pane_id == Some(v@)))
                &&& (obj_get(o, "focused_pane_cwd"@) matches Some(Json::String(v)) ==> (v@.len() > 0
                    ==> c.focused_pane_cwd == Some(v@)))
                &&& (obj_get(o, "workspace_cwd"@) matches Some(Json::String(v)) ==> (v@.len() > 0 ==> c.workspace_cwd
                    == Some(v@)))
            }
            &&& !(parsed is Object) ==> c == PluginContextView {
                workspace_id: non_empty(env_workspace_id),
                tab_id: non_empty(env_tab_id),
                focused_pane_id: non_empty(env_pane_id),
                focused_pane_cwd: None,
                workspace_cwd: None,
            }
            &&& c.workspace_id matches Some(v) ==> v.len() > 0
            &&& c.tab_id matches Some(v) ==> v.len() > 0
            &&& c.focused_pane_id matches Some(v) ==> v.len() > 0
            &&& c.focused_pane_cwd matches Some(v) ==> v.len() > 0
            &&& c.workspace_cwd matches Some(v) ==> v.len() > 0
        }),
{
    reveal_with_fuel(pick_in, 2);
    if let Some(o) = as_object(parsed) {
        law_pick_first_key(o, seq!["workspace_id"@]);
        law_pick_first_key(o, seq!["tab_id"@]);
        law_pick_first_key(o, seq!["focused_pane_id"@, "pane_id"@]);
        law_pick_first_key(o, seq!["focused_pane_cwd"@]);
        law_pick_first_key(o, seq!["workspace_cwd"@]);
        lemma_nested_non_empty(o, "workspace"@, seq!["workspace_id"@, "id"@]);
        lemma_nested_non_empty(o, "tab"@, seq!["tab_id"@, "id"@]);
        lemma_nested_non_empty(o, "focused_pane"@, seq!["pane_id"@, "id"@]);
        lemma_nested_non_empty(o, "focused_pane"@, seq!["foreground_cwd"@, "cwd"@]);
        lemma_nested_non_empty(o, "workspace"@, seq!["cwd"@]);
    }
}

proof fn lemma_nested_non_empty(o: Seq<(String, Json)>, key: Seq<char>, keys: Seq<Seq<char>>)
    ensures
        match obj_get(o, key) {
            Some(sub) => spec_pick_string(sub, keys) matches Some(v) ==> v.len() > 0,
            None => true,
        },
{
    if let Some(sub) = obj_get(o, key) {
        if let Some(so) = as_object(sub) {
            law_pick_first_key(so, keys);
        }
    }
}

/// The validation of the tab target at place `i` of a layout's list.
pub open spec fn item_target(items: Seq<Yaml>, path: Seq<char>, i: int) -> Result<LayoutTargetView, Seq<char>> {
    spec_validate_target(items[i], crate::config::target_path(path, i as nat))
}

/// The first `n` items are valid targets with pairwise distinct labels.
pub open spec fn items_acceptable(items: Seq<Yaml>, path: Seq<char>, n: int) -> bool {
    &&& forall|i: int| 0 <= i < n ==> #[trigger] item_target(items, path, i) is Ok
    &&& forall|i: int, j: int|
        0 <= i < n && 0 <= j < n && i != j ==> (#[trigger] item_target(items, path, i))->Ok_0.label != (
        #[trigger] item_target(items, path, j))->Ok_0.label
}

proof fn lemma_targets_prefix_accepts(items: Seq<Yaml>, path: Seq<char>, n: nat)
    requires
        n <= items.len(),
    ensures
        targets_prefix(items, path, n) is Ok <==> items_acceptable(items, path, n as int),
    decreases n,
{
    lemma_targets_prefix(items, path, n);
    if n > 0 {
        let k = (n - 1) as nat;
        lemma_targets_prefix_accepts(items, path, k);
        lemma_targets_prefix(items, path, k);
        if items_acceptable(items, path, n as int) {
            assert(items_acceptable(items, path, k as int));
            let prev = targets_prefix(items, path, k)->Ok_0;
            let t = item_target(items, path, k as int)->Ok_0;
            assert(item_target(items, path, k as int) is Ok);
            if exists|j: int| 0 <= j < prev.len() && #[trigger] prev[j].label == t.label {
                let j = choose|j: int| 0 <= j < prev.len() && #[trigger] prev[j].label == t.label;
                assert(item_target(items, path, j) == Ok::<LayoutTargetView, Seq<char>>(prev[j]));
                assert(item_target(items, path, j)->Ok_0.label != item_target(items, path, k as int)->Ok_0.label);
            }
        }
        if let Ok(ts) = targets_prefix(items, path, n) {
            assert forall|i: int| 0 <= i < n implies #[trigger] item_target(items, path, i) is Ok by {
                assert(item_target(items, path, i) == Ok::<LayoutTargetView, Seq<char>>(ts[i]));
            }
            assert forall|i: int, j: int|
                0 <= i < n && 0 <= j < n && i != j implies (#[trigger] item_target(items, path, i))->Ok_0.label != (
                #[trigger] item_target(items, path, j))->Ok_0.label by {
                assert(item_target(items, path, i) == Ok::<LayoutTargetView, Seq<char>>(ts[i]));
                assert(item_target(items, path, j) == Ok::<LayoutTargetView, Seq<char>>(ts[j]));
            }
        }
    }
}

/// A layout is accepted exactly when it is a map whose `firstUsesCurrentTab` is absent or a
/// boolean, and whose `tabs` is a non-empty list of valid targets with pairwise distinct
/// labels.
pub proof fn law_layout_accepted_exactly(raw: Yaml, path: Seq<char>)
    ensures
        spec_validate_layout(raw, path) is Ok <==> (as_mapping(raw) matches Some(m) && {
            &&& (map_get(m, "firstUsesCurrentTab"@) matches Some(v) ==> v is Bool)
            &&& (map_get(m, "tabs"@) matches Some(v) && crate::config::as_sequence(v) is Some)
            &&& layout_items(raw).len() > 0
            &&& items_acceptable(layout_items(raw), path, layout_items(raw).len() as int)
        }),
{
    if let Some(m) = as_mapping(raw) {
        let items = layout_items(raw);
        lemma_targets_prefix_accepts(items, path, items.len());
    }
}

/// The first `n` entries of a `layouts` map have slot keys and valid layouts.
pub open spec fn entries_acceptable(entries: Seq<(YamlKey, Yaml)>, source: Seq<char>, n: int) -> bool {
    forall|j: int|
        0 <= j < n ==> is_slot(#[trigger] crate::config::spec_key_text(entries[j].0)) && spec_validate_layout(
            entries[j].1,
            source + ": layouts."@ + crate::config::spec_key_text(entries[j].0),
        ) is Ok
}

proof fn lemma_slots_prefix_accepts(entries: Seq<(YamlKey, Yaml)>, source: Seq<char>, n: nat)
    requires
        n <= entries.len(),
    ensures
        slots_prefix(entries, source, n) is Ok <==> entries_acceptable(entries, source, n as int),
        slots_prefix(entries, source, n) matches Ok(m) ==> forall|j: int|
            0 <= j < n ==> m.contains_key(#[trigger] crate::config::spec_key_text(entries[j].0)),
    decreases n,
{
    if n > 0 {
        let k = (n - 1) as nat;
        lemma_slots_prefix_accepts(entries, source, k);
        if let Ok(m) = slots_prefix(entries, source, n) {
            let prev = slots_prefix(entries, source, k)->Ok_0;
            assert forall|j: int| 0 <= j < n implies m.contains_key(
                #[trigger] crate::config::spec_key_text(entries[j].0),
            ) by {
                if j < k {
                    assert(prev.contains_key(crate::config::spec_key_text(entries[j].0)));
                }
            }
        }
    }
}

/// A configuration is accepted exactly when its root is a map whose `layouts` is a map in
/// which every key is a slot holding a valid layout; then every key of it has its slot in
/// the result, and no other slot is there.
pub proof fn law_config_accepted_exactly(raw: Yaml, source: Seq<char>)
    ensures
        spec_validate_config_root(raw, source) is Ok <==> (as_mapping(raw) matches Some(root) && (map_get(
            root,
            "layouts"@,
        ) matches Some(v) && as_mapping(v) is Some) && entries_acceptable(
            config_entries(raw),
            source,
            config_entries(raw).len() as int,
        )),
        spec_validate_config_root(raw, source) matches Ok(m) ==> forall|j: int|
            0 <= j < config_entries(raw).len() ==> m.contains_key(
                #[trigger] crate::config::spec_key_text(config_entries(raw)[j].0),
            ),
{
    if let Some(root) = as_mapping(raw) {
        if let Some(v) = map_get(root, "layouts"@) {
            if let Some(entries) = as_mapping(v) {
                lemma_slots_prefix_accepts(entries, source, entries.len());
            }
        }
    }
}

proof fn lemma_first_op_kept(layout: LayoutView, snap: SnapshotView, n: nat)
    requires
        1 <= n <= layout.tabs.len(),
    ensures
        plan_prefix(layout, snap, n) matches Ok(st) ==> plan_prefix(layout, snap, 1) is Ok && st.ops.len() >= 1
            && st.ops[0] == plan_prefix(layout, snap, 1)->Ok_0.ops[0],
    decreases n,
{
    let st0 = PlanState { tabs: snap.tabs, assigned: Set::empty(), ops: Seq::empty() };
    assert(plan_prefix(layout, snap, 0) == Ok::<PlanState, Seq<char>>(st0));
    if n > 1 {
        let k = (n - 1) as nat;
        lemma_first_op_kept(layout, snap, k);
        lemma_plan_prefix_invariant(layout, snap, k);
        if let Ok(st) = plan_prefix(layout, snap, k) {
            if let Ok(next) = plan_step(layout, snap, k as int, st) {
                assert(next.ops == st.ops.push(next.ops.last()));
                assert(next.ops[0] == st.ops[0]);
            }
        }
    } else {
        if let Ok(st) = plan_prefix(layout, snap, 1) {
            assert(st.ops.len() == 1);
        }
    }
}

/// The first target takes over the current tab in two ways only: a rename exactly
/// when the layout allows it and the current pane already runs the target; a claim only when
/// the current pane does not run it, is idle, and no tab carries the target's label (a target
/// already present elsewhere is left where it runs).
pub proof fn law_takeover_only_when_needed(layout: LayoutView, snap: SnapshotView)
    ensures
        spec_plan_layout(layout, snap) matches Ok(ops) ==> (ops.len() > 0 ==> match snap.current_pane {
            Some(c) => {
                &&& (layout.first_uses_current_tab && spec_is_target_running(c, layout.tabs[0], snap.processes))
                    ==> ops[0] == OperationView::RenameCurrent {
                    target: layout.tabs[0],
                    pane_id: c.pane_id,
                    tab_id: c.tab_id,
                }
                &&& ops[0] is RenameCurrent ==> layout.first_uses_current_tab && spec_is_target_running(
                    c,
                    layout.tabs[0],
                    snap.processes,
                )
                &&& ops[0] is ClaimCurrent ==> {
                    &&& layout.first_uses_current_tab
                    &&& !spec_is_target_running(c, layout.tabs[0], snap.processes)
                    &&& spec_is_idle(c, snap.processes)
                    &&& ops[0] == OperationView::ClaimCurrent { target: layout.tabs[0], pane_id: c.pane_id, tab_id: c.tab_id }
                    &&& forall|j: int| 0 <= j < snap.tabs.len() ==> #[trigger] snap.tabs[j].label != layout.tabs[0].label
                }
            },
            None => !(ops[0] is RenameCurrent) && !(ops[0] is ClaimCurrent),
        }),
{
    if layout.tabs.len() > 0 {
        lemma_first_op_kept(layout, snap, layout.tabs.len());
        let st0 = PlanState { tabs: snap.tabs, assigned: Set::empty(), ops: Seq::empty() };
        assert(plan_prefix(layout, snap, 0) == Ok::<PlanState, Seq<char>>(st0));
        assert(plan_prefix(layout, snap, 1) == plan_step(layout, snap, 0, st0));
        lemma_plan_target_shape(layout.tabs[0], snap.tabs, snap.panes, snap.processes, Set::empty());
    }
}

/// The processes of a pane are looked up by its id: the map holds exactly the ids of the
/// panes, and the entry for an id is what was reported for the last pane with that id.
pub proof fn law_process_map_lookup(panes: Seq<PaneInfoView>, infos: Seq<PaneProcessInfoView>, n: nat)
    requires
        n <= panes.len(),
        n <= infos.len(),
    ensures
        forall|k: Seq<char>|
            #[trigger] process_map_prefix(panes, infos, n).contains_key(k) <==> exists|i: int|
                0 <= i < n && #[trigger] panes[i].pane_id == k,
        forall|i: int|
            0 <= i < n && (forall|j: int| i < j < n ==> #[trigger] panes[j].pane_id != panes[i].pane_id)
                ==> process_map_prefix(panes, infos, n)[#[trigger] panes[i].pane_id] == infos[i],
    decreases n,
{
    if n > 0 {
        let k = (n - 1) as nat;
        law_process_map_lookup(panes, infos, k);
        let before = process_map_prefix(panes, infos, k);
        let after = process_map_prefix(panes, infos, n);
        assert(after == before.insert(panes[k as int].pane_id, infos[k as int]));
        assert forall|key: Seq<char>| #[trigger] after.contains_key(key) <==> exists|i: int|
            0 <= i < n && #[trigger] panes[i].pane_id == key by {
            if after.contains_key(key) && key != panes[k as int].pane_id {
                assert(before.contains_key(key));
            }
            if exists|i: int| 0 <= i < n && #[trigger] panes[i].pane_id == key {
                let i = choose|i: int| 0 <= i < n && #[trigger] panes[i].pane_id == key;
                if i < k {
                    assert(before.contains_key(key));
                }
            }
        }
        assert forall|i: int|
            0 <= i < n && (forall|j: int| i < j < n ==> #[trigger] panes[j].pane_id != panes[i].pane_id)
                implies after[#[trigger] panes[i].pane_id] == infos[i] by {
            if i < k {
                assert(panes[k as int].pane_id != panes[i].pane_id);
                assert forall|j: int| i < j < k implies #[trigger] panes[j].pane_id != panes[i].pane_id by {
                    assert(i < j < n);
                }
            }
        }
    }
}

} // verus!
