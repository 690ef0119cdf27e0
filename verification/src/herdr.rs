//! Talking to Herdr: the plugin context, the command lines sent to `herdr`, what a finished
//! `herdr` run means, and the snapshot assembled from its replies.
use vstd::prelude::*;
use vstd::string::StringExecFns;
use crate::text::{chars_of, contains_seq, i64_decimal, signed_decimal, str_contains, trim, trim_chars};
use crate::model::{
    Operation, OperationView, PaneInfo, PaneInfoView, Snapshot, SnapshotView, TabInfo,
    TabInfoView,
};
use crate::search::{first_index, lemma_first_index_at, lemma_first_index_none};
use crate::response::{as_object, obj_get, json_get, optional_json_string, spec_optional_json_string, Json};
use crate::text_map::ProcessMap;
use crate::model::{PaneProcessInfo, PaneProcessInfoView};

verus! {

/// What the Herdr plugin runtime told this run about where it was invoked.
#[derive(Debug, PartialEq, Eq)]
pub struct PluginContext {
    pub workspace_id: Option<String>,
    pub tab_id: Option<String>,
    pub focused_pane_id: Option<String>,
    pub focused_pane_cwd: Option<String>,
    pub workspace_cwd: Option<String>,
}

pub struct PluginContextView {
    pub workspace_id: Option<Seq<char>>,
    pub tab_id: Option<Seq<char>>,
    pub focused_pane_id: Option<Seq<char>>,
    pub focused_pane_cwd: Option<Seq<char>>,
    pub workspace_cwd: Option<Seq<char>>,
}

impl View for PluginContext {
    type V = PluginContextView;

    open spec fn view(&self) -> PluginContextView {
        PluginContextView {
            workspace_id: self.workspace_id.deep_view(),
            tab_id: self.tab_id.deep_view(),
            focused_pane_id: self.focused_pane_id.deep_view(),
            focused_pane_cwd: self.focused_pane_cwd.deep_view(),
            workspace_cwd: self.workspace_cwd.deep_view(),
        }
    }
}

/// `a` when it is present, else `b`.
pub open spec fn or_else<T>(a: Option<T>, b: Option<T>) -> Option<T> {
    if a is Some { a } else { b }
}

/// A text that is present and not empty.
pub open spec fn non_empty(o: Option<Seq<char>>) -> Option<Seq<char>> {
    match o {
        Some(s) => if s.len() > 0 { Some(s) } else { None },
        None => None,
    }
}

/// The first of `keys` whose member of `o` is a non-empty string, with that string.
pub open spec fn pick_in(o: Seq<(String, Json)>, keys: Seq<Seq<char>>) -> Option<Seq<char>>
    decreases keys.len(),
{
    if keys.len() == 0 {
        None
    } else {
        match spec_optional_json_string(obj_get(o, keys[0])) {
            Some(s) => Some(s),
            None => pick_in(o, keys.drop_first()),
        }
    }
}

/// `pick_in` on a record that is an object; nothing otherwise.
pub open spec fn spec_pick_string(record: Json, keys: Seq<Seq<char>>) -> Option<Seq<char>> {
    match as_object(record) {
        Some(o) => pick_in(o, keys),
        None => None,
    }
}

/// `spec_pick_string` on member `key` of the record.
pub open spec fn spec_nested_string(record: Json, key: Seq<char>, keys: Seq<Seq<char>>) -> Option<Seq<char>> {
    match as_object(record) {
        Some(o) => match obj_get(o, key) {
            Some(sub) => spec_pick_string(sub, keys),
            None => None,
        },
        None => None,
    }
}

/// The plugin context read from the context record and the environment: each field from a
/// top-level member, else from a nested object, else (for the ids) from the environment
/// when the variable is not empty.
pub open spec fn spec_read_plugin_context(
    parsed: Json,
    env_workspace_id: Option<Seq<char>>,
    env_tab_id: Option<Seq<char>>,
    env_pane_id: Option<Seq<char>>,
) -> PluginContextView {
    PluginContextView {
        workspace_id: or_else(
            or_else(
                spec_pick_string(parsed, seq!["workspace_id"@]),
                spec_nested_string(parsed, "workspace"@, seq!["workspace_id"@, "id"@]),
            ),
            non_empty(env_workspace_id),
        ),
        tab_id: or_else(
            or_else(
                spec_pick_string(parsed, seq!["tab_id"@]),
                spec_nested_string(parsed, "tab"@, seq!["tab_id"@, "id"@]),
            ),
            non_empty(env_tab_id),
        ),
        focused_pane_id: or_else(
            or_else(
                spec_pick_string(parsed, seq!["focused_pane_id"@, "pane_id"@]),
                spec_nested_string(parsed, "focused_pane"@, seq!["pane_id"@, "id"@]),
            ),
            non_empty(env_pane_id),
        ),
        focused_pane_cwd: or_else(
            spec_pick_string(parsed, seq!["focused_pane_cwd"@]),
            spec_nested_string(parsed, "focused_pane"@, seq!["foreground_cwd"@, "cwd"@]),
        ),
        workspace_cwd: or_else(
            spec_pick_string(parsed, seq!["workspace_cwd"@]),
            spec_nested_string(parsed, "workspace"@, seq!["cwd"@]),
        ),
    }
}

/// The view of a list of texts.
pub open spec fn strs_view(keys: Seq<&str>) -> Seq<Seq<char>> {
    Seq::new(keys.len(), |i: int| keys[i]@)
}

/// The first of `keys` naming a non-empty string member of `record` (see `spec_pick_string`).
pub fn pick_string(record: &Json, keys: &[&str]) -> (r: Option<String>)
    ensures
        r.deep_view() == spec_pick_string(*record, strs_view(keys@)),
{
    let o = match record {
        Json::Object(o) => o,
        _ => return None,
    };
    let ghost ks = strs_view(keys@);
    let mut i: usize = 0;
    assert(ks.skip(0) =~= ks);
    while i < keys.len()
        invariant
            i <= keys@.len(),
            ks == strs_view(keys@),
            spec_pick_string(*record, ks) == pick_in(o@, ks),
            pick_in(o@, ks) == pick_in(o@, ks.skip(i as int)),
        decreases keys.len() - i,
    {
        let found = optional_json_string(json_get(o, keys[i]));
        assert(ks.skip(i as int)[0] == keys@[i as int]@);
        match found {
            Some(s) => {
                assert(ks.skip(i as int).len() > 0);
                assert(pick_in(o@, ks.skip(i as int)) == Some(s@));
                return Some(s);
            },
            None => {
                assert(ks.skip(i as int).drop_first() =~= ks.skip(i + 1));
            },
        }
        i = i + 1;
    }
    None
}

/// `pick_string` on member `key` of the record.
pub fn nested_string(record: &Json, key: &str, keys: &[&str]) -> (r: Option<String>)
    ensures
        r.deep_view() == spec_nested_string(*record, key@, strs_view(keys@)),
{
    match record {
        Json::Object(o) => match json_get(o, key) {
            Some(sub) => pick_string(sub, keys),
            None => None,
        },
        _ => None,
    }
}

fn non_empty_string(o: Option<String>) -> (r: Option<String>)
    ensures
        r.deep_view() == non_empty(o.deep_view()),
{
    match o {
        Some(s) => if s.as_str().is_empty() { None } else { Some(s) },
        None => None,
    }
}

fn first_some(a: Option<String>, b: Option<String>) -> (r: Option<String>)
    ensures
        r.deep_view() == or_else(a.deep_view(), b.deep_view()),
{
    if a.is_some() { a } else { b }
}

/// The plugin context (see `spec_read_plugin_context`); the environment values are those
/// of `HERDR_WORKSPACE_ID`, `HERDR_TAB_ID` and `HERDR_PANE_ID`.
pub fn read_plugin_context(
    parsed: &Json,
    env_workspace_id: Option<String>,
    env_tab_id: Option<String>,
    env_pane_id: Option<String>,
) -> (r: PluginContext)
    ensures
        r@ == spec_read_plugin_context(
            *parsed,
            env_workspace_id.deep_view(),
            env_tab_id.deep_view(),
            env_pane_id.deep_view(),
        ),
{
    let k_workspace_id = ["workspace_id"];
    let k_workspace = ["workspace_id", "id"];
    let k_tab_id = ["tab_id"];
    let k_tab = ["tab_id", "id"];
    let k_pane_id = ["focused_pane_id", "pane_id"];
    let k_pane = ["pane_id", "id"];
    let k_pane_cwd = ["focused_pane_cwd"];
    let k_pane_cwds = ["foreground_cwd", "cwd"];
    let k_workspace_cwd = ["workspace_cwd"];
    let k_cwd = ["cwd"];
    assert(strs_view(k_workspace_id@) =~= seq!["workspace_id"@]);
    assert(strs_view(k_workspace@) =~= seq!["workspace_id"@, "id"@]);
    assert(strs_view(k_tab_id@) =~= seq!["tab_id"@]);
    assert(strs_view(k_tab@) =~= seq!["tab_id"@, "id"@]);
    assert(strs_view(k_pane_id@) =~= seq!["focused_pane_id"@, "pane_id"@]);
    assert(strs_view(k_pane@) =~= seq!["pane_id"@, "id"@]);
    assert(strs_view(k_pane_cwd@) =~= seq!["focused_pane_cwd"@]);
    assert(strs_view(k_pane_cwds@) =~= seq!["foreground_cwd"@, "cwd"@]);
    assert(strs_view(k_workspace_cwd@) =~= seq!["workspace_cwd"@]);
    assert(strs_view(k_cwd@) =~= seq!["cwd"@]);
    PluginContext {
        workspace_id: first_some(
            first_some(
                pick_string(parsed, &k_workspace_id),
                nested_string(parsed, "workspace", &k_workspace),
            ),
            non_empty_string(env_workspace_id),
        ),
        tab_id: first_some(
            first_some(pick_string(parsed, &k_tab_id), nested_string(parsed, "tab", &k_tab)),
            non_empty_string(env_tab_id),
        ),
        focused_pane_id: first_some(
            first_some(
                pick_string(parsed, &k_pane_id),
                nested_string(parsed, "focused_pane", &k_pane),
            ),
            non_empty_string(env_pane_id),
        ),
        focused_pane_cwd: first_some(
            pick_string(parsed, &k_pane_cwd),
            nested_string(parsed, "focused_pane", &k_pane_cwds),
        ),
        workspace_cwd: first_some(
            pick_string(parsed, &k_workspace_cwd),
            nested_string(parsed, "workspace", &k_cwd),
        ),
    }
}

/// The directory a run was invoked from: the focused pane's, else the workspace's, else the
/// process's own.
pub open spec fn spec_invoking_cwd(ctx: PluginContextView, process_cwd: Seq<char>) -> Seq<char> {
    match or_else(ctx.focused_pane_cwd, ctx.workspace_cwd) {
        Some(c) => c,
        None => process_cwd,
    }
}

fn clone_opt(o: &Option<String>) -> (r: Option<String>)
    ensures
        r.deep_view() == o.deep_view(),
{
    crate::model::clone_opt_string(o)
}

/// The directory a run was invoked from (see `spec_invoking_cwd`).
pub fn invoking_cwd(context: &PluginContext, process_cwd: String) -> (r: String)
    ensures
        r@ == spec_invoking_cwd(context@, process_cwd@),
{
    match first_some(clone_opt(&context.focused_pane_cwd), clone_opt(&context.workspace_cwd)) {
        Some(c) => c,
        None => process_cwd,
    }
}

/// The arguments naming a workspace, when there is one.
pub open spec fn workspace_args(ws: Option<Seq<char>>) -> Seq<Seq<char>> {
    match ws {
        Some(w) => seq!["--workspace"@, w],
        None => Seq::empty(),
    }
}

/// The view of a list of strings.
pub open spec fn args_view(v: Vec<String>) -> Seq<Seq<char>> {
    v.deep_view()
}

fn lit(s: &str) -> (r: String)
    ensures
        r@ == s@,
{
    String::from_str(s)
}

fn push_workspace(args: &mut Vec<String>, ws: &Option<String>)
    ensures
        final(args).deep_view() == old(args).deep_view() + workspace_args(ws.deep_view()),
{
    let ghost before = args.deep_view();
    match ws {
        Some(w) => {
            args.push(lit("--workspace"));
            args.push(w.clone());
        },
        None => {},
    }
    assert(args.deep_view() =~= before + workspace_args(ws.deep_view()));
}

/// `herdr <noun> list`, limited to the context's workspace when it names one.
pub fn list_args(noun: &str, context: &PluginContext) -> (r: Vec<String>)
    ensures
        r.deep_view() == seq![noun@, "list"@] + workspace_args(context@.workspace_id),
{
    let mut args: Vec<String> = Vec::new();
    args.push(lit(noun));
    args.push(lit("list"));
    assert(args.deep_view() =~= seq![noun@, "list"@]);
    push_workspace(&mut args, &context.workspace_id);
    args
}

/// `herdr pane process-info --pane <pane_id>`.
pub fn process_info_args(pane_id: &str) -> (r: Vec<String>)
    ensures
        r.deep_view() == seq!["pane"@, "process-info"@, "--pane"@, pane_id@],
{
    let mut args: Vec<String> = Vec::new();
    args.push(lit("pane"));
    args.push(lit("process-info"));
    args.push(lit("--pane"));
    args.push(lit(pane_id));
    assert(args.deep_view() =~= seq!["pane"@, "process-info"@, "--pane"@, pane_id@]);
    args
}

/// A workspace listing is usable when it has at least one tab and one pane.
pub fn check_listing(tabs: &[TabInfo], panes: &[PaneInfo]) -> (r: Result<(), String>)
    ensures
        match r {
            Ok(()) => tabs@.len() > 0 && panes@.len() > 0,
            Err(e) => if tabs@.len() == 0 {
                e@ == "No Herdr tabs found"@
            } else {
                panes@.len() == 0 && e@ == "No Herdr panes found"@
            },
        },
{
    if tabs.len() == 0 {
        return Err(lit("No Herdr tabs found"));
    }
    if panes.len() == 0 {
        return Err(lit("No Herdr panes found"));
    }
    Ok(())
}

/// Each of the first `n` panes mapped to the process information read for it, a later pane
/// with the same id replacing an earlier one.
pub open spec fn process_map_prefix(
    panes: Seq<PaneInfoView>,
    infos: Seq<PaneProcessInfoView>,
    n: nat,
) -> Map<Seq<char>, PaneProcessInfoView>
    decreases n,
{
    if n == 0 {
        Map::empty()
    } else {
        process_map_prefix(panes, infos, (n - 1) as nat).insert(panes[n - 1].pane_id, infos[n - 1])
    }
}

/// The processes of each pane, keyed by the pane's id: `infos[i]` is what Herdr reported for
/// `panes[i]`.
pub fn process_map(panes: &[PaneInfo], infos: &[PaneProcessInfo]) -> (r: ProcessMap)
    requires
        infos@.len() == panes@.len(),
    ensures
        r@ == process_map_prefix(panes.deep_view(), infos.deep_view(), panes@.len() as nat),
        forall|k: Seq<char>|
            r@.contains_key(k) <==> exists|i: int| 0 <= i < panes@.len() && #[trigger] panes.deep_view()[i].pane_id == k,
{
    let ghost pv = panes.deep_view();
    let ghost iv = infos.deep_view();
    let mut m = ProcessMap::new();
    let mut i: usize = 0;
    while i < panes.len()
        invariant
            i <= panes@.len(),
            infos@.len() == panes@.len(),
            pv == panes.deep_view(),
            iv == infos.deep_view(),
            m@ == process_map_prefix(pv, iv, i as nat),
            forall|k: Seq<char>| m@.contains_key(k) <==> exists|j: int| 0 <= j < i && #[trigger] pv[j].pane_id == k,
        decreases panes.len() - i,
    {
        assert(pv[i as int] == panes@[i as int]@);
        assert(iv[i as int] == infos@[i as int]@);
        let ghost before = m@;
        m.insert(panes[i].pane_id.clone(), infos[i].clone());
        assert forall|k: Seq<char>| m@.contains_key(k) <==> exists|j: int| 0 <= j < i + 1 && #[trigger] pv[j].pane_id == k by {
            if m@.contains_key(k) && k != pv[i as int].pane_id {
                assert(before.contains_key(k));
            }
            if exists|j: int| 0 <= j < i + 1 && #[trigger] pv[j].pane_id == k {
                let j = choose|j: int| 0 <= j < i + 1 && #[trigger] pv[j].pane_id == k;
                if j < i {
                    assert(before.contains_key(k));
                }
            }
        }
        i = i + 1;
    }
    m
}

/// The pane the run was invoked from: the pane the context names, else the focused pane.
pub open spec fn spec_current_pane(ctx: PluginContextView, panes: Seq<PaneInfoView>) -> Option<PaneInfoView> {
    let by_id = match ctx.focused_pane_id {
        Some(id) => first_index(panes, |p: PaneInfoView| p.pane_id == id),
        None => None,
    };
    match by_id {
        Some(i) => Some(panes[i]),
        None => match first_index(panes, |p: PaneInfoView| p.focused) {
            Some(i) => Some(panes[i]),
            None => None,
        },
    }
}

/// The id of the first focused tab.
pub open spec fn focused_tab_id(tabs: Seq<TabInfoView>) -> Option<Seq<char>> {
    match first_index(tabs, |t: TabInfoView| t.focused) {
        Some(i) => Some(tabs[i].tab_id),
        None => None,
    }
}

/// The workspace of the first tab with id `id`.
pub open spec fn tab_workspace(tabs: Seq<TabInfoView>, id: Option<Seq<char>>) -> Option<Seq<char>> {
    match id {
        Some(id) => match first_index(tabs, |t: TabInfoView| t.tab_id == id) {
            Some(i) => Some(tabs[i].workspace_id),
            None => None,
        },
        None => None,
    }
}

/// The snapshot built from the listings: the current pane, the tab to return focus to, the
/// directory new tabs start in, and the workspace they go to, each from the context first.
pub open spec fn spec_assemble_snapshot(
    ctx: PluginContextView,
    tabs: Seq<TabInfoView>,
    panes: Seq<PaneInfoView>,
    processes: Map<Seq<char>, crate::model::PaneProcessInfoView>,
    process_cwd: Seq<char>,
) -> SnapshotView {
    let current = spec_current_pane(ctx, panes);
    let original_tab_id = or_else(
        ctx.tab_id,
        or_else(
            focused_tab_id(tabs),
            match current {
                Some(p) => Some(p.tab_id),
                None => None,
            },
        ),
    );
    let active_cwd = match or_else(
        ctx.focused_pane_cwd,
        match current {
            Some(p) => or_else(p.foreground_cwd, p.cwd),
            None => None,
        },
    ) {
        Some(c) => c,
        None => process_cwd,
    };
    let workspace_id = or_else(
        ctx.workspace_id,
        or_else(
            match current {
                Some(p) => Some(p.workspace_id),
                None => None,
            },
            tab_workspace(tabs, original_tab_id),
        ),
    );
    SnapshotView {
        tabs,
        panes,
        processes,
        current_pane: current,
        original_tab_id,
        workspace_id,
        active_cwd,
    }
}

fn find_pane_by_id(panes: &Vec<PaneInfo>, id: &str) -> (r: Option<usize>)
    ensures
        match r {
            Some(i) => i < panes@.len() && first_index(panes.deep_view(), |p: PaneInfoView| p.pane_id == id@)
                == Some(i as int),
            None => first_index(panes.deep_view(), |p: PaneInfoView| p.pane_id == id@) == None::<int>,
        },
{
    let ghost pred = |p: PaneInfoView| p.pane_id == id@;
    let mut i: usize = 0;
    while i < panes.len()
        invariant
            i <= panes@.len(),
            pred == (|p: PaneInfoView| p.pane_id == id@),
            forall|j: int| 0 <= j < i ==> !pred(#[trigger] panes.deep_view()[j]),
        decreases panes.len() - i,
    {
        assert(panes.deep_view()[i as int] == panes@[i as int]@);
        if crate::text::str_eq(panes[i].pane_id.as_str(), id) {
            proof {
                lemma_first_index_at(panes.deep_view(), pred, i as int);
            }
            return Some(i);
        }
        i = i + 1;
    }
    proof {
        lemma_first_index_none(panes.deep_view(), pred);
    }
    None
}

fn find_focused_pane(panes: &Vec<PaneInfo>) -> (r: Option<usize>)
    ensures
        match r {
            Some(i) => i < panes@.len() && first_index(panes.deep_view(), |p: PaneInfoView| p.focused) == Some(
                i as int,
            ),
            None => first_index(panes.deep_view(), |p: PaneInfoView| p.focused) == None::<int>,
        },
{
    let ghost pred = |p: PaneInfoView| p.focused;
    let mut i: usize = 0;
    while i < panes.len()
        invariant
            i <= panes@.len(),
            pred == (|p: PaneInfoView| p.focused),
            forall|j: int| 0 <= j < i ==> !pred(#[trigger] panes.deep_view()[j]),
        decreases panes.len() - i,
    {
        assert(panes.deep_view()[i as int] == panes@[i as int]@);
        if panes[i].focused {
            proof {
                lemma_first_index_at(panes.deep_view(), pred, i as int);
            }
            return Some(i);
        }
        i = i + 1;
    }
    proof {
        lemma_first_index_none(panes.deep_view(), pred);
    }
    None
}

fn find_focused_tab(tabs: &Vec<TabInfo>) -> (r: Option<String>)
    ensures
        r.deep_view() == focused_tab_id(tabs.deep_view()),
{
    let ghost pred = |t: TabInfoView| t.focused;
    let mut i: usize = 0;
    while i < tabs.len()
        invariant
            i <= tabs@.len(),
            pred == (|t: TabInfoView| t.focused),
            forall|j: int| 0 <= j < i ==> !pred(#[trigger] tabs.deep_view()[j]),
        decreases tabs.len() - i,
    {
        assert(tabs.deep_view()[i as int] == tabs@[i as int]@);
        if tabs[i].focused {
            proof {
                lemma_first_index_at(tabs.deep_view(), pred, i as int);
            }
            return Some(tabs[i].tab_id.clone());
        }
        i = i + 1;
    }
    proof {
        lemma_first_index_none(tabs.deep_view(), pred);
    }
    None
}

fn find_tab_workspace(tabs: &Vec<TabInfo>, id: &Option<String>) -> (r: Option<String>)
    ensures
        r.deep_view() == tab_workspace(tabs.deep_view(), id.deep_view()),
{
    let want = match id {
        Some(w) => w,
        None => return None,
    };
    let ghost pred = |t: TabInfoView| t.tab_id == want@;
    let mut i: usize = 0;
    while i < tabs.len()
        invariant
            i <= tabs@.len(),
            pred == (|t: TabInfoView| t.tab_id == want@),
            id.deep_view() == Some(want@),
            forall|j: int| 0 <= j < i ==> !pred(#[trigger] tabs.deep_view()[j]),
        decreases tabs.len() - i,
    {
        assert(tabs.deep_view()[i as int] == tabs@[i as int]@);
        if crate::text::str_eq(tabs[i].tab_id.as_str(), want.as_str()) {
            proof {
                lemma_first_index_at(tabs.deep_view(), pred, i as int);
            }
            return Some(tabs[i].workspace_id.clone());
        }
        i = i + 1;
    }
    proof {
        lemma_first_index_none(tabs.deep_view(), pred);
    }
    None
}

/// The snapshot built from Herdr's listings (see `spec_assemble_snapshot`).
pub fn assemble_snapshot(
    context: &PluginContext,
    tabs: Vec<TabInfo>,
    panes: Vec<PaneInfo>,
    processes: ProcessMap,
    process_cwd: String,
) -> (r: Snapshot)
    ensures
        r@ == spec_assemble_snapshot(
            context@,
            tabs.deep_view(),
            panes.deep_view(),
            processes@,
            process_cwd@,
        ),
{
    let by_id = match &context.focused_pane_id {
        Some(id) => find_pane_by_id(&panes, id.as_str()),
        None => None,
    };
    let idx = match by_id {
        Some(i) => Some(i),
        None => find_focused_pane(&panes),
    };
    let current_pane = match idx {
        Some(i) => {
            assert(panes.deep_view()[i as int] == panes@[i as int]@);
            Some(panes[i].clone())
        },
        None => None,
    };
    let current_tab = match &current_pane {
        Some(p) => Some(p.tab_id.clone()),
        None => None,
    };
    let original_tab_id = first_some(
        clone_opt(&context.tab_id),
        first_some(find_focused_tab(&tabs), current_tab),
    );
    let pane_cwd = match &current_pane {
        Some(p) => first_some(clone_opt(&p.foreground_cwd), clone_opt(&p.cwd)),
        None => None,
    };
    let active_cwd = match first_some(clone_opt(&context.focused_pane_cwd), pane_cwd) {
        Some(c) => c,
        None => process_cwd,
    };
    let pane_workspace = match &current_pane {
        Some(p) => Some(p.workspace_id.clone()),
        None => None,
    };
    let workspace_id = first_some(
        clone_opt(&context.workspace_id),
        first_some(pane_workspace, find_tab_workspace(&tabs, &original_tab_id)),
    );
    Snapshot { tabs, panes, processes, current_pane, original_tab_id, workspace_id, active_cwd }
}

/// A `herdr` invocation that applying an operation makes: a command whose output is not
/// read, or `tab create` whose reply names the root pane that then runs `command`.
#[derive(Debug, PartialEq, Eq)]
pub enum HerdrCall {
    Run(Vec<String>),
    CreateTab { create: Vec<String>, command: String },
}

pub enum HerdrCallView {
    Run(Seq<Seq<char>>),
    CreateTab { create: Seq<Seq<char>>, command: Seq<char> },
}

impl View for HerdrCall {
    type V = HerdrCallView;

    open spec fn view(&self) -> HerdrCallView {
        match self {
            HerdrCall::Run(args) => HerdrCallView::Run(args.deep_view()),
            HerdrCall::CreateTab { create, command } => HerdrCallView::CreateTab {
                create: create.deep_view(),
                command: command@,
            },
        }
    }
}

impl DeepView for HerdrCall {
    type V = HerdrCallView;

    open spec fn deep_view(&self) -> HerdrCallView {
        self.view()
    }
}

/// `herdr pane run <pane_id> <command>`.
pub open spec fn spec_run_args(pane_id: Seq<char>, command: Seq<char>) -> Seq<Seq<char>> {
    seq!["pane"@, "run"@, pane_id, command]
}

/// `herdr tab rename <tab_id> <label>`.
pub open spec fn spec_rename_args(tab_id: Seq<char>, label: Seq<char>) -> Seq<Seq<char>> {
    seq!["tab"@, "rename"@, tab_id, label]
}

/// `herdr tab create`, in the snapshot's workspace when known, in its active directory,
/// labelled, without taking focus.
pub open spec fn spec_create_tab_args(snap: SnapshotView, label: Seq<char>) -> Seq<Seq<char>> {
    seq!["tab"@, "create"@] + workspace_args(snap.workspace_id) + seq![
        "--cwd"@,
        snap.active_cwd,
        "--label"@,
        label,
        "--no-focus"@,
    ]
}

/// The `herdr` invocations that carry out an operation, in order.
pub open spec fn spec_operation_calls(op: OperationView, snap: SnapshotView) -> Seq<HerdrCallView> {
    match op {
        OperationView::AlreadyRunning { .. } => Seq::empty(),
        OperationView::RenameCurrent { target, tab_id, .. } => seq![
            HerdrCallView::Run(spec_rename_args(tab_id, target.label)),
        ],
        OperationView::ClaimCurrent { target, pane_id, tab_id } => seq![
            HerdrCallView::Run(spec_rename_args(tab_id, target.label)),
            HerdrCallView::Run(spec_run_args(pane_id, target.command)),
        ],
        OperationView::RunExisting { target, pane_id, .. } => seq![
            HerdrCallView::Run(spec_run_args(pane_id, target.command)),
        ],
        OperationView::CreateTab { target } => seq![
            HerdrCallView::CreateTab {
                create: spec_create_tab_args(snap, target.label),
                command: target.command,
            },
        ],
    }
}

/// `herdr pane run <pane_id> <command>`.
pub fn run_args(pane_id: &str, command: &str) -> (r: Vec<String>)
    ensures
        r.deep_view() == spec_run_args(pane_id@, command@),
{
    let mut args: Vec<String> = Vec::new();
    args.push(lit("pane"));
    args.push(lit("run"));
    args.push(lit(pane_id));
    args.push(lit(command));
    assert(args.deep_view() =~= spec_run_args(pane_id@, command@));
    args
}

fn rename_args(tab_id: &str, label: &str) -> (r: Vec<String>)
    ensures
        r.deep_view() == spec_rename_args(tab_id@, label@),
{
    let mut args: Vec<String> = Vec::new();
    args.push(lit("tab"));
    args.push(lit("rename"));
    args.push(lit(tab_id));
    args.push(lit(label));
    assert(args.deep_view() =~= spec_rename_args(tab_id@, label@));
    args
}

/// `herdr tab focus <tab_id>`.
pub fn focus_tab_args(tab_id: &str) -> (r: Vec<String>)
    ensures
        r.deep_view() == seq!["tab"@, "focus"@, tab_id@],
{
    let mut args: Vec<String> = Vec::new();
    args.push(lit("tab"));
    args.push(lit("focus"));
    args.push(lit(tab_id));
    assert(args.deep_view() =~= seq!["tab"@, "focus"@, tab_id@]);
    args
}

/// The Herdr notification that shows `message` to the user.
pub fn notification_args(message: &str) -> (r: Vec<String>)
    ensures
        r.deep_view() == seq![
            "notification"@,
            "show"@,
            "Herdr Layout"@,
            "--body"@,
            message@,
            "--position"@,
            "top-right"@,
            "--sound"@,
            "request"@,
        ],
{
    let mut args: Vec<String> = Vec::new();
    args.push(lit("notification"));
    args.push(lit("show"));
    args.push(lit("Herdr Layout"));
    args.push(lit("--body"));
    args.push(lit(message));
    args.push(lit("--position"));
    args.push(lit("top-right"));
    args.push(lit("--sound"));
    args.push(lit("request"));
    assert(args.deep_view() =~= seq![
        "notification"@,
        "show"@,
        "Herdr Layout"@,
        "--body"@,
        message@,
        "--position"@,
        "top-right"@,
        "--sound"@,
        "request"@,
    ]);
    args
}

/// The `herdr` invocations that carry out `op` (see `spec_operation_calls`).
pub fn operation_calls(op: &Operation, snapshot: &Snapshot) -> (r: Vec<HerdrCall>)
    ensures
        r.deep_view() == spec_operation_calls(op@, snapshot@),
{
    let mut calls: Vec<HerdrCall> = Vec::new();
    match op {
        Operation::AlreadyRunning { .. } => {},
        Operation::RenameCurrent { target, tab_id, .. } => {
            calls.push(HerdrCall::Run(rename_args(tab_id.as_str(), target.label.as_str())));
        },
        Operation::ClaimCurrent { target, pane_id, tab_id } => {
            calls.push(HerdrCall::Run(rename_args(tab_id.as_str(), target.label.as_str())));
            calls.push(HerdrCall::Run(run_args(pane_id.as_str(), target.command.as_str())));
        },
        Operation::RunExisting { target, pane_id, .. } => {
            calls.push(HerdrCall::Run(run_args(pane_id.as_str(), target.command.as_str())));
        },
        Operation::CreateTab { target } => {
            let mut args: Vec<String> = Vec::new();
            args.push(lit("tab"));
            args.push(lit("create"));
            assert(args.deep_view() =~= seq!["tab"@, "create"@]);
            push_workspace(&mut args, &snapshot.workspace_id);
            let ghost mid = args.deep_view();
            args.push(lit("--cwd"));
            args.push(snapshot.active_cwd.clone());
            args.push(lit("--label"));
            args.push(target.label.clone());
            args.push(lit("--no-focus"));
            assert(args.deep_view() =~= mid + seq![
                "--cwd"@,
                snapshot.active_cwd@,
                "--label"@,
                target.label@,
                "--no-focus"@,
            ]);
            calls.push(HerdrCall::CreateTab { create: args, command: target.command.clone() });
        },
    }
    assert(calls.deep_view() =~= spec_operation_calls(op@, snapshot@));
    calls
}

/// The words of `args` joined by single spaces.
pub open spec fn join_words(args: Seq<Seq<char>>) -> Seq<char>
    decreases args.len(),
{
    if args.len() == 0 {
        Seq::empty()
    } else if args.len() == 1 {
        args[0]
    } else {
        join_words(args.drop_last()) + " "@ + args.last()
    }
}

/// How a `herdr` invocation is shown in messages: `herdr` and its arguments.
pub fn herdr_command_text(args: &[String]) -> (r: String)
    ensures
        r@ == "herdr "@ + join_words(args.deep_view()),
{
    let ghost a = args.deep_view();
    let mut joined = String::new();
    let mut i: usize = 0;
    while i < args.len()
        invariant
            i <= args@.len(),
            a == args.deep_view(),
            joined@ == join_words(a.take(i as int)),
        decreases args.len() - i,
    {
        let ghost before = joined@;
        if i > 0 {
            joined.append(" ");
        }
        joined.append(args[i].as_str());
        proof {
            let t = a.take(i + 1);
            assert(t.drop_last() =~= a.take(i as int));
            assert(t.last() == args@[i as int]@);
            if i == 0 {
                assert(joined@ =~= t[0]);
            }
        }
        i = i + 1;
    }
    assert(a.take(args@.len() as int) =~= a);
    let mut r = lit("herdr ");
    r.append(joined.as_str());
    r
}

/// How many times a failed `herdr` invocation is retried.
pub const HERDR_RETRIES: usize = 3;

/// What to do after one attempt at a `herdr` invocation.
#[derive(Debug, PartialEq, Eq)]
pub enum HerdrOutcome {
    Retry,
    Fail(String),
    Output(String),
}

pub enum HerdrOutcomeView {
    Retry,
    Fail(Seq<char>),
    Output(Seq<char>),
}

impl View for HerdrOutcome {
    type V = HerdrOutcomeView;

    open spec fn view(&self) -> HerdrOutcomeView {
        match self {
            HerdrOutcome::Retry => HerdrOutcomeView::Retry,
            HerdrOutcome::Fail(m) => HerdrOutcomeView::Fail(m@),
            HerdrOutcome::Output(o) => HerdrOutcomeView::Output(o@),
        }
    }
}

/// An attempt is worth repeating when it failed on a broken pipe, or when output was
/// expected and none came.
pub open spec fn spec_should_retry(status_success: bool, expect_json: bool, stdout: Seq<char>, stderr: Seq<char>) -> bool {
    ||| !status_success && (contains_seq(stderr, "BrokenPipe"@) || contains_seq(stdout, "BrokenPipe"@)
        || contains_seq(stderr, "code: 232"@) || contains_seq(stdout, "code: 232"@))
    ||| expect_json && status_success && trim(stdout).len() == 0
}

/// Whether an attempt is worth repeating (see `spec_should_retry`).
pub fn should_retry_herdr_output(status_success: bool, expect_json: bool, stdout: &str, stderr: &str) -> (r: bool)
    ensures
        r == spec_should_retry(status_success, expect_json, stdout@, stderr@),
{
    let broken = !status_success && (str_contains(stderr, "BrokenPipe") || str_contains(stdout, "BrokenPipe")
        || str_contains(stderr, "code: 232") || str_contains(stdout, "code: 232"));
    if broken {
        return true;
    }
    if expect_json && status_success {
        let c = chars_of(stdout);
        let t = trim_chars(&c);
        return t.len() == 0;
    }
    false
}

/// What a finished attempt means: a retry while attempts remain and it is worth repeating;
/// a failure carrying the first non-empty of stderr, stdout or the exit code; a failure when
/// output was expected and none came; otherwise its output.
pub open spec fn spec_attempt_outcome(
    command: Seq<char>,
    attempt: int,
    success: bool,
    exit_code: Option<i32>,
    expect_json: bool,
    stdout: Seq<char>,
    stderr: Seq<char>,
) -> HerdrOutcomeView {
    if spec_should_retry(success, expect_json, stdout, stderr) && attempt < HERDR_RETRIES {
        HerdrOutcomeView::Retry
    } else if !success {
        let code: int = match exit_code {
            Some(c) => c as int,
            None => -1,
        };
        let detail = if stderr.len() > 0 {
            stderr
        } else if stdout.len() > 0 {
            stdout
        } else {
            command + " failed with exit "@ + signed_decimal(code)
        };
        HerdrOutcomeView::Fail(command + ": "@ + trim(detail))
    } else if expect_json && trim(stdout).len() == 0 {
        HerdrOutcomeView::Fail(command + " returned empty output"@)
    } else {
        HerdrOutcomeView::Output(stdout)
    }
}

/// What a finished attempt means (see `spec_attempt_outcome`).
pub fn attempt_outcome(
    command: &str,
    attempt: usize,
    success: bool,
    exit_code: Option<i32>,
    expect_json: bool,
    stdout: String,
    stderr: String,
) -> (r: HerdrOutcome)
    ensures
        r@ == spec_attempt_outcome(command@, attempt as int, success, exit_code, expect_json, stdout@, stderr@),
{
    if should_retry_herdr_output(success, expect_json, stdout.as_str(), stderr.as_str()) && attempt < HERDR_RETRIES {
        return HerdrOutcome::Retry;
    }
    if !success {
        let detail = if !stderr.as_str().is_empty() {
            stderr
        } else if !stdout.as_str().is_empty() {
            stdout
        } else {
            let code: i32 = match exit_code {
                Some(c) => c,
                None => -1,
            };
            let mut d = lit(command);
            d.append(" failed with exit ");
            let digits = i64_decimal(code as i64);
            d.append(digits.as_str());
            d
        };
        let dc = chars_of(detail.as_str());
        let dt = trim_chars(&dc);
        let trimmed = crate::text::string_from_chars(&dt);
        let mut m = lit(command);
        m.append(": ");
        m.append(trimmed.as_str());
        return HerdrOutcome::Fail(m);
    }
    if expect_json {
        let c = chars_of(stdout.as_str());
        let t = trim_chars(&c);
        if t.len() == 0 {
            let mut m = lit(command);
            m.append(" returned empty output");
            return HerdrOutcome::Fail(m);
        }
    }
    HerdrOutcome::Output(stdout)
}

/// What a `herdr` invocation that could not start means: a retry while attempts remain and
/// the error mentions a broken pipe, else a failure.
pub open spec fn spec_spawn_failure(command: Seq<char>, error: Seq<char>, attempt: int) -> HerdrOutcomeView {
    let m = command + " failed to start: "@ + error;
    if attempt < HERDR_RETRIES && contains_seq(m, "BrokenPipe"@) {
        HerdrOutcomeView::Retry
    } else {
        HerdrOutcomeView::Fail(m)
    }
}

/// What a `herdr` invocation that could not start means (see `spec_spawn_failure`).
pub fn spawn_failure_outcome(command: &str, error: &str, attempt: usize) -> (r: HerdrOutcome)
    ensures
        r@ == spec_spawn_failure(command@, error@, attempt as int),
{
    let mut m = lit(command);
    m.append(" failed to start: ");
    m.append(error);
    if attempt < HERDR_RETRIES && str_contains(m.as_str(), "BrokenPipe") {
        HerdrOutcome::Retry
    } else {
        HerdrOutcome::Fail(m)
    }
}

} // verus!
