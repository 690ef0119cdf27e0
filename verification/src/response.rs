//! Herdr's JSON replies: the values they hold and how tabs, panes and processes are read
//! from them.
use vstd::prelude::*;
use vstd::string::StringExecFns;
use crate::text::str_eq;
use crate::model::{
    PaneInfo, PaneInfoView, PaneProcess, PaneProcessInfo, PaneProcessInfoView, PaneProcessView,
    TabInfo, TabInfoView,
};
use crate::search::{first_index, lemma_first_index_at, lemma_first_index_none};

verus! {

/// A JSON value. Object keys are distinct, in the order the parser keeps them.
#[derive(Debug, PartialEq, Eq)]
pub enum Json {
    Null,
    Bool(bool),
    Number(String),
    String(String),
    Array(Vec<Json>),
    Object(Vec<(String, Json)>),
}

/// `serde_json::Value`, the parser's own form of a JSON document.
#[verifier::external_type_specification]
#[verifier::external_body]
pub struct ExJsonValue(serde_json::Value);

/// What `serde_json::from_str::<serde_json::Value>` makes of a text, read into `Json`: the
/// document, or the parser's error message.
pub uninterp spec fn json_parse(text: Seq<char>) -> Result<Json, Seq<char>>;

/// Calls `serde_json::from_str::<serde_json::Value>` on `text` and reads the value into
/// `Json`; a parse error becomes its message. The result is named by `json_parse` of the
/// text; nothing more is claimed of it.
#[verifier::external_body]
pub fn parse_json(text: &str) -> (r: Result<Json, String>)
    ensures
        match json_parse(text@) {
            Ok(j) => r == Ok::<Json, String>(j),
            Err(e) => r matches Err(m) && m@ == e,
        },
{
    match serde_json::from_str::<serde_json::Value>(text) {
        Ok(value) => Ok(json_from_value(&value)),
        Err(error) => Err(error.to_string()),
    }
}

/// Reads a `serde_json::Value` into `Json`, one variant for one; a number keeps its text.
#[verifier::external_body]
fn json_from_value(value: &serde_json::Value) -> Json {
    match value {
        serde_json::Value::Null => Json::Null,
        serde_json::Value::Bool(b) => Json::Bool(*b),
        serde_json::Value::Number(n) => Json::Number(n.to_string()),
        serde_json::Value::String(s) => Json::String(s.clone()),
        serde_json::Value::Array(items) => Json::Array(items.iter().map(json_from_value).collect()),
        serde_json::Value::Object(map) => Json::Object(
            map.iter().map(|(k, v)| (k.clone(), json_from_value(v))).collect(),
        ),
    }
}

/// The plugin context record: the JSON text Herdr passed, when it is present, parses, and is
/// an object; an empty object otherwise.
pub fn parse_plugin_context(raw: Option<&str>) -> (r: Json)
    ensures
        match raw {
            Some(t) => match json_parse(t@) {
                Ok(v) => if v is Object {
                    r == v
                } else {
                    r matches Json::Object(o) && o@.len() == 0
                },
                Err(_) => r matches Json::Object(o) && o@.len() == 0,
            },
            None => r matches Json::Object(o) && o@.len() == 0,
        },
{
    match raw {
        Some(t) => match parse_json(t) {
            Ok(v) => match v {
                Json::Object(_) => v,
                _ => Json::Object(Vec::new()),
            },
            Err(_) => Json::Object(Vec::new()),
        },
        None => Json::Object(Vec::new()),
    }
}

/// The members of an object.
pub open spec fn as_object(j: Json) -> Option<Seq<(String, Json)>> {
    match j {
        Json::Object(o) => Some(o@),
        _ => None,
    }
}

/// The items of an array.
pub open spec fn as_array(j: Json) -> Option<Seq<Json>> {
    match j {
        Json::Array(a) => Some(a@),
        _ => None,
    }
}

/// The text of a string.
pub open spec fn as_str(j: Json) -> Option<Seq<char>> {
    match j {
        Json::String(s) => Some(s@),
        _ => None,
    }
}

/// The value of a boolean.
pub open spec fn as_bool(j: Json) -> Option<bool> {
    match j {
        Json::Bool(b) => Some(b),
        _ => None,
    }
}

/// The value of member `key`.
pub open spec fn obj_get(o: Seq<(String, Json)>, key: Seq<char>) -> Option<Json> {
    match first_index(o, |e: (String, Json)| e.0@ == key) {
        Some(i) => Some(o[i].1),
        None => None,
    }
}

/// The object held by member `key`.
pub open spec fn get_object(o: Seq<(String, Json)>, key: Seq<char>) -> Option<Seq<(String, Json)>> {
    match obj_get(o, key) {
        Some(v) => as_object(v),
        None => None,
    }
}

/// The array held by member `key`.
pub open spec fn get_array(o: Seq<(String, Json)>, key: Seq<char>) -> Option<Seq<Json>> {
    match obj_get(o, key) {
        Some(v) => as_array(v),
        None => None,
    }
}

/// A string value that is not empty.
pub open spec fn spec_optional_json_string(v: Option<Json>) -> Option<Seq<char>> {
    match v {
        Some(Json::String(s)) => if s@.len() > 0 {
            Some(s@)
        } else {
            None
        },
        _ => None,
    }
}

/// Member `key` is true.
pub open spec fn flag(o: Seq<(String, Json)>, key: Seq<char>) -> bool {
    match obj_get(o, key) {
        Some(v) => as_bool(v) == Some(true),
        None => false,
    }
}

/// A reply refused with the message `m`.
pub open spec fn msg<T>(m: Seq<char>) -> Result<T, Seq<char>> {
    Err(m)
}

/// What `serde_json::Value::to_string` prints for the object with these members: its
/// compact JSON text.
pub uninterp spec fn json_object_text(members: Seq<(String, Json)>) -> Seq<char>;

/// Builds the `serde_json::Value` object with these members and prints it with
/// `serde_json::Value::to_string`; the text is named by `json_object_text` of the members.
#[verifier::external_body]
pub fn render_json_object(members: Vec<(String, Json)>) -> (r: String)
    ensures
        r@ == json_object_text(members@),
{
    serde_json::Value::Object(members.into_iter().map(|(k, v)| (k, json_to_value(v))).collect()).to_string()
}

/// Reads a `Json` back into a `serde_json::Value`, one variant for one; a number is read back
/// from the text it printed as.
#[verifier::external_body]
fn json_to_value(value: Json) -> serde_json::Value {
    match value {
        Json::Null => serde_json::Value::Null,
        Json::Bool(b) => serde_json::Value::Bool(b),
        Json::Number(text) => match text.parse::<serde_json::Number>() {
            Ok(n) => serde_json::Value::Number(n),
            Err(_) => serde_json::Value::Null,
        },
        Json::String(s) => serde_json::Value::String(s),
        Json::Array(items) => serde_json::Value::Array(items.into_iter().map(json_to_value).collect()),
        Json::Object(members) => serde_json::Value::Object(
            members.into_iter().map(|(k, v)| (k, json_to_value(v))).collect(),
        ),
    }
}

/// Member `key` as a string, or an error naming `owner.key`.
pub open spec fn spec_read_string_obj(o: Seq<(String, Json)>, key: Seq<char>, owner: Seq<char>) -> Result<
    Seq<char>,
    Seq<char>,
> {
    match obj_get(o, key) {
        Some(v) => match as_str(v) {
            Some(s) => Ok(s),
            None => msg(owner + "."@ + key + " must be string"@),
        },
        None => msg(owner + "."@ + key + " must be string"@),
    }
}

/// The `result` object of a reply of type `result_type`: a reply that is not an object, holds
/// an `error` object, has no `result` object, or whose result `type` (empty when absent)
/// differs, is refused.
pub open spec fn spec_expect_result(response: Json, result_type: Seq<char>) -> Result<
    Seq<(String, Json)>,
    Seq<char>,
> {
    match as_object(response) {
        None => msg("Herdr response must be object"@),
        Some(resp) => match get_object(resp, "error"@) {
            Some(err) => match spec_optional_json_string(obj_get(err, "message"@)) {
                Some(m) => msg(m),
                None => Err(json_object_text(err)),
            },
            None => match get_object(resp, "result"@) {
                None => msg("Herdr response missing result"@),
                Some(result) => {
                    let found = match obj_get(result, "type"@) {
                        Some(v) => match as_str(v) {
                            Some(s) => s,
                            None => Seq::empty(),
                        },
                        None => Seq::empty(),
                    };
                    if found != result_type {
                        msg("Expected Herdr result "@ + result_type + ", got "@ + found)
                    } else {
                        Ok(result)
                    }
                },
            },
        },
    }
}

/// A tab entry: an object with string `tab_id`, `workspace_id`, `label`.
pub open spec fn spec_parse_tab_info(raw: Json) -> Result<TabInfoView, Seq<char>> {
    match as_object(raw) {
        None => msg("tab info must be object"@),
        Some(o) => match spec_read_string_obj(o, "tab_id"@, "tab"@) {
            Err(e) => Err(e),
            Ok(tab_id) => match spec_read_string_obj(o, "workspace_id"@, "tab"@) {
                Err(e) => Err(e),
                Ok(workspace_id) => match spec_read_string_obj(o, "label"@, "tab"@) {
                    Err(e) => Err(e),
                    Ok(label) => Ok(
                        TabInfoView { tab_id, workspace_id, label, focused: flag(o, "focused"@) },
                    ),
                },
            },
        },
    }
}

/// A pane entry: an object with string `pane_id`, `workspace_id`, `tab_id`; `cwd`,
/// `foreground_cwd` and `agent` when they are non-empty strings.
pub open spec fn spec_parse_pane_info(raw: Json) -> Result<PaneInfoView, Seq<char>> {
    match as_object(raw) {
        None => msg("pane info must be object"@),
        Some(o) => match spec_read_string_obj(o, "pane_id"@, "pane"@) {
            Err(e) => Err(e),
            Ok(pane_id) => match spec_read_string_obj(o, "workspace_id"@, "pane"@) {
                Err(e) => Err(e),
                Ok(workspace_id) => match spec_read_string_obj(o, "tab_id"@, "pane"@) {
                    Err(e) => Err(e),
                    Ok(tab_id) => Ok(
                        PaneInfoView {
                            pane_id,
                            workspace_id,
                            tab_id,
                            focused: flag(o, "focused"@),
                            cwd: spec_optional_json_string(obj_get(o, "cwd"@)),
                            foreground_cwd: spec_optional_json_string(obj_get(o, "foreground_cwd"@)),
                            agent: spec_optional_json_string(obj_get(o, "agent"@)),
                        },
                    ),
                },
            },
        },
    }
}

/// A process entry: an object with a string `name`, and `argv0` when it is a non-empty string.
pub open spec fn spec_parse_pane_process(raw: Json) -> Result<PaneProcessView, Seq<char>> {
    match as_object(raw) {
        None => msg("process info must be object"@),
        Some(o) => match spec_read_string_obj(o, "name"@, "process"@) {
            Err(e) => Err(e),
            Ok(name) => Ok(
                PaneProcessView { name, argv0: spec_optional_json_string(obj_get(o, "argv0"@)) },
            ),
        },
    }
}

/// The first `n` items, each read by `f`; the first failure is the result.
pub open spec fn collect_prefix<T>(
    items: Seq<Json>,
    f: spec_fn(Json) -> Result<T, Seq<char>>,
    n: nat,
) -> Result<Seq<T>, Seq<char>>
    decreases n,
{
    if n == 0 {
        Ok(Seq::empty())
    } else {
        match collect_prefix(items, f, (n - 1) as nat) {
            Err(e) => Err(e),
            Ok(prev) => match f(items[n - 1]) {
                Err(e) => Err(e),
                Ok(t) => Ok(prev.push(t)),
            },
        }
    }
}

/// All items read by `f`, or the first failure.
pub open spec fn collect_all<T>(items: Seq<Json>, f: spec_fn(Json) -> Result<T, Seq<char>>) -> Result<
    Seq<T>,
    Seq<char>,
> {
    collect_prefix(items, f, items.len())
}

/// Once reading fails, it stays failed with the same error.
pub proof fn lemma_collect_error<T>(
    items: Seq<Json>,
    f: spec_fn(Json) -> Result<T, Seq<char>>,
    n: nat,
    m: nat,
    e: Seq<char>,
)
    requires
        n <= m,
        collect_prefix(items, f, n) == Err::<Seq<T>, Seq<char>>(e),
    ensures
        collect_prefix(items, f, m) == Err::<Seq<T>, Seq<char>>(e),
    decreases m,
{
    if m > n {
        lemma_collect_error(items, f, n, (m - 1) as nat, e);
    }
}

/// The tabs of a `tab list` reply.
pub open spec fn spec_parse_tab_list(response: Json) -> Result<Seq<TabInfoView>, Seq<char>> {
    match spec_expect_result(response, "tab_list"@) {
        Err(e) => Err(e),
        Ok(result) => match get_array(result, "tabs"@) {
            None => msg("herdr tab list: tabs missing"@),
            Some(items) => collect_all(items, |j: Json| spec_parse_tab_info(j)),
        },
    }
}

/// The panes of a `pane list` reply.
pub open spec fn spec_parse_pane_list(response: Json) -> Result<Seq<PaneInfoView>, Seq<char>> {
    match spec_expect_result(response, "pane_list"@) {
        Err(e) => Err(e),
        Ok(result) => match get_array(result, "panes"@) {
            None => msg("herdr pane list: panes missing"@),
            Some(items) => collect_all(items, |j: Json| spec_parse_pane_info(j)),
        },
    }
}

/// The process information of a `pane process-info` reply; a missing or non-array
/// `foreground_processes` means none.
pub open spec fn spec_parse_process_info(response: Json) -> Result<PaneProcessInfoView, Seq<char>> {
    match spec_expect_result(response, "pane_process_info"@) {
        Err(e) => Err(e),
        Ok(result) => match get_object(result, "process_info"@) {
            None => msg("herdr pane process-info: process_info missing"@),
            Some(info) => {
                let items = match get_array(info, "foreground_processes"@) {
                    Some(a) => a,
                    None => Seq::empty(),
                };
                match spec_read_string_obj(info, "pane_id"@, "process_info"@) {
                    Err(e) => Err(e),
                    Ok(pane_id) => match collect_all(items, |j: Json| spec_parse_pane_process(j)) {
                        Err(e) => Err(e),
                        Ok(procs) => Ok(PaneProcessInfoView { pane_id, foreground_processes: procs }),
                    },
                }
            },
        },
    }
}

/// The root pane of a `tab create` reply.
pub open spec fn spec_parse_created_root_pane(response: Json) -> Result<PaneInfoView, Seq<char>> {
    match spec_expect_result(response, "tab_created"@) {
        Err(e) => Err(e),
        Ok(result) => match obj_get(result, "root_pane"@) {
            None => msg("herdr tab create: root_pane missing"@),
            Some(root) => spec_parse_pane_info(root),
        },
    }
}

/// The view of a reading result.
pub open spec fn res_view<T: View>(r: Result<T, String>) -> Result<T::V, Seq<char>> {
    match r {
        Ok(t) => Ok(t@),
        Err(e) => Err(e@),
    }
}

/// The view of a reading result that yields a list.
pub open spec fn res_seq_view<T: DeepView>(r: Result<Vec<T>, String>) -> Result<Seq<T::V>, Seq<char>> {
    match r {
        Ok(t) => Ok(t.deep_view()),
        Err(e) => Err(e@),
    }
}

fn message(m: &str) -> (r: String)
    ensures
        r@ == m@,
{
    String::from_str(m)
}

/// The value of member `key`.
pub fn json_get<'a>(o: &'a Vec<(String, Json)>, key: &str) -> (r: Option<&'a Json>)
    ensures
        match r {
            Some(v) => obj_get(o@, key@) == Some(*v),
            None => obj_get(o@, key@) == None::<Json>,
        },
{
    let ghost pred = |e: (String, Json)| e.0@ == key@;
    let mut i: usize = 0;
    while i < o.len()
        invariant
            i <= o@.len(),
            pred == (|e: (String, Json)| e.0@ == key@),
            forall|j: int| 0 <= j < i ==> !pred(#[trigger] o@[j]),
        decreases o.len() - i,
    {
        if str_eq(o[i].0.as_str(), key) {
            proof {
                lemma_first_index_at(o@, pred, i as int);
            }
            return Some(&o[i].1);
        }
        i = i + 1;
    }
    proof {
        lemma_first_index_none(o@, pred);
    }
    None
}

/// The index of member `key`.
fn member_index(o: &Vec<(String, Json)>, key: &str) -> (r: Option<usize>)
    ensures
        match r {
            Some(i) => i < o@.len() && first_index(o@, |e: (String, Json)| e.0@ == key@) == Some(i as int),
            None => first_index(o@, |e: (String, Json)| e.0@ == key@) == None::<int>,
        },
{
    let ghost pred = |e: (String, Json)| e.0@ == key@;
    let mut i: usize = 0;
    while i < o.len()
        invariant
            i <= o@.len(),
            pred == (|e: (String, Json)| e.0@ == key@),
            forall|j: int| 0 <= j < i ==> !pred(#[trigger] o@[j]),
        decreases o.len() - i,
    {
        if str_eq(o[i].0.as_str(), key) {
            proof {
                lemma_first_index_at(o@, pred, i as int);
            }
            return Some(i);
        }
        i = i + 1;
    }
    proof {
        lemma_first_index_none(o@, pred);
    }
    None
}

/// Takes out the object held by member `key`.
fn take_object(o: Vec<(String, Json)>, key: &str) -> (r: Option<Vec<(String, Json)>>)
    ensures
        match r {
            Some(v) => get_object(o@, key@) == Some(v@),
            None => get_object(o@, key@) == None::<Seq<(String, Json)>>,
        },
{
    let ghost before = o@;
    match member_index(&o, key) {
        Some(i) => {
            let mut o = o;
            let (_, v) = o.remove(i);
            assert(v == before[i as int].1);
            match v {
                Json::Object(m) => Some(m),
                _ => None,
            }
        },
        None => None,
    }
}

/// Takes out the array held by member `key`.
fn take_array(o: Vec<(String, Json)>, key: &str) -> (r: Option<Vec<Json>>)
    ensures
        match r {
            Some(v) => get_array(o@, key@) == Some(v@),
            None => get_array(o@, key@) == None::<Seq<Json>>,
        },
{
    let ghost before = o@;
    match member_index(&o, key) {
        Some(i) => {
            let mut o = o;
            let (_, v) = o.remove(i);
            assert(v == before[i as int].1);
            match v {
                Json::Array(a) => Some(a),
                _ => None,
            }
        },
        None => None,
    }
}

fn json_flag(o: &Vec<(String, Json)>, key: &str) -> (r: bool)
    ensures
        r == flag(o@, key@),
{
    match json_get(o, key) {
        Some(Json::Bool(b)) => *b,
        _ => false,
    }
}

/// A string value that is not empty.
pub fn optional_json_string(value: Option<&Json>) -> (r: Option<String>)
    ensures
        match value {
            Some(v) => r.deep_view() == spec_optional_json_string(Some(*v)),
            None => r is None,
        },
{
    match value {
        Some(Json::String(s)) => if !s.as_str().is_empty() {
            Some(s.clone())
        } else {
            None
        },
        _ => None,
    }
}

fn member_string(o: &Vec<(String, Json)>, key: &str) -> (r: Option<String>)
    ensures
        r.deep_view() == spec_optional_json_string(obj_get(o@, key@)),
{
    optional_json_string(json_get(o, key))
}

/// Member `key` as a string (see `spec_read_string_obj`).
pub fn read_string_obj(record: &Vec<(String, Json)>, key: &str, owner: &str) -> (r: Result<String, String>)
    ensures
        res_view(r) == spec_read_string_obj(record@, key@, owner@),
{
    match json_get(record, key) {
        Some(Json::String(s)) => Ok(s.clone()),
        _ => {
            let mut m = String::from_str(owner);
            m.append(".");
            m.append(key);
            m.append(" must be string");
            Err(m)
        },
    }
}

/// The `result` object of a reply (see `spec_expect_result`).
pub fn expect_result(response: Json, result_type: &str) -> (r: Result<Vec<(String, Json)>, String>)
    ensures
        match r {
            Ok(o) => spec_expect_result(response, result_type@) == Ok::<Seq<(String, Json)>, Seq<char>>(o@),
            Err(e) => spec_expect_result(response, result_type@) == Err::<Seq<(String, Json)>, Seq<char>>(e@),
        },
{
    let ghost response0 = response;
    let resp = match response {
        Json::Object(o) => o,
        _ => return Err(message("Herdr response must be object")),
    };
    let ghost resp0 = resp@;
    let has_error = match json_get(&resp, "error") {
        Some(Json::Object(_)) => true,
        _ => false,
    };
    if has_error {
        let err = take_object(resp, "error");
        return match err {
            Some(err) => match member_string(&err, "message") {
                Some(m) => Err(m),
                None => Err(render_json_object(err)),
            },
            None => Err(message("Herdr response must be object")),
        };
    }
    let result = match take_object(resp, "result") {
        Some(r) => r,
        None => return Err(message("Herdr response missing result")),
    };
    let found = match json_get(&result, "type") {
        Some(Json::String(s)) => s.clone(),
        _ => String::new(),
    };
    if !str_eq(found.as_str(), result_type) {
        let mut m = String::from_str("Expected Herdr result ");
        m.append(result_type);
        m.append(", got ");
        m.append(found.as_str());
        return Err(m);
    }
    Ok(result)
}

/// A tab entry (see `spec_parse_tab_info`).
pub fn parse_tab_info(raw: &Json) -> (r: Result<TabInfo, String>)
    ensures
        res_view(r) == spec_parse_tab_info(*raw),
{
    let o = match raw {
        Json::Object(o) => o,
        _ => return Err(message("tab info must be object")),
    };
    let tab_id = read_string_obj(o, "tab_id", "tab")?;
    let workspace_id = read_string_obj(o, "workspace_id", "tab")?;
    let label = read_string_obj(o, "label", "tab")?;
    Ok(TabInfo { tab_id, workspace_id, label, focused: json_flag(o, "focused") })
}

/// A pane entry (see `spec_parse_pane_info`).
pub fn parse_pane_info(raw: &Json) -> (r: Result<PaneInfo, String>)
    ensures
        res_view(r) == spec_parse_pane_info(*raw),
{
    let o = match raw {
        Json::Object(o) => o,
        _ => return Err(message("pane info must be object")),
    };
    let pane_id = read_string_obj(o, "pane_id", "pane")?;
    let workspace_id = read_string_obj(o, "workspace_id", "pane")?;
    let tab_id = read_string_obj(o, "tab_id", "pane")?;
    Ok(
        PaneInfo {
            pane_id,
            workspace_id,
            tab_id,
            focused: json_flag(o, "focused"),
            cwd: member_string(o, "cwd"),
            foreground_cwd: member_string(o, "foreground_cwd"),
            agent: member_string(o, "agent"),
        },
    )
}

/// A process entry (see `spec_parse_pane_process`).
pub fn parse_pane_process(raw: &Json) -> (r: Result<PaneProcess, String>)
    ensures
        res_view(r) == spec_parse_pane_process(*raw),
{
    let o = match raw {
        Json::Object(o) => o,
        _ => return Err(message("process info must be object")),
    };
    let name = read_string_obj(o, "name", "process")?;
    Ok(PaneProcess { name, argv0: member_string(o, "argv0") })
}

fn parse_tabs(items: &Vec<Json>) -> (r: Result<Vec<TabInfo>, String>)
    ensures
        res_seq_view(r) == collect_all(items@, |j: Json| spec_parse_tab_info(j)),
{
    let ghost f = |j: Json| spec_parse_tab_info(j);
    let mut out: Vec<TabInfo> = Vec::new();
    let mut i: usize = 0;
    assert(out.deep_view() =~= Seq::<TabInfoView>::empty());
    while i < items.len()
        invariant
            i <= items@.len(),
            f == (|j: Json| spec_parse_tab_info(j)),
            collect_prefix(items@, f, i as nat) == Ok::<Seq<TabInfoView>, Seq<char>>(out.deep_view()),
        decreases items.len() - i,
    {
        match parse_tab_info(&items[i]) {
            Ok(t) => {
                let ghost before = out.deep_view();
                out.push(t);
                assert(out.deep_view() =~= before.push(t@));
            },
            Err(e) => {
                proof {
                    lemma_collect_error(items@, f, (i + 1) as nat, items@.len(), e@);
                }
                return Err(e);
            },
        }
        i = i + 1;
    }
    Ok(out)
}

fn parse_panes(items: &Vec<Json>) -> (r: Result<Vec<PaneInfo>, String>)
    ensures
        res_seq_view(r) == collect_all(items@, |j: Json| spec_parse_pane_info(j)),
{
    let ghost f = |j: Json| spec_parse_pane_info(j);
    let mut out: Vec<PaneInfo> = Vec::new();
    let mut i: usize = 0;
    assert(out.deep_view() =~= Seq::<PaneInfoView>::empty());
    while i < items.len()
        invariant
            i <= items@.len(),
            f == (|j: Json| spec_parse_pane_info(j)),
            collect_prefix(items@, f, i as nat) == Ok::<Seq<PaneInfoView>, Seq<char>>(out.deep_view()),
        decreases items.len() - i,
    {
        match parse_pane_info(&items[i]) {
            Ok(t) => {
                let ghost before = out.deep_view();
                out.push(t);
                assert(out.deep_view() =~= before.push(t@));
            },
            Err(e) => {
                proof {
                    lemma_collect_error(items@, f, (i + 1) as nat, items@.len(), e@);
                }
                return Err(e);
            },
        }
        i = i + 1;
    }
    Ok(out)
}

fn parse_processes(items: &Vec<Json>) -> (r: Result<Vec<PaneProcess>, String>)
    ensures
        res_seq_view(r) == collect_all(items@, |j: Json| spec_parse_pane_process(j)),
{
    let ghost f = |j: Json| spec_parse_pane_process(j);
    let mut out: Vec<PaneProcess> = Vec::new();
    let mut i: usize = 0;
    assert(out.deep_view() =~= Seq::<PaneProcessView>::empty());
    while i < items.len()
        invariant
            i <= items@.len(),
            f == (|j: Json| spec_parse_pane_process(j)),
            collect_prefix(items@, f, i as nat) == Ok::<Seq<PaneProcessView>, Seq<char>>(out.deep_view()),
        decreases items.len() - i,
    {
        match parse_pane_process(&items[i]) {
            Ok(t) => {
                let ghost before = out.deep_view();
                out.push(t);
                assert(out.deep_view() =~= before.push(t@));
            },
            Err(e) => {
                proof {
                    lemma_collect_error(items@, f, (i + 1) as nat, items@.len(), e@);
                }
                return Err(e);
            },
        }
        i = i + 1;
    }
    Ok(out)
}

/// The tabs of a `tab list` reply (see `spec_parse_tab_list`).
pub fn parse_tab_list(response: Json) -> (r: Result<Vec<TabInfo>, String>)
    ensures
        res_seq_view(r) == spec_parse_tab_list(response),
{
    let result = expect_result(response, "tab_list")?;
    match take_array(result, "tabs") {
        Some(items) => parse_tabs(&items),
        None => Err(message("herdr tab list: tabs missing")),
    }
}

/// The panes of a `pane list` reply (see `spec_parse_pane_list`).
pub fn parse_pane_list(response: Json) -> (r: Result<Vec<PaneInfo>, String>)
    ensures
        res_seq_view(r) == spec_parse_pane_list(response),
{
    let result = expect_result(response, "pane_list")?;
    match take_array(result, "panes") {
        Some(items) => parse_panes(&items),
        None => Err(message("herdr pane list: panes missing")),
    }
}

/// The process information of a `pane process-info` reply (see `spec_parse_process_info`).
pub fn parse_process_info(response: Json) -> (r: Result<PaneProcessInfo, String>)
    ensures
        res_view(r) == spec_parse_process_info(response),
{
    let result = expect_result(response, "pane_process_info")?;
    let info = match take_object(result, "process_info") {
        Some(info) => info,
        None => return Err(message("herdr pane process-info: process_info missing")),
    };
    let pane_id = read_string_obj(&info, "pane_id", "process_info")?;
    let foreground = match take_array(info, "foreground_processes") {
        Some(a) => a,
        None => Vec::new(),
    };
    let foreground_processes = parse_processes(&foreground)?;
    Ok(PaneProcessInfo { pane_id, foreground_processes })
}

/// The root pane of a `tab create` reply (see `spec_parse_created_root_pane`).
pub fn parse_created_root_pane(response: Json) -> (r: Result<PaneInfo, String>)
    ensures
        res_view(r) == spec_parse_created_root_pane(response),
{
    let result = expect_result(response, "tab_created")?;
    match json_get(&result, "root_pane") {
        Some(root) => parse_pane_info(root),
        None => Err(message("herdr tab create: root_pane missing")),
    }
}

} // verus!
