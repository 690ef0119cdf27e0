//! Layout configuration: command-line slots, the YAML configuration files, the repo
//! override, and which layout a slot selects.
use vstd::prelude::*;
use vstd::string::StringExecFns;
use crate::text::{chars_of, decimal, str_eq, trim, trim_chars, u64_decimal};
use crate::model::{Layout, LayoutTarget, LayoutTargetView, LayoutView};
use crate::text_map::LayoutMap;

verus! {

/// The key of a YAML mapping entry: the key itself, and how the parser's value prints with
/// `Debug`.
#[derive(Debug, PartialEq, Eq)]
pub struct YamlKey {
    pub value: Yaml,
    pub debug: String,
}

/// A YAML document as the configuration reads it.
#[derive(Debug, PartialEq, Eq)]
pub enum Yaml {
    Null,
    Bool(bool),
    Number(String),
    String(String),
    Sequence(Vec<Yaml>),
    Mapping(Vec<(YamlKey, Yaml)>),
    Tagged(Box<Yaml>),
}

/// The value under any tags.
pub open spec fn untag(y: Yaml) -> Yaml
    decreases y,
{
    match y {
        Yaml::Tagged(inner) => untag(*inner),
        _ => y,
    }
}

/// The entries of a mapping (through tags).
pub open spec fn as_mapping(y: Yaml) -> Option<Seq<(YamlKey, Yaml)>> {
    match untag(y) {
        Yaml::Mapping(m) => Some(m@),
        _ => None,
    }
}

/// The items of a sequence (through tags).
pub open spec fn as_sequence(y: Yaml) -> Option<Seq<Yaml>> {
    match untag(y) {
        Yaml::Sequence(s) => Some(s@),
        _ => None,
    }
}

/// The text of a string (through tags).
pub open spec fn as_str(y: Yaml) -> Option<Seq<char>> {
    match untag(y) {
        Yaml::String(s) => Some(s@),
        _ => None,
    }
}

/// The text of an untagged string.
pub open spec fn plain_text(y: Yaml) -> Option<Seq<char>> {
    match y {
        Yaml::String(s) => Some(s@),
        _ => None,
    }
}

/// How `bool` prints.
pub open spec fn bool_text(b: bool) -> Seq<char> {
    if b { "true"@ } else { "false"@ }
}

/// How a mapping key reads as text: its string through any tags; else, for an untagged number
/// or boolean, how it prints; else its `Debug` form.
pub open spec fn spec_key_text(k: YamlKey) -> Seq<char> {
    match as_str(k.value) {
        Some(s) => s,
        None => match k.value {
            Yaml::Number(t) => t@,
            Yaml::Bool(b) => bool_text(b),
            _ => k.debug@,
        },
    }
}

/// The value stored under the untagged string key `key`.
pub open spec fn map_get(m: Seq<(YamlKey, Yaml)>, key: Seq<char>) -> Option<Yaml> {
    match crate::search::first_index(m, |e: (YamlKey, Yaml)| plain_text(e.0.value) == Some(key)) {
        Some(i) => Some(m[i].1),
        None => None,
    }
}

/// Text made only of white space.
pub open spec fn is_blank(s: Seq<char>) -> bool {
    trim(s).len() == 0
}

/// The string at `key`, when it is a string that is not blank.
pub open spec fn nonblank_str(m: Seq<(YamlKey, Yaml)>, key: Seq<char>) -> Option<Seq<char>> {
    match map_get(m, key) {
        Some(v) => match as_str(v) {
            Some(s) => if is_blank(s) {
                None
            } else {
                Some(s)
            },
            None => None,
        },
        None => None,
    }
}

/// A tab target: a map with a non-blank `label` and a non-blank `command`.
pub open spec fn spec_validate_target(raw: Yaml, path: Seq<char>) -> Result<LayoutTargetView, Seq<char>> {
    match as_mapping(raw) {
        None => Err(path + " must be a map"@),
        Some(m) => match nonblank_str(m, "label"@) {
            None => Err(path + ".label must be a non-empty string"@),
            Some(label) => match nonblank_str(m, "command"@) {
                None => Err(path + ".command must be a non-empty string"@),
                Some(command) => Ok(LayoutTargetView { label, command }),
            },
        },
    }
}

/// The location of the tab target at `index`.
pub open spec fn target_path(path: Seq<char>, index: nat) -> Seq<char> {
    path + ".tabs["@ + decimal(index) + "]"@
}

/// The first `n` tab targets, each validated, with no label used twice.
pub open spec fn targets_prefix(items: Seq<Yaml>, path: Seq<char>, n: nat) -> Result<
    Seq<LayoutTargetView>,
    Seq<char>,
>
    decreases n,
{
    if n == 0 {
        Ok(Seq::empty())
    } else {
        match targets_prefix(items, path, (n - 1) as nat) {
            Err(e) => Err(e),
            Ok(prev) => match spec_validate_target(items[n - 1], target_path(path, (n - 1) as nat)) {
                Err(e) => Err(e),
                Ok(t) => if exists|j: int| 0 <= j < prev.len() && #[trigger] prev[j].label == t.label {
                    Err(path + ": duplicate tab label "@ + t.label)
                } else {
                    Ok(prev.push(t))
                },
            },
        }
    }
}

/// A layout: a map whose `firstUsesCurrentTab`, when present, is a boolean (false when
/// absent) and whose `tabs` is a non-empty list of valid targets with distinct labels.
pub open spec fn spec_validate_layout(raw: Yaml, path: Seq<char>) -> Result<LayoutView, Seq<char>> {
    match as_mapping(raw) {
        None => Err(path + " must be a map"@),
        Some(m) => {
            let first: Result<bool, Seq<char>> = match map_get(m, "firstUsesCurrentTab"@) {
                Some(Yaml::Bool(b)) => Ok(b),
                Some(_) => Err(path + ".firstUsesCurrentTab must be boolean"@),
                None => Ok(false),
            };
            match first {
                Err(e) => Err(e),
                Ok(first) => {
                    let items = match map_get(m, "tabs"@) {
                        Some(v) => as_sequence(v),
                        None => None,
                    };
                    match items {
                        Some(items) => if items.len() == 0 {
                            Err(path + ".tabs must be a non-empty list"@)
                        } else {
                            match targets_prefix(items, path, items.len()) {
                                Err(e) => Err(e),
                                Ok(tabs) => Ok(LayoutView { first_uses_current_tab: first, tabs }),
                            }
                        },
                        None => Err(path + ".tabs must be a non-empty list"@),
                    }
                },
            }
        },
    }
}

/// The layout slots.
pub open spec fn is_slot(s: Seq<char>) -> bool {
    s == "1"@ || s == "2"@ || s == "3"@
}

/// The first `n` entries of the `layouts` map, each under a valid slot with a valid
/// layout; a later entry for the same slot replaces an earlier one.
pub open spec fn slots_prefix(entries: Seq<(YamlKey, Yaml)>, source: Seq<char>, n: nat) -> Result<
    Map<Seq<char>, LayoutView>,
    Seq<char>,
>
    decreases n,
{
    if n == 0 {
        Ok(Map::empty())
    } else {
        match slots_prefix(entries, source, (n - 1) as nat) {
            Err(e) => Err(e),
            Ok(prev) => {
                let slot = spec_key_text(entries[n - 1].0);
                if !is_slot(slot) {
                    Err(source + ": invalid layout slot "@ + slot)
                } else {
                    match spec_validate_layout(entries[n - 1].1, source + ": layouts."@ + slot) {
                        Err(e) => Err(e),
                        Ok(layout) => Ok(prev.insert(slot, layout)),
                    }
                }
            },
        }
    }
}

/// A configuration file: a map whose `layouts` is a map from slots to layouts.
pub open spec fn spec_validate_config_root(raw: Yaml, source: Seq<char>) -> Result<
    Map<Seq<char>, LayoutView>,
    Seq<char>,
> {
    match as_mapping(raw) {
        None => Err(source + ": YAML root must be a map"@),
        Some(root) => {
            let layouts = match map_get(root, "layouts"@) {
                Some(v) => as_mapping(v),
                None => None,
            };
            match layouts {
                None => Err(source + ": layouts must be a map"@),
                Some(entries) => slots_prefix(entries, source, entries.len()),
            }
        },
    }
}

/// `serde_yaml::Value`, the parser's own form of a YAML document.
#[verifier::external_type_specification]
#[verifier::external_body]
pub struct ExYamlValue(serde_yaml::Value);

/// What `serde_yaml::from_str::<serde_yaml::Value>` makes of a text, read into `Yaml`: the
/// document, or the parser's error message.
pub uninterp spec fn yaml_parse(text: Seq<char>) -> Result<Yaml, Seq<char>>;

/// Calls `serde_yaml::from_str::<serde_yaml::Value>` on `text` and reads the value into
/// `Yaml`; a parse error becomes its message. The result is named by `yaml_parse` of the
/// text; nothing more is claimed of it.
#[verifier::external_body]
pub fn parse_yaml(text: &str) -> (r: Result<Yaml, String>)
    ensures
        match yaml_parse(text@) {
            Ok(y) => r == Ok::<Yaml, String>(y),
            Err(e) => r matches Err(m) && m@ == e,
        },
{
    match serde_yaml::from_str::<serde_yaml::Value>(text) {
        Ok(value) => Ok(yaml_from_value(&value)),
        Err(error) => Err(error.to_string()),
    }
}

/// Reads a `serde_yaml::Value` into `Yaml`, one variant for one; a number keeps how it
/// prints, and each mapping key also keeps how it prints with `Debug`.
#[verifier::external_body]
fn yaml_from_value(value: &serde_yaml::Value) -> Yaml {
    match value {
        serde_yaml::Value::Null => Yaml::Null,
        serde_yaml::Value::Bool(b) => Yaml::Bool(*b),
        serde_yaml::Value::Number(n) => Yaml::Number(n.to_string()),
        serde_yaml::Value::String(s) => Yaml::String(s.clone()),
        serde_yaml::Value::Sequence(items) => Yaml::Sequence(items.iter().map(yaml_from_value).collect()),
        serde_yaml::Value::Mapping(map) => Yaml::Mapping(
            map.iter().map(|(k, v)| (YamlKey { value: yaml_from_value(k), debug: format!("{k:?}") }, yaml_from_value(v))).collect(),
        ),
        serde_yaml::Value::Tagged(tagged) => Yaml::Tagged(Box::new(yaml_from_value(&tagged.value))),
    }
}

/// The layouts of a configuration file's text (see `spec_read_config_text`).
pub open spec fn spec_read_config_text(text: Seq<char>, path: Seq<char>) -> Result<
    Map<Seq<char>, LayoutView>,
    Seq<char>,
> {
    match yaml_parse(text) {
        Err(e) => Err(path + ": "@ + e),
        Ok(raw) => spec_validate_config_root(raw, path),
    }
}

/// The layouts of the configuration file at `path` whose text is `text`: a text that does not
/// parse is refused with the parser's message after the path; otherwise the document is
/// validated (see `spec_validate_config_root`).
pub fn read_config_text(text: &str, path: &str) -> (r: Result<LayoutMap, String>)
    ensures
        match r {
            Ok(m) => spec_read_config_text(text@, path@) == Ok::<Map<Seq<char>, LayoutView>, Seq<char>>(m@),
            Err(e) => spec_read_config_text(text@, path@) == Err::<Map<Seq<char>, LayoutView>, Seq<char>>(e@),
        },
{
    match parse_yaml(text) {
        Ok(raw) => validate_config_root(&raw, path),
        Err(e) => {
            let mut m = concat2(path, ": ");
            m.append(e.as_str());
            Err(m)
        },
    }
}

/// The value under any tags.
pub fn untag_ref(y: &Yaml) -> (r: &Yaml)
    ensures
        *r == untag(*y),
    decreases y,
{
    match y {
        Yaml::Tagged(inner) => untag_ref(inner),
        _ => y,
    }
}

/// The entries of a mapping (through tags).
pub fn yaml_as_mapping(y: &Yaml) -> (r: Option<&Vec<(YamlKey, Yaml)>>)
    ensures
        match r {
            Some(m) => as_mapping(*y) == Some(m@),
            None => as_mapping(*y) == None::<Seq<(YamlKey, Yaml)>>,
        },
{
    match untag_ref(y) {
        Yaml::Mapping(m) => Some(m),
        _ => None,
    }
}

/// The items of a sequence (through tags).
pub fn yaml_as_sequence(y: &Yaml) -> (r: Option<&Vec<Yaml>>)
    ensures
        match r {
            Some(s) => as_sequence(*y) == Some(s@),
            None => as_sequence(*y) == None::<Seq<Yaml>>,
        },
{
    match untag_ref(y) {
        Yaml::Sequence(s) => Some(s),
        _ => None,
    }
}

/// The text of a string (through tags).
pub fn yaml_as_str(y: &Yaml) -> (r: Option<&String>)
    ensures
        match r {
            Some(s) => as_str(*y) == Some(s@),
            None => as_str(*y) == None::<Seq<char>>,
        },
{
    match untag_ref(y) {
        Yaml::String(s) => Some(s),
        _ => None,
    }
}

/// The value stored under the untagged string key `key`.
pub fn yaml_get<'a>(m: &'a Vec<(YamlKey, Yaml)>, key: &str) -> (r: Option<&'a Yaml>)
    ensures
        match r {
            Some(v) => map_get(m@, key@) == Some(*v),
            None => map_get(m@, key@) == None::<Yaml>,
        },
{
    let ghost pred = |e: (YamlKey, Yaml)| plain_text(e.0.value) == Some(key@);
    let mut i: usize = 0;
    while i < m.len()
        invariant
            i <= m@.len(),
            pred == (|e: (YamlKey, Yaml)| plain_text(e.0.value) == Some(key@)),
            forall|j: int| 0 <= j < i ==> !pred(#[trigger] m@[j]),
        decreases m.len() - i,
    {
        let hit = match &m[i].0.value {
            Yaml::String(t) => str_eq(t.as_str(), key),
            _ => false,
        };
        if hit {
            proof {
                crate::search::lemma_first_index_at(m@, pred, i as int);
            }
            return Some(&m[i].1);
        }
        i = i + 1;
    }
    proof {
        crate::search::lemma_first_index_none(m@, pred);
    }
    None
}

/// Whether a text is made only of white space.
pub fn is_blank_str(s: &str) -> (r: bool)
    ensures
        r == is_blank(s@),
{
    let c = chars_of(s);
    let t = trim_chars(&c);
    t.len() == 0
}

fn nonblank_string(m: &Vec<(YamlKey, Yaml)>, key: &str) -> (r: Option<String>)
    ensures
        match r {
            Some(s) => nonblank_str(m@, key@) == Some(s@),
            None => nonblank_str(m@, key@) == None::<Seq<char>>,
        },
{
    match yaml_get(m, key) {
        Some(v) => match yaml_as_str(v) {
            Some(s) => if is_blank_str(s.as_str()) {
                None
            } else {
                Some(s.clone())
            },
            None => None,
        },
        None => None,
    }
}

fn concat2(a: &str, b: &str) -> (r: String)
    ensures
        r@ == a@ + b@,
{
    let mut r = String::from_str(a);
    r.append(b);
    r
}

/// A validated tab target (see `spec_validate_target`).
pub fn validate_target(raw: &Yaml, path: &str) -> (r: Result<LayoutTarget, String>)
    ensures
        match r {
            Ok(t) => spec_validate_target(*raw, path@) == Ok::<LayoutTargetView, Seq<char>>(t@),
            Err(e) => spec_validate_target(*raw, path@) == Err::<LayoutTargetView, Seq<char>>(e@),
        },
{
    let m = match yaml_as_mapping(raw) {
        Some(m) => m,
        None => return Err(concat2(path, " must be a map")),
    };
    let label = match nonblank_string(m, "label") {
        Some(l) => l,
        None => return Err(concat2(path, ".label must be a non-empty string")),
    };
    let command = match nonblank_string(m, "command") {
        Some(c) => c,
        None => return Err(concat2(path, ".command must be a non-empty string")),
    };
    Ok(LayoutTarget { label, command })
}

/// The string a YAML value holds, if it is a string (through tags).
pub fn yaml_string(value: Option<&Yaml>) -> (r: Option<String>)
    ensures
        match value {
            Some(v) => match r {
                Some(s) => as_str(*v) == Some(s@),
                None => as_str(*v) == None::<Seq<char>>,
            },
            None => r is None,
        },
{
    match value {
        Some(v) => match yaml_as_str(v) {
            Some(s) => Some(s.clone()),
            None => None,
        },
        None => None,
    }
}

fn label_taken(tabs: &Vec<LayoutTarget>, label: &String) -> (r: bool)
    ensures
        r == exists|j: int| 0 <= j < tabs.deep_view().len() && #[trigger] tabs.deep_view()[j].label == label@,
{
    let mut j: usize = 0;
    while j < tabs.len()
        invariant
            j <= tabs@.len(),
            forall|k: int| 0 <= k < j ==> tabs.deep_view()[k].label != label@,
        decreases tabs.len() - j,
    {
        if str_eq(tabs[j].label.as_str(), label.as_str()) {
            assert(tabs.deep_view()[j as int].label == label@);
            return true;
        }
        j = j + 1;
    }
    false
}

/// A validated layout (see `spec_validate_layout`).
pub fn validate_layout(raw: &Yaml, path: &str) -> (r: Result<Layout, String>)
    ensures
        match r {
            Ok(l) => spec_validate_layout(*raw, path@) == Ok::<LayoutView, Seq<char>>(l@),
            Err(e) => spec_validate_layout(*raw, path@) == Err::<LayoutView, Seq<char>>(e@),
        },
{
    let m = match yaml_as_mapping(raw) {
        Some(m) => m,
        None => return Err(concat2(path, " must be a map")),
    };
    let first = match yaml_get(m, "firstUsesCurrentTab") {
        Some(Yaml::Bool(b)) => *b,
        Some(_) => return Err(concat2(path, ".firstUsesCurrentTab must be boolean")),
        None => false,
    };
    let items = match yaml_get(m, "tabs") {
        Some(v) => match yaml_as_sequence(v) {
            Some(s) => s,
            None => return Err(concat2(path, ".tabs must be a non-empty list")),
        },
        None => return Err(concat2(path, ".tabs must be a non-empty list")),
    };
    if items.len() == 0 {
        return Err(concat2(path, ".tabs must be a non-empty list"));
    }
    let mut tabs: Vec<LayoutTarget> = Vec::new();
    let mut index: usize = 0;
    assert(tabs.deep_view() =~= Seq::<LayoutTargetView>::empty());
    while index < items.len()
        invariant
            index <= items@.len(),
            spec_validate_layout(*raw, path@) == match targets_prefix(items@, path@, items@.len()) {
                Err(e) => Err(e),
                Ok(tabs) => Ok(LayoutView { first_uses_current_tab: first, tabs }),
            },
            targets_prefix(items@, path@, index as nat) == Ok::<Seq<LayoutTargetView>, Seq<char>>(
                tabs.deep_view(),
            ),
        decreases items.len() - index,
    {
        let mut tpath = concat2(path, ".tabs[");
        let digits = u64_decimal(index as u64);
        tpath.append(digits.as_str());
        tpath.append("]");
        assert(tpath@ == target_path(path@, index as nat));
        let target = match validate_target(&items[index], tpath.as_str()) {
            Ok(t) => t,
            Err(e) => {
                proof {
                    lemma_targets_prefix_error(items@, path@, (index + 1) as nat, items@.len(), e@);
                }
                return Err(e);
            },
        };
        if label_taken(&tabs, &target.label) {
            let mut e = concat2(path, ": duplicate tab label ");
            e.append(target.label.as_str());
            proof {
                lemma_targets_prefix_error(items@, path@, (index + 1) as nat, items@.len(), e@);
            }
            return Err(e);
        }
        let ghost before = tabs.deep_view();
        tabs.push(target);
        assert(tabs.deep_view() =~= before.push(target@));
        index = index + 1;
    }
    Ok(Layout { first_uses_current_tab: first, tabs })
}

/// Once target validation fails, it stays failed with the same error.
pub proof fn lemma_targets_prefix_error(items: Seq<Yaml>, path: Seq<char>, n: nat, m: nat, e: Seq<char>)
    requires
        n <= m,
        targets_prefix(items, path, n) == Err::<Seq<LayoutTargetView>, Seq<char>>(e),
    ensures
        targets_prefix(items, path, m) == Err::<Seq<LayoutTargetView>, Seq<char>>(e),
    decreases m,
{
    if m > n {
        lemma_targets_prefix_error(items, path, n, (m - 1) as nat, e);
    }
}

/// Once slot validation fails, it stays failed with the same error.
pub proof fn lemma_slots_prefix_error(
    entries: Seq<(YamlKey, Yaml)>,
    source: Seq<char>,
    n: nat,
    m: nat,
    e: Seq<char>,
)
    requires
        n <= m,
        slots_prefix(entries, source, n) == Err::<Map<Seq<char>, LayoutView>, Seq<char>>(e),
    ensures
        slots_prefix(entries, source, m) == Err::<Map<Seq<char>, LayoutView>, Seq<char>>(e),
    decreases m,
{
    if m > n {
        lemma_slots_prefix_error(entries, source, n, (m - 1) as nat, e);
    }
}

/// Whether a text is one of the layout slots.
pub fn is_slot_str(s: &str) -> (r: bool)
    ensures
        r == is_slot(s@),
{
    str_eq(s, "1") || str_eq(s, "2") || str_eq(s, "3")
}

/// How a mapping key reads as text (see `spec_key_text`).
pub fn key_text(k: &YamlKey) -> (r: String)
    ensures
        r@ == spec_key_text(*k),
{
    match yaml_as_str(&k.value) {
        Some(s) => s.clone(),
        None => match &k.value {
            Yaml::Number(t) => t.clone(),
            Yaml::Bool(b) => if *b { String::from_str("true") } else { String::from_str("false") },
            _ => k.debug.clone(),
        },
    }
}

/// The layouts of one configuration file (see `spec_validate_config_root`).
pub fn validate_config_root(raw: &Yaml, source: &str) -> (r: Result<LayoutMap, String>)
    ensures
        match r {
            Ok(m) => spec_validate_config_root(*raw, source@) == Ok::<Map<Seq<char>, LayoutView>, Seq<char>>(m@),
            Err(e) => spec_validate_config_root(*raw, source@) == Err::<Map<Seq<char>, LayoutView>, Seq<char>>(e@),
        },
{
    let root = match yaml_as_mapping(raw) {
        Some(m) => m,
        None => return Err(concat2(source, ": YAML root must be a map")),
    };
    let entries = match yaml_get(root, "layouts") {
        Some(v) => match yaml_as_mapping(v) {
            Some(m) => m,
            None => return Err(concat2(source, ": layouts must be a map")),
        },
        None => return Err(concat2(source, ": layouts must be a map")),
    };
    let mut out: LayoutMap = LayoutMap::new();
    let mut i: usize = 0;
    while i < entries.len()
        invariant
            i <= entries@.len(),
            spec_validate_config_root(*raw, source@) == slots_prefix(entries@, source@, entries@.len()),
            slots_prefix(entries@, source@, i as nat) == Ok::<Map<Seq<char>, LayoutView>, Seq<char>>(out@),
        decreases entries.len() - i,
    {
        let raw_slot = key_text(&entries[i].0);
        if !is_slot_str(raw_slot.as_str()) {
            let mut e = concat2(source, ": invalid layout slot ");
            e.append(raw_slot.as_str());
            proof {
                lemma_slots_prefix_error(entries@, source@, (i + 1) as nat, entries@.len(), e@);
            }
            return Err(e);
        }
        let mut lpath = concat2(source, ": layouts.");
        lpath.append(raw_slot.as_str());
        let layout = match validate_layout(&entries[i].1, lpath.as_str()) {
            Ok(l) => l,
            Err(e) => {
                proof {
                    lemma_slots_prefix_error(entries@, source@, (i + 1) as nat, entries@.len(), e@);
                }
                return Err(e);
            },
        };
        out.insert(raw_slot, layout);
        i = i + 1;
    }
    Ok(out)
}

/// The layout a slot selects: the override's layout for the slot when it has one, else the
/// global one, else an error.
pub open spec fn spec_select_layout(
    global: Map<Seq<char>, LayoutView>,
    over: Map<Seq<char>, LayoutView>,
    slot: Seq<char>,
) -> Result<LayoutView, Seq<char>> {
    if over.contains_key(slot) {
        Ok(over[slot])
    } else if global.contains_key(slot) {
        Ok(global[slot])
    } else {
        Err("Layout slot "@ + slot + " is missing or invalid"@)
    }
}

/// The layout `slot` selects (see `spec_select_layout`).
pub fn select_layout(global_layouts: &LayoutMap, override_layouts: &LayoutMap, slot: &str) -> (r: Result<
    Layout,
    String,
>)
    ensures
        match r {
            Ok(l) => spec_select_layout(global_layouts@, override_layouts@, slot@) == Ok::<LayoutView, Seq<char>>(l@),
            Err(e) => spec_select_layout(global_layouts@, override_layouts@, slot@) == Err::<LayoutView, Seq<char>>(e@),
        },
{
    match override_layouts.get(slot) {
        Some(l) => Ok(l.clone()),
        None => match global_layouts.get(slot) {
            Some(l) => Ok(l.clone()),
            None => {
                let mut e = concat2("Layout slot ", slot);
                e.append(" is missing or invalid");
                Err(e)
            },
        },
    }
}

/// The slot named by a command-line argument: one of `1`, `2`, `3`.
pub fn parse_slot(value: Option<&String>) -> (r: Option<String>)
    ensures
        match value {
            Some(v) => match r {
                Some(s) => is_slot(v@) && s@ == v@,
                None => !is_slot(v@),
            },
            None => r is None,
        },
{
    match value {
        Some(v) => if is_slot_str(v.as_str()) {
            Some(v.clone())
        } else {
            None
        },
        None => None,
    }
}

/// What the program was asked to do, and for which slot.
#[derive(Debug, PartialEq, Eq)]
pub enum Mode {
    Apply(String),
    DryRun(String),
    CheckConfig(String),
}

pub enum ModeView {
    Apply(Seq<char>),
    DryRun(Seq<char>),
    CheckConfig(Seq<char>),
}

impl View for Mode {
    type V = ModeView;

    open spec fn view(&self) -> ModeView {
        match self {
            Mode::Apply(s) => ModeView::Apply(s@),
            Mode::DryRun(s) => ModeView::DryRun(s@),
            Mode::CheckConfig(s) => ModeView::CheckConfig(s@),
        }
    }
}

/// The command line `<slot>`, `--dry-run <slot>` or `--check-config <slot>`; anything else
/// is not understood.
pub open spec fn spec_parse_args(argv: Seq<Seq<char>>) -> Option<ModeView> {
    if argv.len() == 1 {
        if is_slot(argv[0]) { Some(ModeView::Apply(argv[0])) } else { None }
    } else if argv.len() == 2 && argv[0] == "--dry-run"@ {
        if is_slot(argv[1]) { Some(ModeView::DryRun(argv[1])) } else { None }
    } else if argv.len() == 2 && argv[0] == "--check-config"@ {
        if is_slot(argv[1]) { Some(ModeView::CheckConfig(argv[1])) } else { None }
    } else {
        None
    }
}

/// The mode the arguments ask for (see `spec_parse_args`).
pub fn parse_args(argv: &[String]) -> (r: Option<Mode>)
    ensures
        match r {
            Some(m) => spec_parse_args(argv.deep_view()) == Some(m@),
            None => spec_parse_args(argv.deep_view()) == None::<ModeView>,
        },
{
    let ghost a = argv.deep_view();
    if argv.len() == 1 {
        assert(a[0] == argv@[0]@);
        return match parse_slot(Some(&argv[0])) {
            Some(s) => Some(Mode::Apply(s)),
            None => None,
        };
    }
    if argv.len() == 2 {
        assert(a[0] == argv@[0]@);
        assert(a[1] == argv@[1]@);
        if str_eq(argv[0].as_str(), "--dry-run") {
            return match parse_slot(Some(&argv[1])) {
                Some(s) => Some(Mode::DryRun(s)),
                None => None,
            };
        }
        if str_eq(argv[0].as_str(), "--check-config") {
            return match parse_slot(Some(&argv[1])) {
                Some(s) => Some(Mode::CheckConfig(s)),
                None => None,
            };
        }
    }
    None
}

/// The configuration files a run read, with the layouts they hold together.
#[derive(Debug)]
pub struct LoadedConfig {
    pub global_path: String,
    pub override_path: Option<String>,
    pub layouts: LayoutMap,
}

/// The files a run read: the global file, then the repo override when there is one.
pub fn config_files(loaded: &LoadedConfig) -> (r: Vec<String>)
    ensures
        r.deep_view() == match loaded.override_path {
            Some(p) => seq![loaded.global_path@, p@],
            None => seq![loaded.global_path@],
        },
{
    let mut files: Vec<String> = Vec::new();
    files.push(loaded.global_path.clone());
    match &loaded.override_path {
        Some(p) => files.push(p.clone()),
        None => {},
    }
    assert(files.deep_view() =~= match loaded.override_path {
        Some(p) => seq![loaded.global_path@, p@],
        None => seq![loaded.global_path@],
    });
    files
}

/// The file name of a repo override.
pub const REPO_OVERRIDE_YAML: &'static str = ".herdr-layout.yaml";

/// The other file name of a repo override.
pub const REPO_OVERRIDE_YML: &'static str = ".herdr-layout.yml";

/// What one directory holds of the repo override: its path as printed, and the path of each
/// override file that exists in it.
#[derive(Debug, PartialEq, Eq)]
pub struct OverrideProbe {
    pub dir: String,
    pub yaml: Option<String>,
    pub yml: Option<String>,
}

pub struct OverrideProbeView {
    pub dir: Seq<char>,
    pub yaml: Option<Seq<char>>,
    pub yml: Option<Seq<char>>,
}

impl View for OverrideProbe {
    type V = OverrideProbeView;

    open spec fn view(&self) -> OverrideProbeView {
        OverrideProbeView { dir: self.dir@, yaml: self.yaml.deep_view(), yml: self.yml.deep_view() }
    }
}

impl DeepView for OverrideProbe {
    type V = OverrideProbeView;

    open spec fn deep_view(&self) -> OverrideProbeView {
        self.view()
    }
}

/// The repo override of a working directory, given its directory and each ancestor in turn:
/// the nearest directory holding an override file decides; both files there is an error.
pub open spec fn spec_find_repo_override(probes: Seq<OverrideProbeView>) -> Result<
    Option<Seq<char>>,
    Seq<char>,
> {
    match crate::search::first_index(probes, |p: OverrideProbeView| p.yaml is Some || p.yml is Some) {
        None => Ok(None),
        Some(i) => {
            let p = probes[i];
            if p.yaml is Some && p.yml is Some {
                Err(p.dir + ": both .herdr-layout.yaml and .herdr-layout.yml exist"@)
            } else if p.yaml is Some {
                Ok(p.yaml)
            } else {
                Ok(p.yml)
            }
        },
    }
}

/// The nearest repo override (see `spec_find_repo_override`); `probes` lists the working
/// directory first, then its ancestors up to the root.
pub fn find_repo_override(probes: &[OverrideProbe]) -> (r: Result<Option<String>, String>)
    ensures
        match r {
            Ok(found) => spec_find_repo_override(probes.deep_view()) == Ok::<Option<Seq<char>>, Seq<char>>(
                found.deep_view(),
            ),
            Err(e) => spec_find_repo_override(probes.deep_view()) == Err::<Option<Seq<char>>, Seq<char>>(e@),
        },
{
    let ghost pred = |p: OverrideProbeView| p.yaml is Some || p.yml is Some;
    let mut i: usize = 0;
    while i < probes.len()
        invariant
            i <= probes@.len(),
            pred == (|p: OverrideProbeView| p.yaml is Some || p.yml is Some),
            forall|j: int| 0 <= j < i ==> !pred(#[trigger] probes.deep_view()[j]),
        decreases probes.len() - i,
    {
        let p = &probes[i];
        assert(probes.deep_view()[i as int] == p@);
        if p.yaml.is_some() || p.yml.is_some() {
            proof {
                crate::search::lemma_first_index_at(probes.deep_view(), pred, i as int);
            }
            if p.yaml.is_some() && p.yml.is_some() {
                return Err(concat2(p.dir.as_str(), ": both .herdr-layout.yaml and .herdr-layout.yml exist"));
            }
            return match &p.yaml {
                Some(y) => Ok(Some(y.clone())),
                None => Ok(crate::model::clone_opt_string(&p.yml)),
            };
        }
        i = i + 1;
    }
    proof {
        crate::search::lemma_first_index_none(probes.deep_view(), pred);
    }
    Ok(None)
}

} // verus!
