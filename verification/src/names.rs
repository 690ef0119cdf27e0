//! Program names: how a command line and a process are reduced to a comparable name,
//! and what makes a pane "running" a target or "idle".
use vstd::prelude::*;
use crate::text::{
    chars_of, first_word, first_word_chars, lowercase, slice_range, str_eq, string_from_chars,
    to_lowercase, trim_start, trim_start_chars,
};
use crate::model::{
    LayoutTarget, LayoutTargetView, PaneInfo, PaneInfoView, PaneProcess, PaneProcessInfoView, PaneProcessView,
};
use crate::text_map::ProcessMap;

verus! {

pub open spec fn is_quote(c: char) -> bool {
    c == '\'' || c == '"'
}

pub open spec fn is_path_sep(c: char) -> bool {
    c == '/' || c == '\\'
}

/// `s` without leading quote characters.
pub open spec fn trim_start_quotes(s: Seq<char>) -> Seq<char>
    decreases s.len(),
{
    if s.len() > 0 && is_quote(s[0]) {
        trim_start_quotes(s.drop_first())
    } else {
        s
    }
}

/// `s` without trailing quote characters.
pub open spec fn trim_end_quotes(s: Seq<char>) -> Seq<char>
    decreases s.len(),
{
    if s.len() > 0 && is_quote(s.last()) {
        trim_end_quotes(s.drop_last())
    } else {
        s
    }
}

/// The part of `s` after its last `/` or `\`.
pub open spec fn last_segment(s: Seq<char>) -> Seq<char>
    decreases s.len(),
{
    if s.len() == 0 {
        s
    } else if is_path_sep(s.last()) {
        Seq::empty()
    } else {
        last_segment(s.drop_last()).push(s.last())
    }
}

/// The file-name part of a program reference: quotes trimmed, directories dropped.
pub open spec fn spec_name_leaf(s: Seq<char>) -> Seq<char> {
    last_segment(trim_end_quotes(trim_start_quotes(s)))
}

/// `s` without a trailing `.exe`.
pub open spec fn spec_strip_exe(s: Seq<char>) -> Seq<char> {
    if s.len() >= 4 && s.subrange(s.len() - 4, s.len() as int) == seq!['.', 'e', 'x', 'e'] {
        s.take(s.len() - 4)
    } else {
        s
    }
}

/// The comparable name of a program reference: empty for none or an empty text, otherwise
/// its leaf, lowercased, without `.exe`.
pub open spec fn spec_normalize_name(value: Option<Seq<char>>) -> Seq<char> {
    match value {
        Some(v) => if v.len() == 0 {
            Seq::empty()
        } else {
            spec_strip_exe(lowercase(spec_name_leaf(v)))
        },
        None => Seq::empty(),
    }
}

/// Index of the first `c` in `s`, or `s.len()` when there is none.
pub open spec fn index_of_or_len(s: Seq<char>, c: char) -> int
    decreases s.len(),
{
    if s.len() == 0 {
        0
    } else if s[0] == c {
        0
    } else {
        1 + index_of_or_len(s.drop_first(), c)
    }
}

/// The program name of a shell line: its first word, or its leading quoted text, normalized.
pub open spec fn spec_command_name(command: Seq<char>) -> Seq<char> {
    let t = trim_start(command);
    if t.len() == 0 {
        Seq::empty()
    } else if is_quote(t[0]) {
        let rest = t.drop_first();
        spec_normalize_name(Some(rest.take(index_of_or_len(rest, t[0]))))
    } else {
        spec_normalize_name(Some(first_word(t)))
    }
}

/// The text a process is known by: its `argv0` when present, else its name.
pub open spec fn process_label(p: PaneProcessView) -> Option<Seq<char>> {
    match p.argv0 {
        Some(a) => Some(a),
        None => Some(p.name),
    }
}

/// The foreground processes recorded for a pane; none when the pane has no entry.
pub open spec fn foreground_of(pane: PaneInfoView, procs: Map<Seq<char>, PaneProcessInfoView>) -> Seq<
    PaneProcessView,
> {
    if procs.contains_key(pane.pane_id) {
        procs[pane.pane_id].foreground_processes
    } else {
        Seq::empty()
    }
}

/// A pane runs a target when its agent, or one of its foreground processes, has the
/// target command's program name.
pub open spec fn spec_is_target_running(
    pane: PaneInfoView,
    target: LayoutTargetView,
    procs: Map<Seq<char>, PaneProcessInfoView>,
) -> bool {
    let name = spec_command_name(target.command);
    ||| spec_normalize_name(pane.agent) == name
    ||| exists|i: int|
        0 <= i < foreground_of(pane, procs).len() && spec_normalize_name(
            process_label(#[trigger] foreground_of(pane, procs)[i]),
        ) == name
}

/// The shells whose foreground presence makes a pane idle.
pub open spec fn is_shell_name(n: Seq<char>) -> bool {
    ||| n == "pwsh"@
    ||| n == "powershell"@
    ||| n == "cmd"@
    ||| n == "zsh"@
    ||| n == "bash"@
    ||| n == "fish"@
    ||| n == "nu"@
    ||| n == "sh"@
}

/// A pane is idle when it has foreground processes and all of them are known shells.
pub open spec fn spec_is_idle(pane: PaneInfoView, procs: Map<Seq<char>, PaneProcessInfoView>) -> bool {
    let fg = foreground_of(pane, procs);
    &&& fg.len() > 0
    &&& forall|i: int| 0 <= i < fg.len() ==> is_shell_name(spec_normalize_name(process_label(#[trigger] fg[i])))
}

/// The view of an optional text.
pub open spec fn opt_str_view(o: Option<&str>) -> Option<Seq<char>> {
    match o {
        Some(s) => Some(s@),
        None => None,
    }
}

/// The text an optional string holds, borrowed.
pub fn opt_as_str(o: &Option<String>) -> (r: Option<&str>)
    ensures
        opt_str_view(r) == o.deep_view(),
{
    match o {
        Some(s) => Some(s.as_str()),
        None => None,
    }
}

/// The file-name part of a program reference: surrounding quotes trimmed, directories dropped.
pub fn name_leaf(value: &str) -> (r: String)
    ensures
        r@ == spec_name_leaf(value@),
{
    let v = chars_of(value);
    leaf_chars(&v)
}

fn leaf_chars(v: &[char]) -> (r: String)
    ensures
        r@ == spec_name_leaf(v@),
{
    let n = v.len();
    let mut a: usize = 0;
    assert(v@.skip(0) =~= v@);
    while a < n && (v[a] == '\'' || v[a] == '"')
        invariant
            n == v@.len(),
            a <= n,
            trim_start_quotes(v@) == trim_start_quotes(v@.skip(a as int)),
        decreases n - a,
    {
        assert(v@.skip(a as int).drop_first() =~= v@.skip(a + 1));
        a = a + 1;
    }
    assert(trim_start_quotes(v@.skip(a as int)) == v@.skip(a as int));
    let ghost t1 = v@.skip(a as int);
    let mut b: usize = n;
    assert(t1.take(t1.len() as int) =~= t1);
    while b > a && (v[b - 1] == '\'' || v[b - 1] == '"')
        invariant
            n == v@.len(),
            a <= b <= n,
            t1 == v@.skip(a as int),
            trim_end_quotes(t1) == trim_end_quotes(t1.take(b - a)),
        decreases b,
    {
        assert(t1.take(b - a).drop_last() =~= t1.take(b - 1 - a));
        b = b - 1;
    }
    assert(trim_end_quotes(t1.take(b - a)) == t1.take(b - a));
    let ghost t2 = t1.take(b - a);
    assert(t2 =~= v@.subrange(a as int, b as int));
    let mut j: usize = b;
    assert(t2.take(t2.len() as int) =~= t2);
    assert(t2.subrange(t2.len() as int, t2.len() as int) =~= Seq::<char>::empty());
    while j > a && !(v[j - 1] == '/' || v[j - 1] == '\\')
        invariant
            a <= j <= b <= n,
            n == v@.len(),
            t2 == v@.subrange(a as int, b as int),
            last_segment(t2) == last_segment(t2.take(j - a)) + t2.subrange(j - a, t2.len() as int),
        decreases j,
    {
        let ghost p = t2.take(j - a);
        assert(p.drop_last() =~= t2.take(j - 1 - a));
        assert(t2.subrange(j - 1 - a, t2.len() as int) =~= seq![p.last()] + t2.subrange(
            j - a,
            t2.len() as int,
        ));
        assert(last_segment(p) == last_segment(p.drop_last()).push(p.last()));
        assert(last_segment(p.drop_last()).push(p.last()) + t2.subrange(j - a, t2.len() as int)
            =~= last_segment(p.drop_last()) + t2.subrange(j - 1 - a, t2.len() as int));
        j = j - 1;
    }
    assert(last_segment(t2.take(j - a)) == Seq::<char>::empty());
    assert(t2.subrange(j - a, t2.len() as int) =~= v@.subrange(j as int, b as int));
    let piece = slice_range(v, j, b);
    string_from_chars(&piece)
}

/// `s` without a trailing `.exe`.
pub fn strip_exe_suffix(s: &str) -> (r: String)
    ensures
        r@ == spec_strip_exe(s@),
{
    let v = chars_of(s);
    let n = v.len();
    if n >= 4 && v[n - 4] == '.' && v[n - 3] == 'e' && v[n - 2] == 'x' && v[n - 1] == 'e' {
        assert(v@.subrange(n - 4, n as int) =~= seq!['.', 'e', 'x', 'e']);
        let piece = slice_range(&v, 0, n - 4);
        string_from_chars(&piece)
    } else {
        proof {
            if n >= 4 && v@.subrange(n - 4, n as int) == seq!['.', 'e', 'x', 'e'] {
                assert(v@.subrange(n - 4, n as int)[0] == '.');
                assert(v@.subrange(n - 4, n as int)[1] == 'e');
                assert(v@.subrange(n - 4, n as int)[2] == 'x');
                assert(v@.subrange(n - 4, n as int)[3] == 'e');
            }
        }
        string_from_chars(&v)
    }
}

fn normalize_chars(v: &[char]) -> (r: String)
    ensures
        r@ == spec_normalize_name(Some(v@)),
{
    if v.len() == 0 {
        return String::new();
    }
    let leaf = leaf_chars(v);
    let lower = to_lowercase(leaf.as_str());
    strip_exe_suffix(lower.as_str())
}

/// The comparable name of a program reference (see `spec_normalize_name`).
pub fn normalize_name(value: Option<&str>) -> (r: String)
    ensures
        r@ == spec_normalize_name(opt_str_view(value)),
{
    match value {
        Some(s) => {
            let v = chars_of(s);
            normalize_chars(&v)
        },
        None => String::new(),
    }
}

/// The program name of a shell line (see `spec_command_name`).
pub fn command_name(command: &str) -> (r: String)
    ensures
        r@ == spec_command_name(command@),
{
    let c = chars_of(command);
    let t = trim_start_chars(&c);
    if t.len() == 0 {
        return String::new();
    }
    let q = t[0];
    if q == '\'' || q == '"' {
        let rest = slice_range(&t, 1, t.len());
        assert(rest@ =~= t@.drop_first());
        let mut e: usize = 0;
        assert(rest@.skip(0) =~= rest@);
        while e < rest.len() && rest[e] != q
            invariant
                e <= rest@.len(),
                index_of_or_len(rest@, q) == e + index_of_or_len(rest@.skip(e as int), q),
            decreases rest.len() - e,
        {
            assert(rest@.skip(e as int).drop_first() =~= rest@.skip(e + 1));
            e = e + 1;
        }
        let word = slice_range(&rest, 0, e);
        assert(word@ =~= rest@.take(index_of_or_len(rest@, q)));
        normalize_chars(&word)
    } else {
        let word = first_word_chars(&t);
        normalize_chars(&word)
    }
}

/// Whether `name` is one of the known shells.
pub fn is_shell(name: &str) -> (r: bool)
    ensures
        r == is_shell_name(name@),
{
    str_eq(name, "pwsh") || str_eq(name, "powershell") || str_eq(name, "cmd") || str_eq(name, "zsh")
        || str_eq(name, "bash") || str_eq(name, "fish") || str_eq(name, "nu") || str_eq(name, "sh")
}

fn process_label_str(p: &PaneProcess) -> (r: &str)
    ensures
        Some(r@) == process_label(p@),
{
    match &p.argv0 {
        Some(a) => a.as_str(),
        None => p.name.as_str(),
    }
}

/// Whether `pane` is running `target` (see `spec_is_target_running`).
pub fn is_target_running(pane: &PaneInfo, target: &LayoutTarget, processes: &ProcessMap) -> (r: bool)
    ensures
        r == spec_is_target_running(pane@, target@, processes@),
{
    let target_name = command_name(target.command.as_str());
    let agent = normalize_name(opt_as_str(&pane.agent));
    if str_eq(agent.as_str(), target_name.as_str()) {
        return true;
    }
    match processes.get(pane.pane_id.as_str()) {
        Some(info) => {
            let fg = &info.foreground_processes;
            assert(foreground_of(pane@, processes@) == fg.deep_view());
            let mut i: usize = 0;
            while i < fg.len()
                invariant
                    i <= fg@.len(),
                    foreground_of(pane@, processes@) == fg.deep_view(),
                    target_name@ == spec_command_name(target@.command),
                    forall|j: int|
                        0 <= j < i ==> spec_normalize_name(process_label(#[trigger] fg.deep_view()[j]))
                            != target_name@,
                decreases fg.len() - i,
            {
                let name = normalize_name(Some(process_label_str(&fg[i])));
                if str_eq(name.as_str(), target_name.as_str()) {
                    assert(fg.deep_view()[i as int] == fg@[i as int]@);
                    return true;
                }
                i = i + 1;
            }
            false
        },
        None => false,
    }
}

/// Whether `pane` is idle (see `spec_is_idle`).
pub fn is_idle(pane: &PaneInfo, processes: &ProcessMap) -> (r: bool)
    ensures
        r == spec_is_idle(pane@, processes@),
{
    match processes.get(pane.pane_id.as_str()) {
        Some(info) => {
            let fg = &info.foreground_processes;
            assert(foreground_of(pane@, processes@) == fg.deep_view());
            if fg.len() == 0 {
                return false;
            }
            let mut i: usize = 0;
            while i < fg.len()
                invariant
                    i <= fg@.len(),
                    foreground_of(pane@, processes@) == fg.deep_view(),
                    forall|j: int|
                        0 <= j < i ==> is_shell_name(
                            spec_normalize_name(process_label(#[trigger] fg.deep_view()[j])),
                        ),
                decreases fg.len() - i,
            {
                let name = normalize_name(Some(process_label_str(&fg[i])));
                if !is_shell(name.as_str()) {
                    assert(fg.deep_view()[i as int] == fg@[i as int]@);
                    return false;
                }
                i = i + 1;
            }
            true
        },
        None => false,
    }
}

} // verus!
