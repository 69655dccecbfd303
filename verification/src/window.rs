//! Window selectors such as `Window[@Name='x' and @ClassName='y']`: the
//! name, class and process they ask for, and whether a top-level window
//! answers them.
use vstd::prelude::*;
use crate::text::{chars_of, contains_seq, copy_range, find_first, first_occurrence, string_of};

verus! {

/// The position of the last `c` in `s` (`str::rfind`).
pub open spec fn last_char(s: Seq<char>, c: char) -> Option<int>
    decreases s.len(),
{
    if s.len() == 0 {
        None
    } else if s.last() == c {
        Some(s.len() - 1)
    } else {
        last_char(s.drop_last(), c)
    }
}

/// The value of `key` (such as `@Name='`) in a predicate list: the text
/// after its first occurrence up to the next `'`.
pub open spec fn selector_value(preds: Seq<char>, key: Seq<char>) -> Option<Seq<char>> {
    match first_occurrence(preds, key) {
        Some(pos) => {
            let rest = preds.skip(pos + key.len());
            match first_occurrence(rest, seq!['\'']) {
                Some(e) => Some(rest.take(e)),
                None => None,
            }
        },
        None => None,
    }
}

/// The predicate list of a selector: what stands between its first `[`
/// and its last `]`.
pub open spec fn selector_predicates(s: Seq<char>) -> Option<Seq<char>> {
    match first_occurrence(s, seq!['[']) {
        Some(a) => match last_char(s, ']') {
            Some(b) => Some(s.subrange(a + 1, b)),
            None => None,
        },
        None => None,
    }
}

/// A selector whose last `]` does not come before its first `[`: the
/// predicate list between them can be taken out.
pub open spec fn selector_brackets_ordered(s: Seq<char>) -> bool {
    match first_occurrence(s, seq!['[']) {
        Some(a) => match last_char(s, ']') {
            Some(b) => a < b,
            None => true,
        },
        None => true,
    }
}

/// What a window selector asks for.
#[derive(Debug)]
pub struct WindowSelector {
    /// `@Name='...'`: the window title.
    pub name: Option<String>,
    /// `@ClassName='...'`.
    pub class_name: Option<String>,
    /// `@ProcessName='...'`: the executable name of the owning process.
    pub process_name: Option<String>,
}

pub open spec fn opt_view(o: Option<String>) -> Option<Seq<char>> {
    match o {
        Some(s) => Some(s@),
        None => None,
    }
}

/// The selector's value for `key`, when it has a predicate list.
pub open spec fn selector_part(s: Seq<char>, key: Seq<char>) -> Option<Seq<char>> {
    match selector_predicates(s) {
        Some(p) => selector_value(p, key),
        None => None,
    }
}

proof fn lemma_last_char(s: Seq<char>, c: char)
    ensures
        match last_char(s, c) {
            Some(b) => 0 <= b < s.len() && s[b] == c && forall|k: int| b < k < s.len() ==> #[trigger] s[k] != c,
            None => forall|k: int| 0 <= k < s.len() ==> #[trigger] s[k] != c,
        },
    decreases s.len(),
{
    if s.len() > 0 && s.last() != c {
        lemma_last_char(s.drop_last(), c);
        assert forall|k: int| 0 <= k < s.len() - 1 implies s.drop_last()[k] == #[trigger] s[k] by {}
    }
}

pub fn rfind_char(v: &[char], c: char) -> (r: Option<usize>)
    ensures
        r matches Some(b) ==> last_char(v@, c) == Some(b as int),
        r is None ==> last_char(v@, c) is None,
{
    proof {
        lemma_last_char(v@, c);
    }
    let mut i = v.len();
    while i > 0
        invariant
            i <= v.len(),
            forall|k: int| i <= k < v.len() ==> #[trigger] v@[k] != c,
        decreases i,
    {
        if v[i - 1] == c {
            assert(last_char(v@, c) == Some((i - 1) as int)) by {
                lemma_last_char(v@, c);
                match last_char(v@, c) {
                    Some(b) => {
                        if b > i - 1 {
                            assert(v@[b] != c);
                        }
                    },
                    None => {
                        assert(v@[i - 1] == c);
                    },
                }
            }
            return Some(i - 1);
        }
        i -= 1;
    }
    proof {
        lemma_last_char(v@, c);
        if let Some(b) = last_char(v@, c) {
            assert(v@[b] != c);
        }
    }
    None
}

fn value_of(preds: &[char], key: &str) -> (r: Option<String>)
    ensures
        opt_view(r) == selector_value(preds@, key@),
{
    let kv = chars_of(key);
    match find_first(preds, kv.as_slice()) {
        Some(pos) => {
            proof {
                crate::text::lemma_first_occurrence_occurs(preds@, kv@);
            }
            assert(pos + kv@.len() <= preds@.len());
            assert(kv.len() == kv@.len());
            assert(preds.len() == preds@.len());
            let start = pos + kv.len();
            let rest = copy_range(preds, start, preds.len());
            assert(rest@ =~= preds@.skip(pos + key@.len()));
            let q = vec!['\''];
            assert(q@ =~= seq!['\'']);
            match find_first(rest.as_slice(), q.as_slice()) {
                Some(e) => {
                    proof {
                        crate::text::lemma_first_occurrence_occurs(rest@, q@);
                    }
                    let val = copy_range(rest.as_slice(), 0, e);
                    assert(val@ =~= rest@.take(e as int));
                    Some(string_of(val.as_slice()))
                },
                None => None,
            }
        },
        None => None,
    }
}

/// Reads a window selector: the `@Name`, `@ClassName` and `@ProcessName`
/// values between its first `[` and its last `]`. Values not given, and all
/// of them when there are no brackets, are `None`.
pub fn parse_window_selector(selector: &str) -> (r: WindowSelector)
    requires
        selector_brackets_ordered(selector@),
    ensures
        opt_view(r.name) == selector_part(selector@, "@Name='"@),
        opt_view(r.class_name) == selector_part(selector@, "@ClassName='"@),
        opt_view(r.process_name) == selector_part(selector@, "@ProcessName='"@),
{
    let v = chars_of(selector);
    match predicate_list(v.as_slice()) {
        Some(preds) => WindowSelector {
            name: value_of(preds.as_slice(), "@Name='"),
            class_name: value_of(preds.as_slice(), "@ClassName='"),
            process_name: value_of(preds.as_slice(), "@ProcessName='"),
        },
        None => WindowSelector { name: None, class_name: None, process_name: None },
    }
}

#[verifier::rlimit(50)]
fn predicate_list(v: &[char]) -> (r: Option<Vec<char>>)
    requires
        selector_brackets_ordered(v@),
    ensures
        match selector_predicates(v@) {
            Some(p) => r matches Some(x) && x@ == p,
            None => r is None,
        },
{
    let open = vec!['['];
    assert(open@ =~= seq!['[']);
    let found = find_first(v, open.as_slice());
    assert(found matches Some(a) ==> first_occurrence(v@, seq!['[']) == Some(a as int));
    assert(found is None ==> first_occurrence(v@, seq!['[']) is None);
    match found {
        Some(a) => match rfind_char(v, ']') {
            Some(b) => {
                proof {
                    lemma_last_char(v@, ']');
                }
                assert(a < b);
                let x = copy_range(v, a + 1, b);
                assert(x@ == v@.subrange(a + 1, b as int));
                Some(x)
            },
            None => None,
        },
        None => None,
    }
}

/// Whether a top-level window answers a selector: its title and class equal
/// the ones asked for, and its process name too (`None` when the owning
/// process is unknown, which answers no process name).
pub open spec fn window_answers(
    name: Option<Seq<char>>,
    class_name: Option<Seq<char>>,
    process_name: Option<Seq<char>>,
    title: Seq<char>,
    class: Seq<char>,
    process: Option<Seq<char>>,
) -> bool {
    &&& name matches Some(n) ==> title == n
    &&& class_name matches Some(c) ==> class == c
    &&& process_name matches Some(p) ==> process == Some(p)
}

/// What answering a selector means: each part the selector names is
/// compared with the matching property of the window, the name with the
/// title, the class name with the class and the process name with the
/// window's process; a part the selector leaves out is not consulted, so the
/// window's title (or class) plays no part when no name (or class) is asked
/// for, and a selector that names nothing answers every window.
pub proof fn lemma_window_answers_meaning(
    name: Option<Seq<char>>,
    class_name: Option<Seq<char>>,
    process_name: Option<Seq<char>>,
    title: Seq<char>,
    class: Seq<char>,
    process: Option<Seq<char>>,
    other_title: Seq<char>,
    other_class: Seq<char>,
)
    ensures
        window_answers(name, class_name, process_name, title, class, process) <==> ((name is None || name == Some(title))
            && (class_name is None || class_name == Some(class)) && (process_name is None || process == process_name)),
        name is None ==> (window_answers(name, class_name, process_name, title, class, process) <==> window_answers(
            name,
            class_name,
            process_name,
            other_title,
            class,
            process,
        )),
        class_name is None ==> (window_answers(name, class_name, process_name, title, class, process)
            <==> window_answers(name, class_name, process_name, title, other_class, process)),
        window_answers(None, None, None, title, class, process),
{
}

pub open spec fn opt_str(o: Option<&str>) -> Option<Seq<char>> {
    match o {
        Some(s) => Some(s@),
        None => None,
    }
}

/// Whether a window with this title, class and process name answers the selector.
pub fn window_matches_selector(sel: &WindowSelector, title: &str, class: &str, process: Option<&str>) -> (b: bool)
    ensures
        b == window_answers(
            opt_view(sel.name),
            opt_view(sel.class_name),
            opt_view(sel.process_name),
            title@,
            class@,
            opt_str(process),
        ),
{
    if let Some(p) = &sel.process_name {
        match process {
            Some(actual) => {
                if !crate::model::str_eq(actual, p.as_str()) {
                    return false;
                }
            },
            None => {
                return false;
            },
        }
    }
    if let Some(n) = &sel.name {
        if !crate::model::str_eq(title, n.as_str()) {
            return false;
        }
    }
    if let Some(c) = &sel.class_name {
        if !crate::model::str_eq(class, c.as_str()) {
            return false;
        }
    }
    true
}

/// Whether a class name marks a shell window (`Shell...`, `Progman`, `WorkerW`).
pub open spec fn shell_class(c: Seq<char>) -> bool {
    "Shell"@.is_prefix_of(c) || c == "Progman"@ || c == "WorkerW"@
}

/// Whether a class name marks a part of a window rather than a window.
pub open spec fn part_class(c: Seq<char>) -> bool {
    ||| contains_seq(c, "Host"@)
    ||| (contains_seq(c, "View"@) && !contains_seq(c, "Chrome_WidgetWin"@))
    ||| contains_seq(c, "List"@)
    ||| contains_seq(c, "Tab"@)
    ||| contains_seq(c, "Tip"@)
    ||| "Windows.UI"@.is_prefix_of(c)
    ||| "Microsoft.UI"@.is_prefix_of(c)
}

/// Whether a top-level element is listed as a window: a `Window`, `Pane` or
/// `Application` with a title, at least 100 by 100, and neither a shell
/// window nor a part of one.
pub open spec fn listed_window(ct: Seq<char>, title: Seq<char>, class: Seq<char>, width: int, height: int) -> bool {
    &&& (ct == "Window"@ || ct == "Pane"@ || ct == "Application"@)
    &&& title.len() > 0
    &&& width >= 100 && height >= 100
    &&& !shell_class(class)
    &&& !part_class(class)
}

fn text_holds(c: &str, p: &str) -> (b: bool)
    ensures
        b == contains_seq(c@, p@),
{
    let cv = chars_of(c);
    let pv = chars_of(p);
    crate::text::contains_chars(cv.as_slice(), pv.as_slice())
}

fn starts(c: &str, p: &str) -> (b: bool)
    ensures
        b == p@.is_prefix_of(c@),
{
    let cv = chars_of(c);
    let pv = chars_of(p);
    crate::validation::chars_prefix(pv.as_slice(), cv.as_slice())
}

/// Whether an element found under the desktop is listed as a window.
pub fn is_listed_window(ct: &str, title: &str, class: &str, width: i32, height: i32) -> (b: bool)
    ensures
        b == listed_window(ct@, title@, class@, width as int, height as int),
{
    let kind = crate::model::str_eq(ct, "Window") || crate::model::str_eq(ct, "Pane") || crate::model::str_eq(
        ct,
        "Application",
    );
    if !kind || title.is_empty() || width < 100 || height < 100 {
        return false;
    }
    let shell = starts(class, "Shell") || crate::model::str_eq(class, "Progman") || crate::model::str_eq(class, "WorkerW");
    if shell {
        return false;
    }
    let part = text_holds(class, "Host") || (text_holds(class, "View") && !text_holds(class, "Chrome_WidgetWin")) || text_holds(class, "List")
        || text_holds(class, "Tab") || text_holds(class, "Tip") || starts(class, "Windows.UI") || starts(class, "Microsoft.UI");
    !part
}

/// Whether a process is related to a window's process by name (compared in
/// lower case): both names known, and equal, one a prefix of the other, or
/// the pair `weixin` / `wechat` in either order.
pub open spec fn related_names(p: Seq<char>, parent: Seq<char>) -> bool {
    &&& p.len() > 0 && parent.len() > 0
    &&& {
        ||| p == parent
        ||| parent.is_prefix_of(p)
        ||| p.is_prefix_of(parent)
        ||| (contains_seq(parent, "weixin"@) && contains_seq(p, "wechat"@))
        ||| (contains_seq(parent, "wechat"@) && contains_seq(p, "weixin"@))
    }
}

/// Whether the process `process_name` belongs with the window process
/// `parent_name` (both compared in lower case).
pub fn is_related_process(process_name: &str, parent_name: &str) -> (b: bool)
    ensures
        b == related_names(
            crate::matching::to_lower(process_name@),
            crate::matching::to_lower(parent_name@),
        ),
{
    let p = crate::matching::lowercase(process_name);
    let q = crate::matching::lowercase(parent_name);
    if p.as_str().is_empty() || q.as_str().is_empty() {
        return false;
    }
    crate::model::str_eq(p.as_str(), q.as_str()) || starts(p.as_str(), q.as_str()) || starts(q.as_str(), p.as_str())
        || (text_holds(q.as_str(), "weixin") && text_holds(p.as_str(), "wechat")) || (text_holds(q.as_str(), "wechat")
        && text_holds(p.as_str(), "weixin"))
}

/// The executable name in a process image path: the part after the last
/// `\`, without a trailing `.exe`.
pub open spec fn exe_name(path: Seq<char>) -> Seq<char> {
    let file = match last_char(path, '\\') {
        Some(b) => path.skip(b + 1),
        None => path,
    };
    if ".exe"@.is_suffix_of(file) {
        file.take(file.len() - 4)
    } else {
        file
    }
}

/// The executable name in a process image path.
pub fn process_name_from_path(path: &str) -> (r: String)
    ensures
        r@ == exe_name(path@),
{
    proof {
        reveal_strlit(".exe");
    }
    let v = chars_of(path);
    let start = match rfind_char(v.as_slice(), '\\') {
        Some(b) => {
            proof {
                lemma_last_char(v@, '\\');
            }
            assert(b < v.len());
            b + 1
        },
        None => 0,
    };
    let file = copy_range(v.as_slice(), start, v.len());
    assert(file@ =~= (match last_char(v@, '\\') {
        Some(b) => v@.skip(b + 1),
        None => v@,
    }));
    let n = file.len();
    let is_exe = n >= 4 && file[n - 4] == '.' && file[n - 3] == 'e' && file[n - 2] == 'x' && file[n - 1] == 'e';
    assert(is_exe == ".exe"@.is_suffix_of(file@)) by {
        if ".exe"@.is_suffix_of(file@) {
            assert(file@.subrange(n - 4, n as int) == ".exe"@);
            assert(file@[n - 4] == file@.subrange(n - 4, n as int)[0]);
            assert(file@[n - 3] == file@.subrange(n - 4, n as int)[1]);
            assert(file@[n - 2] == file@.subrange(n - 4, n as int)[2]);
            assert(file@[n - 1] == file@.subrange(n - 4, n as int)[3]);
        }
        if is_exe {
            assert(file@.subrange(n - 4, n as int) =~= ".exe"@);
        }
    }
    let end = if is_exe {
        n - 4
    } else {
        n
    };
    string_of(copy_range(file.as_slice(), 0, end).as_slice())
}

/// Whether a selector's predicate list can be taken out (see
/// `parse_window_selector`).
pub fn selector_brackets_ok(selector: &str) -> (b: bool)
    ensures
        b == selector_brackets_ordered(selector@),
{
    let v = chars_of(selector);
    let open = vec!['['];
    assert(open@ =~= seq!['[']);
    let found = find_first(v.as_slice(), open.as_slice());
    assert(found matches Some(a) ==> first_occurrence(v@, seq!['[']) == Some(a as int));
    assert(found is None ==> first_occurrence(v@, seq!['[']) is None);
    match found {
        Some(a) => match rfind_char(v.as_slice(), ']') {
            Some(b) => a < b,
            None => true,
        },
        None => true,
    }
}

} // verus!
