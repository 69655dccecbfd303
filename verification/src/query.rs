//! The decorations an element XPath may carry around its steps: a locate-mode
//! prefix such as `[fast-child @ClassName='X']`, a search-mode suffix such as
//! `:first`, and a positional predicate `(xpath)[N]`; and how the search mode
//! and position select among the elements found.
use vstd::prelude::*;
use crate::grammar::{all_tests, char_end, scan_all, scanned_as, skip_to_char, PredMatch};
use crate::step::string_of_range;
use crate::text::{
    chars_of, copy_range, is_ascii_digit, starts_with_lit, trim, trim_bounds,
};

verus! {

/// How many of the elements found a query returns.
#[derive(Debug, Clone, Copy, PartialEq, Eq, Structural)]
pub enum SearchMode {
    /// All of them (`:all`, or no suffix).
    All,
    /// The first one (`:first`).
    First,
    /// The only one: none when more than one was found (`:onlyone`).
    OnlyOne,
}

/// The search mode written as a suffix of `s`, and `s` without it.
pub open spec fn search_suffix(s: Seq<char>) -> (SearchMode, Seq<char>) {
    if ":first"@.is_suffix_of(s) {
        (SearchMode::First, s.take(s.len() - 6))
    } else if ":onlyone"@.is_suffix_of(s) {
        (SearchMode::OnlyOne, s.take(s.len() - 8))
    } else if ":all"@.is_suffix_of(s) {
        (SearchMode::All, s.take(s.len() - 4))
    } else {
        (SearchMode::All, s)
    }
}

fn ends_with_lit(v: &[char], p: &str) -> (b: bool)
    ensures
        b == p@.is_suffix_of(v@),
{
    let pv = chars_of(p);
    if pv.len() > v.len() {
        return false;
    }
    let off = v.len() - pv.len();
    let tail = copy_range(v, off, v.len());
    let b = starts_with_lit(tail.as_slice(), p);
    assert(b == p@.is_suffix_of(v@)) by {
        assert(tail@ =~= v@.subrange(off as int, v@.len() as int));
        if b {
            assert(tail@.subrange(0, p@.len() as int) =~= tail@);
        }
        if p@.is_suffix_of(v@) {
            assert(tail@.subrange(0, p@.len() as int) =~= tail@);
        }
    }
    b
}

impl SearchMode {
    /// Splits a search-mode suffix (`:first`, `:onlyone`, `:all`) off an XPath.
    pub fn strip_suffix(xpath: &str) -> (r: (SearchMode, String))
        ensures
            r.0 == search_suffix(xpath@).0,
            r.1@ == search_suffix(xpath@).1,
    {
        proof {
            reveal_strlit(":first");
            reveal_strlit(":onlyone");
            reveal_strlit(":all");
        }
        let v = chars_of(xpath);
        let n = v.len();
        if ends_with_lit(v.as_slice(), ":first") {
            (SearchMode::First, string_of_range(v.as_slice(), 0, n - 6))
        } else if ends_with_lit(v.as_slice(), ":onlyone") {
            (SearchMode::OnlyOne, string_of_range(v.as_slice(), 0, n - 8))
        } else if ends_with_lit(v.as_slice(), ":all") {
            (SearchMode::All, string_of_range(v.as_slice(), 0, n - 4))
        } else {
            (SearchMode::All, string_of_range(v.as_slice(), 0, n))
        }
    }
}

/// Which UIA tree a search walks, and whether it starts at a child window.
#[derive(Debug, Clone, Copy, PartialEq, Eq, Structural)]
pub enum LocateMode {
    /// Control view (`[fast]`).
    Fast,
    /// Raw view (`[full]`).
    Full,
    /// Control view from a child window (`[fast-child]`).
    FastChild,
    /// Raw view from a child window (`[full-child]`).
    FullChild,
}

impl LocateMode {
    pub open spec fn child_mode(self) -> bool {
        self is FastChild || self is FullChild
    }

    /// Whether the search starts at a child window.
    pub fn is_child_mode(&self) -> (b: bool)
        ensures
            b == self.child_mode(),
    {
        match self {
            LocateMode::FastChild | LocateMode::FullChild => true,
            _ => false,
        }
    }
}

/// The child window a child-mode search starts at, by class and title.
#[derive(Debug)]
pub struct ChildHwndHint {
    pub hwnd_class: String,
    pub hwnd_title: String,
}

pub open spec fn locate_mode_named(w: Seq<char>) -> Option<LocateMode> {
    if w == "fast"@ {
        Some(LocateMode::Fast)
    } else if w == "full"@ {
        Some(LocateMode::Full)
    } else if w == "fast-child"@ {
        Some(LocateMode::FastChild)
    } else if w == "full-child"@ {
        Some(LocateMode::FullChild)
    } else {
        None
    }
}

/// The value of the first `@name='...'` test among `ms`.
pub open spec fn first_value(ms: Seq<PredMatch>, name: Seq<char>) -> Option<Seq<char>>
    decreases ms.len(),
{
    if ms.len() == 0 {
        None
    } else if ms[0].attr == name {
        Some(ms[0].value)
    } else {
        first_value(ms.drop_first(), name)
    }
}

/// A locate-mode prefix `[mode @ClassName='c' @Name='t']` at the start of
/// `s`: the mode, the child-window hint (present when a class name or a name
/// is given; a missing one reads as empty), and the rest of `s`. Text without
/// such a prefix (or with an unknown mode) comes back whole.
pub open spec fn locate_prefix(s: Seq<char>) -> (Option<LocateMode>, Option<(Seq<char>, Seq<char>)>, Seq<char>) {
    let close = char_end(s, 1, ']');
    if s.len() > 0 && s[0] == '[' && close < s.len() {
        let content = s.subrange(1, close);
        let w = char_end(content, 0, ' ');
        match locate_mode_named(content.take(w)) {
            Some(mode) => {
                let ms = all_tests(content.skip(w), None);
                let class = first_value(ms, "ClassName"@);
                let title = first_value(ms, "Name"@);
                let hint = if class is Some || title is Some {
                    Some(
                        (
                            match class {
                                Some(c) => c,
                                None => seq![],
                            },
                            match title {
                                Some(t) => t,
                                None => seq![],
                            },
                        ),
                    )
                } else {
                    None
                };
                (Some(mode), hint, s.skip(close + 1))
            },
            None => (None, None, s),
        }
    } else {
        (None, None, s)
    }
}

/// The value of the first `@name='...'` test among the scanned tests of `v`.
fn first_value_of(v: &[char], ms: &Vec<crate::grammar::ScanMatch>, Ghost(found): Ghost<Seq<PredMatch>>, name: &str) -> (r: Option<String>)
    requires
        scanned_as(ms@, v@, found),
    ensures
        match first_value(found, name@) {
            Some(x) => r matches Some(y) && y@ == x,
            None => r is None,
        },
{
    let mut i: usize = 0;
    assert(found.skip(0) =~= found);
    while i < ms.len()
        invariant
            i <= ms.len(),
            scanned_as(ms@, v@, found),
            first_value(found, name@) == first_value(found.skip(i as int), name@),
        decreases ms.len() - i,
    {
        let m = ms[i];
        assert(ms@[i as int].wf(v@.len()));
        assert(m.in_text(v@) == found[i as int]);
        assert(found.skip(i as int)[0] == found[i as int]);
        assert(found.skip(i as int).drop_first() =~= found.skip(i + 1));
        let attr = string_of_range(v, m.attr_start, m.attr_end);
        if crate::model::str_eq(attr.as_str(), name) {
            return Some(string_of_range(v, m.value_start, m.value_end));
        }
        i += 1;
    }
    assert(found.skip(ms.len() as int).len() == 0);
    None
}

impl LocateMode {
    /// Splits a locate-mode prefix (`[fast]`, `[full]`, `[fast-child ...]`,
    /// `[full-child ...]`) off an XPath: the mode, the child-window hint
    /// given by its `@ClassName` and `@Name` tests, and the rest.
    pub fn strip_xpath_prefix(xpath: &str) -> (r: (Option<LocateMode>, Option<ChildHwndHint>, String))
        ensures
            r.0 == locate_prefix(xpath@).0,
            match locate_prefix(xpath@).1 {
                Some((c, t)) => r.1 matches Some(h) && h.hwnd_class@ == c && h.hwnd_title@ == t,
                None => r.1 is None,
            },
            r.2@ == locate_prefix(xpath@).2,
    {
        let v = chars_of(xpath);
        let n = v.len();
        if n == 0 || v[0] != '[' {
            return (None, None, string_of_range(v.as_slice(), 0, n));
        }
        let close = skip_to_char(v.as_slice(), 1, ']');
        if close >= n {
            return (None, None, string_of_range(v.as_slice(), 0, n));
        }
        let content = copy_range(v.as_slice(), 1, close);
        let w = skip_to_char(content.as_slice(), 0, ' ');
        let word = string_of_range(content.as_slice(), 0, w);
        assert(word@ =~= content@.take(w as int));
        let mode = if crate::model::str_eq(word.as_str(), "fast") {
            LocateMode::Fast
        } else if crate::model::str_eq(word.as_str(), "full") {
            LocateMode::Full
        } else if crate::model::str_eq(word.as_str(), "fast-child") {
            LocateMode::FastChild
        } else if crate::model::str_eq(word.as_str(), "full-child") {
            LocateMode::FullChild
        } else {
            return (None, None, string_of_range(v.as_slice(), 0, n));
        };
        let attrs = copy_range(content.as_slice(), w, content.len());
        assert(attrs@ =~= content@.skip(w as int));
        let ms = scan_all(attrs.as_slice(), None);
        let ghost found = all_tests(attrs@, None);
        let class = first_value_of(attrs.as_slice(), &ms, Ghost(found), "ClassName");
        let title = first_value_of(attrs.as_slice(), &ms, Ghost(found), "Name");
        let hint = if class.is_some() || title.is_some() {
            let hwnd_class = match class {
                Some(c) => c,
                None => String::new(),
            };
            let hwnd_title = match title {
                Some(t) => t,
                None => String::new(),
            };
            Some(ChildHwndHint { hwnd_class, hwnd_title })
        } else {
            None
        };
        let rest = string_of_range(v.as_slice(), close + 1, n);
        assert(rest@ =~= v@.skip(close + 1));
        (Some(mode), hint, rest)
    }
}

/// Every character of `d` is an ASCII digit.
pub open spec fn all_digits(d: Seq<char>) -> bool {
    forall|k: int| 0 <= k < d.len() ==> is_ascii_digit(#[trigger] d[k])
}

/// The position written as `[N]` (white space around allowed; `N` an
/// unsigned decimal that fits in `usize`, optionally with a leading `+`).
pub open spec fn positional(s: Seq<char>) -> Option<nat> {
    let t = trim(s);
    if t.len() >= 3 && t[0] == '[' && t.last() == ']' {
        let inner = t.subrange(1, t.len() - 1);
        let digits = if inner[0] == '+' {
            inner.drop_first()
        } else {
            inner
        };
        if digits.len() > 0 && all_digits(digits) && crate::step::digits_value(digits) <= usize::MAX {
            Some(crate::step::digits_value(digits))
        } else {
            None
        }
    } else {
        None
    }
}

/// Parses a positional predicate such as `[2]`.
pub fn parse_positional_predicate(s: &str) -> (r: Option<usize>)
    ensures
        match positional(s@) {
            Some(n) => r == Some(n as usize),
            None => r is None,
        },
{
    let all = chars_of(s);
    let (a, b) = trim_bounds(all.as_slice());
    let t = copy_range(all.as_slice(), a, b);
    assert(t@ == trim(s@));
    let n = t.len();
    if !(n >= 3 && t[0] == '[' && t[n - 1] == ']') {
        return None;
    }
    let ghost inner = t@.subrange(1, n - 1);
    let mut j: usize = 1;
    if t[1] == '+' {
        j = 2;
    }
    let ghost digits = t@.subrange(j as int, n - 1);
    assert(digits =~= (if inner[0] == '+' { inner.drop_first() } else { inner }));
    if j >= n - 1 {
        return None;
    }
    let mut val: usize = 0;
    let mut k = j;
    while k < n - 1
        invariant
            j <= k <= n - 1,
            n == t.len(),
            n >= 3,
            t@ == trim(s@),
            t@[0] == '[',
            t@[n - 1] == ']',
            inner == t@.subrange(1, n - 1),
            digits == (if inner[0] == '+' { inner.drop_first() } else { inner }),
            digits == t@.subrange(j as int, n - 1),
            forall|q: int| j <= q < k ==> is_ascii_digit(#[trigger] t@[q]),
            val == crate::step::digits_value(t@.subrange(j as int, k as int)),
        decreases n - 1 - k,
    {
        let c = t[k];
        if !('0' <= c && c <= '9') {
            assert(!is_ascii_digit(digits[k - j]));
            assert(!(forall|q: int| 0 <= q < digits.len() ==> is_ascii_digit(#[trigger] digits[q])));
            return None;
        }
        let d: usize = ((c as u32) - ('0' as u32)) as usize;
        assert(t@.subrange(j as int, k + 1).drop_last() =~= t@.subrange(j as int, k as int));
        assert(t@.subrange(j as int, k + 1).last() == c);
        assert(crate::step::digits_value(t@.subrange(j as int, k + 1)) == val * 10 + d);
        match val.checked_mul(10) {
            Some(v10) => match v10.checked_add(d) {
                Some(nv) => {
                    val = nv;
                },
                None => {
                    proof {
                        crate::step::lemma_digits_value_prefix(digits, k + 1 - j);
                        assert(digits.take(k + 1 - j) =~= t@.subrange(j as int, k + 1));
                    }
                    return None;
                },
            },
            None => {
                proof {
                    crate::step::lemma_digits_value_prefix(digits, k + 1 - j);
                    assert(digits.take(k + 1 - j) =~= t@.subrange(j as int, k + 1));
                }
                return None;
            },
        }
        k += 1;
    }
    assert(forall|q: int| 0 <= q < digits.len() ==> is_ascii_digit(#[trigger] digits[q])) by {
        assert forall|q: int| 0 <= q < digits.len() implies is_ascii_digit(#[trigger] digits[q]) by {
            assert(digits[q] == t@[q + j]);
        }
    }
    assert(t@.subrange(j as int, k as int) =~= digits);
    Some(val)
}

/// The elements a search mode keeps of those found.
pub open spec fn select_mode<T>(s: Seq<T>, mode: SearchMode) -> Seq<T> {
    match mode {
        SearchMode::All => s,
        SearchMode::First => if s.len() > 1 {
            s.take(1)
        } else {
            s
        },
        SearchMode::OnlyOne => if s.len() > 1 {
            seq![]
        } else {
            s
        },
    }
}

/// The elements a positional predicate `[N]` keeps: the `N`th (from 1), or
/// none when there are elements but no `N`th.
pub open spec fn select_position<T>(s: Seq<T>, pos: Option<usize>) -> Seq<T> {
    match pos {
        Some(p) => if p > 0 && s.len() >= p {
            seq![s[p - 1]]
        } else if s.len() > 0 {
            seq![]
        } else {
            s
        },
        None => s,
    }
}

/// Keeps the elements the search mode asks for.
pub fn apply_search_mode<T>(results: Vec<T>, mode: SearchMode) -> (r: Vec<T>)
    ensures
        r@ == select_mode(results@, mode),
{
    let mut results = results;
    match mode {
        SearchMode::All => results,
        SearchMode::First => {
            if results.len() > 1 {
                results.truncate(1);
            }
            results
        },
        SearchMode::OnlyOne => {
            if results.len() > 1 {
                Vec::new()
            } else {
                results
            }
        },
    }
}

/// What a positional predicate and a search mode keep, counted from the
/// start of the results: with a position `p` within the results, exactly the
/// `p`-th element (index `p - 1`), whatever the mode; with a position past
/// the results, nothing; without a position, all results for `:all`, the
/// first one for `:first`, and for `:onlyone` the results only when there is
/// at most one.
pub proof fn lemma_position_and_mode<T>(s: Seq<T>, p: usize, mode: SearchMode)
    ensures
        1 <= p <= s.len() ==> select_mode(select_position(s, Some(p)), mode).len() == 1 && select_mode(
            select_position(s, Some(p)),
            mode,
        )[0] == s[p - 1],
        p == 1 && s.len() > 0 ==> select_mode(select_position(s, Some(p)), mode)[0] == s[0],
        !(1 <= p <= s.len()) ==> select_mode(select_position(s, Some(p)), mode).len() == 0,
        select_mode(select_position(s, None), SearchMode::All) == s,
        s.len() > 0 ==> select_mode(select_position(s, None), SearchMode::First).len() == 1 && select_mode(
            select_position(s, None),
            SearchMode::First,
        )[0] == s[0],
        s.len() <= 1 ==> select_mode(select_position(s, None), SearchMode::OnlyOne) == s,
        s.len() > 1 ==> select_mode(select_position(s, None), SearchMode::OnlyOne).len() == 0,
        select_mode(select_position(s, None), SearchMode::First).len() <= 1,
{
}

/// Keeps the element at the given position (from 1), then applies the search mode.
pub fn apply_positional_and_search_mode<T>(results: Vec<T>, position_index: Option<usize>, search_mode: SearchMode) -> (r: Vec<T>)
    ensures
        r@ == select_mode(select_position(results@, position_index), search_mode),
{
    let mut results = results;
    let picked = match position_index {
        Some(pos) => {
            if pos > 0 && results.len() >= pos {
                let ghost before = results@;
                let e = results.swap_remove(pos - 1);
                let mut one: Vec<T> = Vec::new();
                one.push(e);
                assert(one@ =~= seq![before[pos - 1]]);
                one
            } else if results.len() > 0 {
                Vec::new()
            } else {
                results
            }
        },
        None => results,
    };
    apply_search_mode(picked, search_mode)
}

/// Applying a search mode twice keeps what applying it once keeps, and it
/// only ever keeps a prefix of the elements found; `:first` and `:onlyone`
/// keep at most one.
pub proof fn lemma_search_mode_idempotent<T>(s: Seq<T>, mode: SearchMode)
    ensures
        select_mode(select_mode(s, mode), mode) == select_mode(s, mode),
        select_mode(s, mode).is_prefix_of(s),
        mode != SearchMode::All ==> select_mode(s, mode).len() <= 1,
        mode == SearchMode::OnlyOne && s.len() == 1 ==> select_mode(s, mode) == s,
{
    assert(select_mode(s, mode).is_prefix_of(s)) by {
        if mode == SearchMode::First && s.len() > 1 {
            assert(s.take(1) =~= s.subrange(0, 1));
        }
        if mode == SearchMode::OnlyOne && s.len() > 1 {
            assert(Seq::<T>::empty() =~= s.subrange(0, 0));
        }
    }
}

} // verus!
