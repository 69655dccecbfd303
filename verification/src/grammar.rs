//! The lexical grammar of XPath step predicates.
//!
//! A step's predicate text is scanned left to right for four kinds of
//! attribute tests, each found at the leftmost position where it matches and
//! the scan resuming after it:
//!
//! * `@Attr='value'`
//! * `starts-with(@Attr, 'value')` or `@Attr=starts-with('value')`
//! * `contains(@Attr, 'value')` or `@Attr=contains('value')`
//! * `matches(@Attr, 'pattern'[, 'flags'])` or `@Attr=matches('pattern'[, 'flags'])`
//!
//! White space may stand around `=`, `,` and inside the parentheses; an
//! attribute name is a run of word characters; a quoted value runs to the next
//! `'`.
use vstd::prelude::*;
use crate::text::{is_white_space, is_word_char, occurs_at, white_space, word_char, matches_at};

verus! {

/// The first position at or after `i` that does not hold white space.
pub open spec fn ws_end(s: Seq<char>, i: int) -> int
    decreases s.len() - i,
{
    if 0 <= i < s.len() && is_white_space(s[i]) {
        ws_end(s, i + 1)
    } else {
        i
    }
}

/// The first position at or after `i` that does not hold a word character.
pub open spec fn word_end(s: Seq<char>, i: int) -> int
    decreases s.len() - i,
{
    if 0 <= i < s.len() && is_word_char(s[i]) {
        word_end(s, i + 1)
    } else {
        i
    }
}

/// The first position at or after `i` that holds `'` (or the end).
pub open spec fn quote_end(s: Seq<char>, i: int) -> int
    decreases s.len() - i,
{
    if 0 <= i < s.len() && s[i] != '\'' {
        quote_end(s, i + 1)
    } else {
        i
    }
}

pub open spec fn char_at(s: Seq<char>, i: int, c: char) -> bool {
    0 <= i < s.len() && s[i] == c
}

/// A quoted value starting at `i`: the position after the closing quote and
/// the characters between the quotes.
pub open spec fn quoted_at(s: Seq<char>, i: int) -> Option<(int, Seq<char>)> {
    if char_at(s, i, '\'') {
        let e = quote_end(s, i + 1);
        if e < s.len() {
            Some((e + 1, s.subrange(i + 1, e)))
        } else {
            None
        }
    } else {
        None
    }
}

/// An attribute reference `@name` starting at `i`: the position after the
/// name, and the name.
pub open spec fn attr_at(s: Seq<char>, i: int) -> Option<(int, Seq<char>)> {
    if char_at(s, i, '@') {
        let e = word_end(s, i + 1);
        if e > i + 1 {
            Some((e, s.subrange(i + 1, e)))
        } else {
            None
        }
    } else {
        None
    }
}

/// One attribute test found in predicate text.
pub struct PredMatch {
    /// Position just after the test.
    pub end: int,
    pub attr: Seq<char>,
    pub value: Seq<char>,
    /// The flags of a `matches` test (empty when none are given).
    pub flags: Seq<char>,
}

/// `@Attr='value'` at `i`.
pub open spec fn attr_eq_at(s: Seq<char>, i: int) -> Option<PredMatch> {
    match attr_at(s, i) {
        Some((a, name)) => {
            let j = ws_end(s, a);
            if char_at(s, j, '=') {
                match quoted_at(s, ws_end(s, j + 1)) {
                    Some((e, v)) => Some(PredMatch { end: e, attr: name, value: v, flags: seq![] }),
                    None => None,
                }
            } else {
                None
            }
        },
        None => None,
    }
}

/// What follows the quoted value of a function test at `p`: optional flags
/// (when allowed) and the closing parenthesis.
pub open spec fn call_tail(s: Seq<char>, p: int, allow_flags: bool) -> Option<(int, Seq<char>)> {
    let q = ws_end(s, p);
    if allow_flags && char_at(s, q, ',') {
        match quoted_at(s, ws_end(s, q + 1)) {
            Some((e, f)) => {
                let t = ws_end(s, e);
                if char_at(s, t, ')') {
                    Some((t + 1, f))
                } else {
                    None
                }
            },
            None => None,
        }
    } else if char_at(s, q, ')') {
        Some((q + 1, seq![]))
    } else {
        None
    }
}

/// The standard form `f(@Attr, 'value')` at `i`, where `call` is `f(`.
pub open spec fn call_form_at(s: Seq<char>, i: int, call: Seq<char>, allow_flags: bool) -> Option<PredMatch> {
    if occurs_at(s, i, call) {
        match attr_at(s, ws_end(s, i + call.len())) {
            Some((a, name)) => {
                let c = ws_end(s, a);
                if char_at(s, c, ',') {
                    match quoted_at(s, ws_end(s, c + 1)) {
                        Some((e, v)) => match call_tail(s, e, allow_flags) {
                            Some((t, f)) => Some(PredMatch { end: t, attr: name, value: v, flags: f }),
                            None => None,
                        },
                        None => None,
                    }
                } else {
                    None
                }
            },
            None => None,
        }
    } else {
        None
    }
}

/// The attribute form `@Attr=f('value')` at `i`, where `call` is `f(`.
pub open spec fn eq_form_at(s: Seq<char>, i: int, call: Seq<char>, allow_flags: bool) -> Option<PredMatch> {
    match attr_at(s, i) {
        Some((a, name)) => {
            let j = ws_end(s, a);
            let k = ws_end(s, j + 1);
            if char_at(s, j, '=') && occurs_at(s, k, call) {
                match quoted_at(s, ws_end(s, k + call.len())) {
                    Some((e, v)) => match call_tail(s, e, allow_flags) {
                        Some((t, f)) => Some(PredMatch { end: t, attr: name, value: v, flags: f }),
                        None => None,
                    },
                    None => None,
                }
            } else {
                None
            }
        },
        None => None,
    }
}

/// A function test in either form at `i`.
pub open spec fn func_at(s: Seq<char>, i: int, call: Seq<char>, allow_flags: bool) -> Option<PredMatch> {
    match call_form_at(s, i, call, allow_flags) {
        Some(m) => Some(m),
        None => eq_form_at(s, i, call, allow_flags),
    }
}

/// Which test a scan looks for: `None` for `@Attr='value'`, otherwise the
/// function's opening text and whether flags may follow.
pub open spec fn test_at(s: Seq<char>, i: int, func: Option<(Seq<char>, bool)>) -> Option<PredMatch> {
    match func {
        None => attr_eq_at(s, i),
        Some((call, flags)) => func_at(s, i, call, flags),
    }
}

/// All non-overlapping tests of one kind in `s[i..]`, leftmost first.
pub open spec fn tests_from(s: Seq<char>, i: int, func: Option<(Seq<char>, bool)>) -> Seq<PredMatch>
    decreases s.len() - i,
{
    if i < 0 || i >= s.len() {
        seq![]
    } else {
        match test_at(s, i, func) {
            Some(m) => if i < m.end <= s.len() {
                seq![m] + tests_from(s, m.end, func)
            } else {
                seq![]
            },
            None => tests_from(s, i + 1, func),
        }
    }
}

/// All tests of one kind in `s`.
pub open spec fn all_tests(s: Seq<char>, func: Option<(Seq<char>, bool)>) -> Seq<PredMatch> {
    tests_from(s, 0, func)
}

pub proof fn lemma_ws_end(s: Seq<char>, i: int)
    requires
        0 <= i <= s.len(),
    ensures
        i <= ws_end(s, i) <= s.len(),
    decreases s.len() - i,
{
    if i < s.len() && is_white_space(s[i]) {
        lemma_ws_end(s, i + 1);
    }
}

pub proof fn lemma_word_end(s: Seq<char>, i: int)
    requires
        0 <= i <= s.len(),
    ensures
        i <= word_end(s, i) <= s.len(),
    decreases s.len() - i,
{
    if i < s.len() && is_word_char(s[i]) {
        lemma_word_end(s, i + 1);
    }
}

pub proof fn lemma_quote_end(s: Seq<char>, i: int)
    requires
        0 <= i <= s.len(),
    ensures
        i <= quote_end(s, i) <= s.len(),
    decreases s.len() - i,
{
    if i < s.len() && s[i] != '\'' {
        lemma_quote_end(s, i + 1);
    }
}

pub fn skip_ws(v: &[char], i: usize) -> (r: usize)
    requires
        i <= v.len(),
    ensures
        r as int == ws_end(v@, i as int),
        i <= r <= v.len(),
{
    let mut j = i;
    while j < v.len() && white_space(v[j])
        invariant
            i <= j <= v.len(),
            ws_end(v@, j as int) == ws_end(v@, i as int),
        decreases v.len() - j,
    {
        j += 1;
    }
    j
}

pub fn skip_word(v: &[char], i: usize) -> (r: usize)
    requires
        i <= v.len(),
    ensures
        r as int == word_end(v@, i as int),
        i <= r <= v.len(),
{
    let mut j = i;
    while j < v.len() && word_char(v[j])
        invariant
            i <= j <= v.len(),
            word_end(v@, j as int) == word_end(v@, i as int),
        decreases v.len() - j,
    {
        j += 1;
    }
    j
}

pub fn skip_to_quote(v: &[char], i: usize) -> (r: usize)
    requires
        i <= v.len(),
    ensures
        r as int == quote_end(v@, i as int),
        i <= r <= v.len(),
{
    let mut j = i;
    while j < v.len() && v[j] != '\''
        invariant
            i <= j <= v.len(),
            quote_end(v@, j as int) == quote_end(v@, i as int),
        decreases v.len() - j,
    {
        j += 1;
    }
    j
}

pub fn has_char_at(v: &[char], i: usize, c: char) -> (b: bool)
    ensures
        b == char_at(v@, i as int, c),
{
    i < v.len() && v[i] == c
}

/// Scans a quoted value at `i`: `(end, close)` where the value is `v[i+1..close]`.
pub fn scan_quoted(v: &[char], i: usize) -> (r: Option<(usize, usize)>)
    requires
        i <= v.len(),
    ensures
        match quoted_at(v@, i as int) {
            Some((e, val)) => r matches Some((end, close)) && end == e && i + 1 <= close
                && close < v.len() && end == close + 1 && val == v@.subrange(i + 1, close as int),
            None => r is None,
        },
{
    if has_char_at(v, i, '\'') {
        let e = skip_to_quote(v, i + 1);
        if e < v.len() {
            Some((e + 1, e))
        } else {
            None
        }
    } else {
        None
    }
}

/// Scans an attribute reference at `i`: `(end)` where the name is `v[i+1..end]`.
pub fn scan_attr(v: &[char], i: usize) -> (r: Option<usize>)
    requires
        i <= v.len(),
    ensures
        match attr_at(v@, i as int) {
            Some((e, name)) => r matches Some(end) && end == e && i + 1 < end <= v.len() && name
                == v@.subrange(i + 1, end as int),
            None => r is None,
        },
{
    if has_char_at(v, i, '@') {
        let e = skip_word(v, i + 1);
        if e > i + 1 {
            Some(e)
        } else {
            None
        }
    } else {
        None
    }
}

/// One test found by a scan, as positions in the scanned text.
#[derive(Clone, Copy)]
pub struct ScanMatch {
    pub end: usize,
    pub attr_start: usize,
    pub attr_end: usize,
    pub value_start: usize,
    pub value_end: usize,
    pub flags_start: usize,
    pub flags_end: usize,
}

impl ScanMatch {
    pub open spec fn wf(self, len: nat) -> bool {
        &&& self.attr_start <= self.attr_end <= len
        &&& self.value_start <= self.value_end <= len
        &&& self.flags_start <= self.flags_end <= len
        &&& self.end <= len
    }

    pub open spec fn in_text(self, s: Seq<char>) -> PredMatch {
        PredMatch {
            end: self.end as int,
            attr: s.subrange(self.attr_start as int, self.attr_end as int),
            value: s.subrange(self.value_start as int, self.value_end as int),
            flags: s.subrange(self.flags_start as int, self.flags_end as int),
        }
    }
}

/// The text after a quoted value: `(end, flags_start, flags_end)`.
fn scan_call_tail(v: &[char], p: usize, allow_flags: bool) -> (r: Option<(usize, usize, usize)>)
    requires
        p <= v.len(),
    ensures
        match call_tail(v@, p as int, allow_flags) {
            Some((t, f)) => r matches Some((end, f0, f1)) && end == t && f0 <= f1 <= v.len()
                && end <= v.len() && f == v@.subrange(f0 as int, f1 as int),
            None => r is None,
        },
{
    let q = skip_ws(v, p);
    if allow_flags && has_char_at(v, q, ',') {
        let r0 = skip_ws(v, q + 1);
        match scan_quoted(v, r0) {
            Some((e, close)) => {
                let t = skip_ws(v, e);
                if has_char_at(v, t, ')') {
                    Some((t + 1, r0 + 1, close))
                } else {
                    None
                }
            },
            None => None,
        }
    } else if has_char_at(v, q, ')') {
        Some((q + 1, q, q))
    } else {
        None
    }
}

/// Scans `@Attr='value'` at `i`.
pub fn scan_attr_eq(v: &[char], i: usize) -> (r: Option<ScanMatch>)
    requires
        i <= v.len(),
    ensures
        match attr_eq_at(v@, i as int) {
            Some(m) => r matches Some(sm) && sm.wf(v@.len()) && sm.in_text(v@) == m,
            None => r is None,
        },
{
    match scan_attr(v, i) {
        Some(a) => {
            let j = skip_ws(v, a);
            if has_char_at(v, j, '=') {
                let k = skip_ws(v, j + 1);
                match scan_quoted(v, k) {
                    Some((e, close)) => {
                        let sm = ScanMatch {
                            end: e,
                            attr_start: i + 1,
                            attr_end: a,
                            value_start: k + 1,
                            value_end: close,
                            flags_start: e,
                            flags_end: e,
                        };
                        assert(sm.in_text(v@).flags =~= seq![]);
                        Some(sm)
                    },
                    None => None,
                }
            } else {
                None
            }
        },
        None => None,
    }
}

fn scan_call_form(v: &[char], i: usize, call: &[char], allow_flags: bool) -> (r: Option<ScanMatch>)
    requires
        i <= v.len(),
    ensures
        match call_form_at(v@, i as int, call@, allow_flags) {
            Some(m) => r matches Some(sm) && sm.wf(v@.len()) && sm.in_text(v@) == m,
            None => r is None,
        },
{
    if !matches_at(v, i, call) {
        return None;
    }
    let a0 = skip_ws(v, i + call.len());
    match scan_attr(v, a0) {
        Some(a) => {
            let c = skip_ws(v, a);
            if has_char_at(v, c, ',') {
                let k = skip_ws(v, c + 1);
                match scan_quoted(v, k) {
                    Some((e, close)) => match scan_call_tail(v, e, allow_flags) {
                        Some((t, f0, f1)) => Some(
                            ScanMatch {
                                end: t,
                                attr_start: a0 + 1,
                                attr_end: a,
                                value_start: k + 1,
                                value_end: close,
                                flags_start: f0,
                                flags_end: f1,
                            },
                        ),
                        None => None,
                    },
                    None => None,
                }
            } else {
                None
            }
        },
        None => None,
    }
}

fn scan_eq_form(v: &[char], i: usize, call: &[char], allow_flags: bool) -> (r: Option<ScanMatch>)
    requires
        i <= v.len(),
    ensures
        match eq_form_at(v@, i as int, call@, allow_flags) {
            Some(m) => r matches Some(sm) && sm.wf(v@.len()) && sm.in_text(v@) == m,
            None => r is None,
        },
{
    match scan_attr(v, i) {
        Some(a) => {
            let j = skip_ws(v, a);
            if !has_char_at(v, j, '=') {
                return None;
            }
            let k = skip_ws(v, j + 1);
            if !matches_at(v, k, call) {
                return None;
            }
            let q0 = skip_ws(v, k + call.len());
            match scan_quoted(v, q0) {
                Some((e, close)) => match scan_call_tail(v, e, allow_flags) {
                    Some((t, f0, f1)) => Some(
                        ScanMatch {
                            end: t,
                            attr_start: i + 1,
                            attr_end: a,
                            value_start: q0 + 1,
                            value_end: close,
                            flags_start: f0,
                            flags_end: f1,
                        },
                    ),
                    None => None,
                },
                None => None,
            }
        },
        None => None,
    }
}

/// Scans a test of the given kind at `i` (`call` is empty for `@Attr='value'`).
fn scan_test(v: &[char], i: usize, func: Option<(&[char], bool)>) -> (r: Option<ScanMatch>)
    requires
        i <= v.len(),
    ensures
        match test_at(v@, i as int, match func {
            Some((c, f)) => Some((c@, f)),
            None => None,
        }) {
            Some(m) => r matches Some(sm) && sm.wf(v@.len()) && sm.in_text(v@) == m,
            None => r is None,
        },
{
    match func {
        None => scan_attr_eq(v, i),
        Some((call, flags)) => match scan_call_form(v, i, call, flags) {
            Some(m) => Some(m),
            None => scan_eq_form(v, i, call, flags),
        },
    }
}

/// `ms` are the positions in `s` of the tests `found`.
pub open spec fn scanned_as(ms: Seq<ScanMatch>, s: Seq<char>, found: Seq<PredMatch>) -> bool {
    &&& ms.len() == found.len()
    &&& forall|k: int| 0 <= k < ms.len() ==> #[trigger] ms[k].wf(s.len()) && ms[k].in_text(s) == found[k]
}

/// All tests of one kind in `v`, leftmost first, as positions.
pub fn scan_all(v: &[char], func: Option<(&[char], bool)>) -> (r: Vec<ScanMatch>)
    ensures
        scanned_as(r@, v@, all_tests(v@, match func {
            Some((c, f)) => Some((c@, f)),
            None => None,
        })),
{
    let ghost fs: Option<(Seq<char>, bool)> = match func {
        Some((c, f)) => Some((c@, f)),
        None => None,
    };
    let mut out: Vec<ScanMatch> = Vec::new();
    let mut i: usize = 0;
    let ghost mut found: Seq<PredMatch> = seq![];
    let mut done = false;
    while i < v.len() && !done
        invariant
            i <= v.len(),
            done ==> tests_from(v@, i as int, fs) == Seq::<PredMatch>::empty(),
            fs == (match func {
                Some((c, f)) => Some((c@, f)),
                None => None,
            }),
            out@.len() == found.len(),
            scanned_as(out@, v@, found),
            found + tests_from(v@, i as int, fs) == all_tests(v@, fs),
        decreases v.len() - i + (if done { 0int } else { 1int }),
    {
        let r = scan_test(v, i, func);
        assert(r matches Some(m) ==> m.wf(v@.len()) && m.in_text(v@) == test_at(v@, i as int, fs)->0);
        match r {
            Some(m) => {
                if i < m.end && m.end <= v.len() {
                    let ghost before = out@;
                    let ghost old_found = found;
                    out.push(m);
                    proof {
                        let pm = m.in_text(v@);
                        assert(tests_from(v@, i as int, fs) == seq![pm] + tests_from(v@, m.end as int, fs));
                        assert(found + tests_from(v@, i as int, fs) == found.push(pm) + tests_from(v@, m.end as int, fs));
                        found = found.push(pm);
                        assert forall|k: int| 0 <= k < out@.len() implies #[trigger] out@[k].wf(v@.len()) && out@[k].in_text(v@) == found[k] by {
                            if k < before.len() {
                                assert(out@[k] == before[k]);
                                assert(before[k].wf(v@.len()));
                                assert(found[k] == old_found[k]);
                            } else {
                                assert(out@[k] == m);
                                assert(found[k] == pm);
                            }
                        }
                    }
                    i = m.end;
                } else {
                    proof {
                        assert(tests_from(v@, i as int, fs) == Seq::<PredMatch>::empty());
                    }
                    done = true;
                }
            },
            None => {
                i += 1;
            },
        }
    }
    proof {
        if i >= v.len() {
            assert(tests_from(v@, i as int, fs) == Seq::<PredMatch>::empty());
        }
        assert(found =~= all_tests(v@, fs)) by {
            assert(found + Seq::<PredMatch>::empty() =~= found);
        }
    }
    out
}

/// The first position at or after `i` that holds `c` (or the end).
pub open spec fn char_end(s: Seq<char>, i: int, c: char) -> int
    decreases s.len() - i,
{
    if 0 <= i < s.len() && s[i] != c {
        char_end(s, i + 1, c)
    } else {
        i
    }
}

pub proof fn lemma_char_end(s: Seq<char>, i: int, c: char)
    requires
        0 <= i <= s.len(),
    ensures
        i <= char_end(s, i, c) <= s.len(),
        forall|k: int| i <= k < char_end(s, i, c) ==> s[k] != c,
        char_end(s, i, c) < s.len() ==> s[char_end(s, i, c)] == c,
    decreases s.len() - i,
{
    if i < s.len() && s[i] != c {
        lemma_char_end(s, i + 1, c);
    }
}

pub fn skip_to_char(v: &[char], i: usize, c: char) -> (r: usize)
    requires
        i <= v.len(),
    ensures
        r as int == char_end(v@, i as int, c),
        i <= r <= v.len(),
{
    let mut j = i;
    while j < v.len() && v[j] != c
        invariant
            i <= j <= v.len(),
            char_end(v@, j as int, c) == char_end(v@, i as int, c),
        decreases v.len() - j,
    {
        j += 1;
    }
    j
}

/// The number of leading copies of `c` in `s`.
pub open spec fn lead_run(s: Seq<char>, c: char) -> nat
    decreases s.len(),
{
    if s.len() > 0 && s[0] == c {
        1 + lead_run(s.drop_first(), c)
    } else {
        0
    }
}

/// The number of trailing copies of `c` in `s`.
pub open spec fn trail_run(s: Seq<char>, c: char) -> nat
    decreases s.len(),
{
    if s.len() > 0 && s.last() == c {
        1 + trail_run(s.drop_last(), c)
    } else {
        0
    }
}

proof fn lemma_lead_run_exact(s: Seq<char>, c: char, n: int)
    requires
        0 <= n <= s.len(),
        forall|k: int| 0 <= k < n ==> s[k] == c,
        n < s.len() ==> s[n] != c,
    ensures
        lead_run(s, c) == n,
    decreases n,
{
    if n > 0 {
        assert forall|k: int| 0 <= k < n - 1 implies s.drop_first()[k] == c by {
            assert(s.drop_first()[k] == s[k + 1]);
        }
        if n - 1 < s.drop_first().len() {
            assert(s.drop_first()[n - 1] == s[n]);
        }
        lemma_lead_run_exact(s.drop_first(), c, n - 1);
    }
}

proof fn lemma_trail_run_exact(s: Seq<char>, c: char, n: int)
    requires
        0 <= n <= s.len(),
        forall|k: int| s.len() - n <= k < s.len() ==> s[k] == c,
        n < s.len() ==> s[s.len() - n - 1] != c,
    ensures
        trail_run(s, c) == n,
    decreases n,
{
    if n > 0 {
        let t = s.drop_last();
        assert forall|k: int| t.len() - (n - 1) <= k < t.len() implies t[k] == c by {
            assert(t[k] == s[k]);
        }
        if n - 1 < t.len() {
            assert(t[t.len() - (n - 1) - 1] == s[s.len() - n - 1]);
        }
        lemma_trail_run_exact(t, c, n - 1);
    }
}

/// `s` without its leading copies of `c` (`str::trim_start_matches`).
pub open spec fn trim_start_char(s: Seq<char>, c: char) -> Seq<char> {
    s.skip(lead_run(s, c) as int)
}

/// `s` without its trailing copies of `c` (`str::trim_end_matches`).
pub open spec fn trim_end_char(s: Seq<char>, c: char) -> Seq<char> {
    s.take(s.len() - trail_run(s, c))
}

/// The bounds of `trim_start_char(v, c)` inside `v`.
pub fn lead_run_len(v: &[char], c: char) -> (r: usize)
    ensures
        r == lead_run(v@, c),
        r <= v.len(),
{
    let mut a: usize = 0;
    while a < v.len() && v[a] == c
        invariant
            a <= v.len(),
            forall|k: int| 0 <= k < a ==> v@[k] == c,
        decreases v.len() - a,
    {
        a += 1;
    }
    proof {
        lemma_lead_run_exact(v@, c, a as int);
    }
    a
}

/// The length of `trim_end_char(v[from..], c)` measured from `from`: the end
/// position `b` with `v[from..b]` that trimmed text.
pub fn trail_run_end(v: &[char], from: usize, c: char) -> (b: usize)
    requires
        from <= v.len(),
    ensures
        from <= b <= v.len(),
        v@.subrange(from as int, b as int) == trim_end_char(v@.subrange(from as int, v@.len() as int), c),
{
    let ghost t = v@.subrange(from as int, v@.len() as int);
    let mut b: usize = v.len();
    while b > from && v[b - 1] == c
        invariant
            from <= b <= v.len(),
            forall|k: int| b <= k < v.len() ==> v@[k] == c,
        decreases b,
    {
        b -= 1;
    }
    proof {
        assert forall|k: int| t.len() - (v.len() - b) <= k < t.len() implies t[k] == c by {
            assert(t[k] == v@[k + from]);
        }
        if (v.len() - b) < t.len() {
            assert(t[t.len() - (v.len() - b) - 1] == v@[b - 1]);
        }
        lemma_trail_run_exact(t, c, (v.len() - b) as int);
        assert(v@.subrange(from as int, b as int) =~= trim_end_char(t, c));
    }
    b
}

} // verus!
