//! The XPath compilation cache: for an XPath and the kind of application
//! window it ran against, the strategy that resolved it last time.
//!
//! Time is a logical clock that advances with every lookup and store, so
//! "least recently used" is decided by clock ticks.
use vstd::prelude::*;
use crate::grammar::{char_end, skip_to_char};
use crate::model::str_eq;
use crate::step::string_of_range;
use crate::text::{chars_of, find_first, first_occurrence, lemma_first_occurrence_occurs};

verus! {

/// The most entries the cache holds; storing into a full cache first evicts
/// the least recently used entry.
pub const XPATH_CACHE_MAX_ENTRIES: usize = 256;

/// The strategy that resolved an XPath against a window.
#[derive(Debug, Clone, Copy, PartialEq, Eq, Structural)]
pub enum CompiledStrategy {
    /// The XPath targets the window element itself.
    WindowFastPath,
    /// Control-view search from the window root.
    ControlViewDirect,
    /// Raw-view breadth-first search from the window root.
    RawViewBfs,
    /// Search from the content root.
    ContentRoot,
    /// Raw search of all descendants.
    FindAllDescendants,
    /// Search from the child window with this index.
    ChildHwndEnum(usize),
    /// Search in sibling windows of the same process.
    SiblingWindow,
    /// Search in windows of child processes.
    ChildProcessWindow,
    /// Descendant XPath: content root.
    DescendantContentRoot,
    /// Descendant XPath: window root.
    DescendantWindowRoot,
    /// Descendant XPath: raw walk.
    DescendantRawWalk,
    /// Descendant XPath: child window with this index.
    DescendantChildHwnd(usize),
}

/// A cached resolution and its statistics.
#[derive(Debug, Clone, Copy, PartialEq, Eq, Structural)]
pub struct CompiledXPathEntry {
    pub strategy: CompiledStrategy,
    /// Average execution time in milliseconds (blended by the caller).
    pub avg_time_ms: u64,
    /// Number of lookups that found this entry.
    pub hit_count: u64,
    /// Clock tick at which the entry was created.
    pub created_at: u64,
    /// Clock tick at which the entry was last used.
    pub last_used: u64,
}

/// The application part of a window class name: the text before the first
/// `_`, else before the first `::`, else the whole name
/// (`Chrome_WidgetWin_0` gives `Chrome`, `mmui::MainWindow` gives `mmui`).
pub open spec fn app_prefix(class: Seq<char>) -> Seq<char> {
    let u = char_end(class, 0, '_');
    if u < class.len() {
        class.take(u)
    } else {
        match first_occurrence(class, "::"@) {
            Some(p) => class.take(p),
            None => class,
        }
    }
}

pub fn app_prefix_of(class: &str) -> (r: String)
    ensures
        r@ == app_prefix(class@),
{
    let v = chars_of(class);
    let u = skip_to_char(v.as_slice(), 0, '_');
    if u < v.len() {
        assert(v@.take(u as int) =~= v@.subrange(0, u as int));
        return string_of_range(v.as_slice(), 0, u);
    }
    let sep = chars_of("::");
    match find_first(v.as_slice(), sep.as_slice()) {
        Some(p) => {
            proof {
                lemma_first_occurrence_occurs(v@, "::"@);
            }
            assert(v@.take(p as int) =~= v@.subrange(0, p as int));
            string_of_range(v.as_slice(), 0, p)
        },
        None => {
            assert(v@ =~= v@.subrange(0, v@.len() as int));
            string_of_range(v.as_slice(), 0, v.len())
        },
    }
}

/// One cached XPath.
pub struct CacheSlot {
    pub xpath: String,
    pub app: String,
    pub entry: CompiledXPathEntry,
}

pub struct SlotView {
    pub xpath: Seq<char>,
    pub app: Seq<char>,
    pub entry: CompiledXPathEntry,
}

impl View for CacheSlot {
    type V = SlotView;

    open spec fn view(&self) -> SlotView {
        SlotView { xpath: self.xpath@, app: self.app@, entry: self.entry }
    }
}

/// The cache's contents and its clock.
pub struct CacheView {
    pub slots: Seq<SlotView>,
    pub clock: u64,
}

/// The XPath compilation cache.
pub struct XPathCache {
    slots: Vec<CacheSlot>,
    clock: u64,
}

pub open spec fn slots_view(v: Seq<CacheSlot>) -> Seq<SlotView> {
    v.map_values(|s: CacheSlot| s@)
}

impl View for XPathCache {
    type V = CacheView;

    closed spec fn view(&self) -> CacheView {
        CacheView { slots: slots_view(self.slots@), clock: self.clock }
    }
}

pub open spec fn has_key(s: SlotView, xpath: Seq<char>, app: Seq<char>) -> bool {
    s.xpath == xpath && s.app == app
}

/// The position of the entry for a key.
pub open spec fn find_key(slots: Seq<SlotView>, xpath: Seq<char>, app: Seq<char>) -> Option<int>
    decreases slots.len(),
{
    if slots.len() == 0 {
        None
    } else {
        match find_key(slots.drop_last(), xpath, app) {
            Some(i) => Some(i),
            None => if has_key(slots.last(), xpath, app) {
                Some(slots.len() - 1)
            } else {
                None
            },
        }
    }
}

/// The total of the hit counts.
pub open spec fn total_hits(slots: Seq<SlotView>) -> nat
    decreases slots.len(),
{
    if slots.len() == 0 {
        0
    } else {
        total_hits(slots.drop_last()) + slots.last().entry.hit_count as nat
    }
}

/// The position of the least recently used entry (the first of the oldest).
pub open spec fn lru_index(slots: Seq<SlotView>) -> int
    decreases slots.len(),
{
    if slots.len() <= 1 {
        0
    } else {
        let i = lru_index(slots.drop_last());
        if slots.last().entry.last_used < slots[i].entry.last_used {
            slots.len() - 1
        } else {
            i
        }
    }
}

/// No key occurs twice.
pub open spec fn unique_keys(slots: Seq<SlotView>) -> bool {
    forall|i: int, j: int|
        0 <= i < j < slots.len() ==> !has_key(#[trigger] slots[j], slots[i].xpath, #[trigger] slots[i].app)
}

impl CacheView {
    /// No key occurs twice, the cache is within its size, and the total of
    /// the hit counts does not exceed the clock.
    pub open spec fn wf(self) -> bool {
        &&& self.slots.len() <= XPATH_CACHE_MAX_ENTRIES
        &&& unique_keys(self.slots)
        &&& total_hits(self.slots) <= self.clock
    }

    /// The entry stored for a key.
    pub open spec fn get(self, xpath: Seq<char>, app: Seq<char>) -> Option<CompiledXPathEntry> {
        match find_key(self.slots, xpath, app) {
            Some(i) => Some(self.slots[i].entry),
            None => None,
        }
    }

    /// The clock after one more operation (it stops at its largest value).
    pub open spec fn next_clock(self) -> u64 {
        if self.clock < u64::MAX {
            (self.clock + 1) as u64
        } else {
            self.clock
        }
    }

    /// The cache after a lookup of a key: a found entry counts one more hit
    /// (while the clock can still advance) and is marked used now.
    pub open spec fn after_lookup(self, xpath: Seq<char>, app: Seq<char>) -> CacheView {
        let now = self.next_clock();
        match find_key(self.slots, xpath, app) {
            Some(i) => {
                let e = self.slots[i].entry;
                let hits = if self.clock < u64::MAX {
                    (e.hit_count + 1) as u64
                } else {
                    e.hit_count
                };
                CacheView {
                    slots: self.slots.update(i, SlotView { entry: CompiledXPathEntry { hit_count: hits, last_used: now, ..e }, ..self.slots[i] }),
                    clock: now,
                }
            },
            None => CacheView { slots: self.slots, clock: now },
        }
    }

    /// The slots left when a full cache evicts its least recently used entry.
    pub open spec fn evicted(self) -> Seq<SlotView> {
        if self.slots.len() >= XPATH_CACHE_MAX_ENTRIES {
            self.slots.remove(lru_index(self.slots))
        } else {
            self.slots
        }
    }

    /// The average a store blends with: that of the entry for the key, unless
    /// the key is absent or its entry is the one evicted to make room.
    pub open spec fn prior_average(self, xpath: Seq<char>, app: Seq<char>) -> Option<u64> {
        match find_key(self.evicted(), xpath, app) {
            Some(i) => Some(self.evicted()[i].entry.avg_time_ms),
            None => None,
        }
    }

    /// The cache after storing a strategy for a key: a full cache first evicts
    /// its least recently used entry; an existing entry keeps its hit count and
    /// creation time, a new one starts with none; either is marked used now.
    pub open spec fn after_store(self, xpath: Seq<char>, app: Seq<char>, strategy: CompiledStrategy, avg: u64) -> CacheView {
        let now = self.next_clock();
        let base = self.evicted();
        match find_key(base, xpath, app) {
            Some(i) => {
                let e = base[i].entry;
                CacheView {
                    slots: base.update(
                        i,
                        SlotView {
                            entry: CompiledXPathEntry { strategy, avg_time_ms: avg, hit_count: e.hit_count, created_at: e.created_at, last_used: now },
                            ..base[i]
                        },
                    ),
                    clock: now,
                }
            },
            None => CacheView {
                slots: base.push(
                    SlotView {
                        xpath,
                        app,
                        entry: CompiledXPathEntry { strategy, avg_time_ms: avg, hit_count: 0, created_at: now, last_used: now },
                    },
                ),
                clock: now,
            },
        }
    }
}

pub proof fn lemma_find_key(slots: Seq<SlotView>, xpath: Seq<char>, app: Seq<char>)
    ensures
        find_key(slots, xpath, app) matches Some(i) ==> 0 <= i < slots.len() && has_key(slots[i], xpath, app)
            && forall|j: int| 0 <= j < i ==> !has_key(#[trigger] slots[j], xpath, app),
        find_key(slots, xpath, app) is None ==> forall|j: int| 0 <= j < slots.len() ==> !has_key(#[trigger] slots[j], xpath, app),
    decreases slots.len(),
{
    if slots.len() > 0 {
        lemma_find_key(slots.drop_last(), xpath, app);
        assert forall|j: int| 0 <= j < slots.len() - 1 implies slots.drop_last()[j] == slots[j] by {}
    }
}

pub proof fn lemma_find_key_exact(slots: Seq<SlotView>, xpath: Seq<char>, app: Seq<char>, i: int)
    requires
        0 <= i < slots.len(),
        has_key(slots[i], xpath, app),
        forall|j: int| 0 <= j < i ==> !has_key(#[trigger] slots[j], xpath, app),
    ensures
        find_key(slots, xpath, app) == Some(i),
{
    lemma_find_key(slots, xpath, app);
    match find_key(slots, xpath, app) {
        Some(k) => {
            if k < i {
                assert(!has_key(slots[k], xpath, app));
            }
            if i < k {
                assert(!has_key(slots[i], xpath, app));
            }
        },
        None => {
            assert(!has_key(slots[i], xpath, app));
        },
    }
}

pub proof fn lemma_find_key_absent(slots: Seq<SlotView>, xpath: Seq<char>, app: Seq<char>)
    requires
        forall|j: int| 0 <= j < slots.len() ==> !has_key(#[trigger] slots[j], xpath, app),
    ensures
        find_key(slots, xpath, app) is None,
{
    lemma_find_key(slots, xpath, app);
    if let Some(k) = find_key(slots, xpath, app) {
        assert(!has_key(slots[k], xpath, app));
    }
}

pub proof fn lemma_total_hits_update(slots: Seq<SlotView>, i: int, s: SlotView)
    requires
        0 <= i < slots.len(),
    ensures
        total_hits(slots.update(i, s)) + slots[i].entry.hit_count == total_hits(slots) + s.entry.hit_count,
    decreases slots.len(),
{
    let u = slots.update(i, s);
    if i == slots.len() - 1 {
        assert(u.drop_last() =~= slots.drop_last());
    } else {
        assert(u.drop_last() =~= slots.drop_last().update(i, s));
        lemma_total_hits_update(slots.drop_last(), i, s);
    }
}

pub proof fn lemma_total_hits_push(slots: Seq<SlotView>, s: SlotView)
    ensures
        total_hits(slots.push(s)) == total_hits(slots) + s.entry.hit_count,
{
    assert(slots.push(s).drop_last() =~= slots);
}

pub proof fn lemma_total_hits_remove(slots: Seq<SlotView>, i: int)
    requires
        0 <= i < slots.len(),
    ensures
        total_hits(slots.remove(i)) + slots[i].entry.hit_count == total_hits(slots),
    decreases slots.len(),
{
    if i == slots.len() - 1 {
        assert(slots.remove(i) =~= slots.drop_last());
    } else {
        assert(slots.remove(i).drop_last() =~= slots.drop_last().remove(i));
        lemma_total_hits_remove(slots.drop_last(), i);
        assert(slots.remove(i).last() == slots.last());
    }
}

pub proof fn lemma_lru_index(slots: Seq<SlotView>)
    requires
        slots.len() > 0,
    ensures
        0 <= lru_index(slots) < slots.len(),
        forall|j: int| 0 <= j < slots.len() ==> slots[lru_index(slots)].entry.last_used <= #[trigger] slots[j].entry.last_used,
    decreases slots.len(),
{
    if slots.len() > 1 {
        let init = slots.drop_last();
        lemma_lru_index(init);
        let i = lru_index(init);
        assert(slots[i] == init[i]);
        assert forall|j: int| 0 <= j < slots.len() implies slots[lru_index(slots)].entry.last_used <= #[trigger] slots[j].entry.last_used by {
            if j < slots.len() - 1 {
                assert(slots[j] == init[j]);
            }
        }
    }
}

fn find_slot(slots: &Vec<CacheSlot>, xpath: &str, app: &str) -> (r: Option<usize>)
    ensures
        match find_key(slots_view(slots@), xpath@, app@) {
            Some(i) => r == Some(i as usize),
            None => r is None,
        },
{
    let ghost sv = slots_view(slots@);
    let mut i: usize = 0;
    while i < slots.len()
        invariant
            i <= slots.len(),
            sv == slots_view(slots@),
            forall|j: int| 0 <= j < i ==> !has_key(#[trigger] sv[j], xpath@, app@),
        decreases slots.len() - i,
    {
        if str_eq(slots[i].xpath.as_str(), xpath) && str_eq(slots[i].app.as_str(), app) {
            proof {
                lemma_find_key_exact(sv, xpath@, app@, i as int);
            }
            return Some(i);
        }
        assert(!has_key(sv[i as int], xpath@, app@));
        i += 1;
    }
    proof {
        lemma_find_key_absent(sv, xpath@, app@);
    }
    None
}

fn lru_slot(slots: &Vec<CacheSlot>) -> (r: usize)
    requires
        slots.len() > 0,
    ensures
        r == lru_index(slots_view(slots@)),
{
    let ghost sv = slots_view(slots@);
    let mut best: usize = 0;
    let mut i: usize = 1;
    while i < slots.len()
        invariant
            1 <= i <= slots.len(),
            sv == slots_view(slots@),
            best == lru_index(sv.take(i as int)),
            best < i,
        decreases slots.len() - i,
    {
        assert(sv.take(i + 1).drop_last() =~= sv.take(i as int));
        assert(sv.take(i + 1)[best as int] == sv[best as int]);
        if slots[i].entry.last_used < slots[best].entry.last_used {
            best = i;
        }
        i += 1;
    }
    assert(sv.take(slots.len() as int) =~= sv);
    best
}

fn total_hits_of(slots: &Vec<CacheSlot>, bound: u64) -> (r: u64)
    requires
        total_hits(slots_view(slots@)) <= bound,
    ensures
        r == total_hits(slots_view(slots@)),
{
    let ghost sv = slots_view(slots@);
    let mut sum: u64 = 0;
    let mut i: usize = 0;
    while i < slots.len()
        invariant
            i <= slots.len(),
            sv == slots_view(slots@),
            total_hits(sv) <= bound,
            sum == total_hits(sv.take(i as int)),
        decreases slots.len() - i,
    {
        assert(sv.take(i + 1).drop_last() =~= sv.take(i as int));
        proof {
            lemma_total_hits_prefix(sv, i + 1);
        }
        sum = sum + slots[i].entry.hit_count;
        i += 1;
    }
    assert(sv.take(slots.len() as int) =~= sv);
    sum
}

pub proof fn lemma_total_hits_prefix(slots: Seq<SlotView>, k: int)
    requires
        0 <= k <= slots.len(),
    ensures
        total_hits(slots.take(k)) <= total_hits(slots),
    decreases slots.len() - k,
{
    if k < slots.len() {
        lemma_total_hits_prefix(slots, k + 1);
        assert(slots.take(k + 1).drop_last() =~= slots.take(k));
    } else {
        assert(slots.take(k) =~= slots);
    }
}

impl XPathCache {
    #[verifier::type_invariant]
    spec fn inv(self) -> bool {
        self@.wf()
    }

    /// An empty cache.
    pub fn new() -> (c: Self)
        ensures
            c@.slots.len() == 0,
            c@.clock == 0,
            c@.wf(),
    {
        let c = XPathCache { slots: Vec::new(), clock: 0 };
        assert(slots_view(c.slots@) =~= Seq::<SlotView>::empty());
        c
    }

    /// Looks up the entry for an XPath and application; a found entry counts a
    /// hit and is marked used.
    pub fn lookup(&mut self, xpath: &str, app: &str) -> (r: Option<CompiledXPathEntry>)
        ensures
            final(self)@ == old(self)@.after_lookup(xpath@, app@),
            r == final(self)@.get(xpath@, app@),
            final(self)@.wf(),
    {
        proof {
            use_type_invariant(&*self);
        }
        let ghost before = self@;
        let old_clock = self.clock;
        let now = if self.clock < u64::MAX {
            self.clock + 1
        } else {
            self.clock
        };
        let mut slots: Vec<CacheSlot> = Vec::new();
        std::mem::swap(&mut slots, &mut self.slots);
        let found = find_slot(&slots, xpath, app);
        proof {
            assert(slots_view(slots@) == before.slots);
            lemma_find_key(before.slots, xpath@, app@);
        }
        let r = match found {
            Some(i) => {
                let e = slots[i].entry;
                let hits = if old_clock < u64::MAX {
                    proof {
                        lemma_total_hits_update(before.slots, i as int, before.slots[i as int]);
                        lemma_total_hits_remove(before.slots, i as int);
                    }
                    e.hit_count + 1
                } else {
                    e.hit_count
                };
                let ne = CompiledXPathEntry { hit_count: hits, last_used: now, ..e };
                let slot = CacheSlot { xpath: slots[i].xpath.clone(), app: slots[i].app.clone(), entry: ne };
                let ghost sv0 = slots_view(slots@);
                slots.set(i, slot);
                proof {
                    assert(slots_view(slots@) =~= sv0.update(i as int, slot@));
                    lemma_total_hits_update(sv0, i as int, slot@);
                    lemma_find_key(sv0, xpath@, app@);
                    lemma_unique_update(sv0, i as int, slot@);
                    lemma_find_key_exact(slots_view(slots@), xpath@, app@, i as int);
                }
                Some(ne)
            },
            None => None,
        };
        self.clock = now;
        self.slots = slots;
        r
    }

    /// The average a store for this XPath and application would blend with
    /// (see `CacheView::prior_average`).
    pub fn prior_average(&self, xpath: &str, app: &str) -> (r: Option<u64>)
        ensures
            r == self@.prior_average(xpath@, app@),
    {
        proof {
            use_type_invariant(self);
        }
        if self.slots.len() >= XPATH_CACHE_MAX_ENTRIES {
            let lru = lru_slot(&self.slots);
            proof {
                lemma_lru_index(self@.slots);
            }
            let ghost ev = self@.slots.remove(lru as int);
            match find_slot(&self.slots, xpath, app) {
                Some(i) => {
                    proof {
                        lemma_find_key(self@.slots, xpath@, app@);
                    }
                    if i == lru {
                        proof {
                            assert forall|j: int| 0 <= j < ev.len() implies !has_key(#[trigger] ev[j], xpath@, app@) by {
                                if j < i {
                                    assert(ev[j] == self@.slots[j]);
                                } else {
                                    assert(ev[j] == self@.slots[j + 1]);
                                }
                            }
                            lemma_find_key_absent(ev, xpath@, app@);
                        }
                        None
                    } else {
                        let k: usize = if i < lru { i } else { i - 1 };
                        proof {
                            assert(ev[k as int] == self@.slots[i as int]);
                            assert forall|j: int| 0 <= j < k implies !has_key(#[trigger] ev[j], xpath@, app@) by {
                                if j < lru {
                                    assert(ev[j] == self@.slots[j]);
                                } else {
                                    assert(ev[j] == self@.slots[j + 1]);
                                }
                            }
                            lemma_find_key_exact(ev, xpath@, app@, k as int);
                        }
                        Some(self.slots[i].entry.avg_time_ms)
                    }
                },
                None => {
                    proof {
                        lemma_find_key(self@.slots, xpath@, app@);
                        assert forall|j: int| 0 <= j < ev.len() implies !has_key(#[trigger] ev[j], xpath@, app@) by {
                            if j < lru {
                                assert(ev[j] == self@.slots[j]);
                            } else {
                                assert(ev[j] == self@.slots[j + 1]);
                            }
                        }
                        lemma_find_key_absent(ev, xpath@, app@);
                    }
                    None
                },
            }
        } else {
            let f = find_slot(&self.slots, xpath, app);
            proof {
                lemma_find_key(self@.slots, xpath@, app@);
            }
            match f {
                Some(i) => Some(self.slots[i].entry.avg_time_ms),
                None => None,
            }
        }
    }

    /// The number of entries.
    pub fn len(&self) -> (n: usize)
        ensures
            n == self@.slots.len(),
    {
        self.slots.len()
    }
}

pub proof fn lemma_unique_update(slots: Seq<SlotView>, i: int, s: SlotView)
    requires
        0 <= i < slots.len(),
        unique_keys(slots),
        s.xpath == slots[i].xpath,
        s.app == slots[i].app,
    ensures
        unique_keys(slots.update(i, s)),
{
    let u = slots.update(i, s);
    assert forall|a: int, b: int| 0 <= a < b < u.len() implies !has_key(#[trigger] u[b], u[a].xpath, #[trigger] u[a].app) by {
        assert(slots[a].xpath == u[a].xpath && slots[a].app == u[a].app);
        assert(slots[b].xpath == u[b].xpath && slots[b].app == u[b].app);
        assert(!has_key(slots[b], slots[a].xpath, slots[a].app));
    }
}

pub proof fn lemma_unique_remove(slots: Seq<SlotView>, k: int)
    requires
        0 <= k < slots.len(),
        unique_keys(slots),
    ensures
        unique_keys(slots.remove(k)),
{
    let r = slots.remove(k);
    assert forall|a: int, b: int| 0 <= a < b < r.len() implies !has_key(#[trigger] r[b], r[a].xpath, #[trigger] r[a].app) by {
        let a2 = if a < k { a } else { a + 1 };
        let b2 = if b < k { b } else { b + 1 };
        assert(r[a] == slots[a2]);
        assert(r[b] == slots[b2]);
        assert(!has_key(slots[b2], slots[a2].xpath, slots[a2].app));
    }
}

pub proof fn lemma_unique_push(slots: Seq<SlotView>, s: SlotView)
    requires
        unique_keys(slots),
        forall|j: int| 0 <= j < slots.len() ==> !has_key(#[trigger] slots[j], s.xpath, s.app),
    ensures
        unique_keys(slots.push(s)),
{
    let p = slots.push(s);
    assert forall|a: int, b: int| 0 <= a < b < p.len() implies !has_key(#[trigger] p[b], p[a].xpath, #[trigger] p[a].app) by {
        assert(p[a] == slots[a]);
        if b < slots.len() {
            assert(p[b] == slots[b]);
        } else {
            assert(!has_key(slots[a], s.xpath, s.app));
        }
    }
}

impl XPathCache {
    /// Stores the strategy that resolved an XPath for an application, with the
    /// average execution time to record (see `prior_average`); a full cache
    /// first evicts its least recently used entry.
    pub fn store(&mut self, xpath: &str, app: &str, strategy: CompiledStrategy, avg_time_ms: u64)
        ensures
            final(self)@ == old(self)@.after_store(xpath@, app@, strategy, avg_time_ms),
            final(self)@.wf(),
    {
        proof {
            use_type_invariant(&*self);
        }
        let ghost before = self@;
        let now = if self.clock < u64::MAX {
            self.clock + 1
        } else {
            self.clock
        };
        let mut slots: Vec<CacheSlot> = Vec::new();
        std::mem::swap(&mut slots, &mut self.slots);
        assert(slots_view(slots@) == before.slots);
        if slots.len() >= XPATH_CACHE_MAX_ENTRIES {
            let lru = lru_slot(&slots);
            proof {
                lemma_lru_index(before.slots);
                lemma_unique_remove(before.slots, lru as int);
                lemma_total_hits_remove(before.slots, lru as int);
            }
            let ghost sv0 = slots@;
            slots.remove(lru);
            assert(slots_view(slots@) =~= slots_view(sv0).remove(lru as int));
        }
        let ghost base = slots_view(slots@);
        assert(base == before.evicted());
        let found = find_slot(&slots, xpath, app);
        proof {
            lemma_find_key(base, xpath@, app@);
        }
        match found {
            Some(i) => {
                let e = slots[i].entry;
                let ne = CompiledXPathEntry {
                    strategy,
                    avg_time_ms,
                    hit_count: e.hit_count,
                    created_at: e.created_at,
                    last_used: now,
                };
                let slot = CacheSlot { xpath: slots[i].xpath.clone(), app: slots[i].app.clone(), entry: ne };
                slots.set(i, slot);
                proof {
                    assert(slots_view(slots@) =~= base.update(i as int, slot@));
                    lemma_total_hits_update(base, i as int, slot@);
                    lemma_unique_update(base, i as int, slot@);
                }
            },
            None => {
                let slot = CacheSlot {
                    xpath: xpath.to_string(),
                    app: app.to_string(),
                    entry: CompiledXPathEntry {
                        strategy,
                        avg_time_ms,
                        hit_count: 0,
                        created_at: now,
                        last_used: now,
                    },
                };
                slots.push(slot);
                proof {
                    assert(slots_view(slots@) =~= base.push(slot@));
                    lemma_total_hits_push(base, slot@);
                    lemma_unique_push(base, slot@);
                }
            },
        }
        self.clock = now;
        self.slots = slots;
    }
}

/// Empties the cache.
pub fn clear_xpath_cache(cache: &mut XPathCache)
    ensures
        final(cache)@.slots.len() == 0,
        final(cache)@.clock == old(cache)@.clock,
        final(cache)@.wf(),
{
    cache.clear();
}

/// The number of entries and the total of their hit counts.
pub fn xpath_cache_stats(cache: &XPathCache) -> (r: (usize, u64))
    ensures
        cache@.wf(),
        r.0 == cache@.slots.len(),
        r.1 == total_hits(cache@.slots),
{
    cache.stats()
}

impl XPathCache {
    fn clear(&mut self)
        ensures
            final(self)@.slots.len() == 0,
            final(self)@.clock == old(self)@.clock,
            final(self)@.wf(),
    {
        self.slots = Vec::new();
        assert(slots_view(self.slots@) =~= Seq::<SlotView>::empty());
    }

    fn stats(&self) -> (r: (usize, u64))
        ensures
            self@.wf(),
            r.0 == self@.slots.len(),
            r.1 == total_hits(self@.slots),
    {
        proof {
            use_type_invariant(self);
        }
        (self.slots.len(), total_hits_of(&self.slots, self.clock))
    }
}

/// What a lookup finds right after a store for the same key is the stored
/// strategy and average, and every operation keeps the cache well formed (no
/// key twice, at most `XPATH_CACHE_MAX_ENTRIES` entries).
pub proof fn lemma_lookup_after_store(c: CacheView, xpath: Seq<char>, app: Seq<char>, strategy: CompiledStrategy, avg: u64)
    requires
        c.wf(),
    ensures
        c.after_store(xpath, app, strategy, avg).get(xpath, app) matches Some(e) && e.strategy == strategy
            && e.avg_time_ms == avg,
        c.after_store(xpath, app, strategy, avg).wf(),
        c.after_lookup(xpath, app).wf(),
        c.after_lookup(xpath, app).get(xpath, app) == (match c.get(xpath, app) {
            Some(e) => Some(CompiledXPathEntry {
                hit_count: if c.clock < u64::MAX { (e.hit_count + 1) as u64 } else { e.hit_count },
                last_used: c.next_clock(),
                ..e
            }),
            None => None,
        }),
{
    let now = c.next_clock();
    let base = c.evicted();
    if c.slots.len() >= XPATH_CACHE_MAX_ENTRIES {
        lemma_lru_index(c.slots);
        lemma_unique_remove(c.slots, lru_index(c.slots));
        lemma_total_hits_remove(c.slots, lru_index(c.slots));
    }
    lemma_find_key(base, xpath, app);
    match find_key(base, xpath, app) {
        Some(i) => {
            let e = base[i].entry;
            let s = SlotView {
                entry: CompiledXPathEntry { strategy, avg_time_ms: avg, hit_count: e.hit_count, created_at: e.created_at, last_used: now },
                ..base[i]
            };
            lemma_total_hits_update(base, i, s);
            lemma_unique_update(base, i, s);
            let u = base.update(i, s);
            assert forall|j: int| 0 <= j < i implies !has_key(#[trigger] u[j], xpath, app) by {
                assert(u[j] == base[j]);
            }
            lemma_find_key_exact(u, xpath, app, i);
        },
        None => {
            let s = SlotView {
                xpath,
                app,
                entry: CompiledXPathEntry { strategy, avg_time_ms: avg, hit_count: 0, created_at: now, last_used: now },
            };
            lemma_total_hits_push(base, s);
            lemma_unique_push(base, s);
            let p = base.push(s);
            assert forall|j: int| 0 <= j < base.len() implies !has_key(#[trigger] p[j], xpath, app) by {
                assert(p[j] == base[j]);
            }
            lemma_find_key_exact(p, xpath, app, base.len() as int);
        },
    }
    lemma_find_key(c.slots, xpath, app);
    match find_key(c.slots, xpath, app) {
        Some(i) => {
            let e = c.slots[i].entry;
            let hits = if c.clock < u64::MAX { (e.hit_count + 1) as u64 } else { e.hit_count };
            let s = SlotView { entry: CompiledXPathEntry { hit_count: hits, last_used: now, ..e }, ..c.slots[i] };
            lemma_total_hits_update(c.slots, i, s);
            lemma_total_hits_remove(c.slots, i);
            lemma_unique_update(c.slots, i, s);
            let u = c.slots.update(i, s);
            assert forall|j: int| 0 <= j < i implies !has_key(#[trigger] u[j], xpath, app) by {
                assert(u[j] == c.slots[j]);
            }
            lemma_find_key_exact(u, xpath, app, i);
        },
        None => {},
    }
}


/// A store request: the XPath, the application, the strategy and its average.
pub type StoreRequest = (Seq<char>, Seq<char>, CompiledStrategy, u64);

/// The cache after the stores `ops`, in order.
pub open spec fn after_stores(c: CacheView, ops: Seq<StoreRequest>) -> CacheView
    decreases ops.len(),
{
    if ops.len() == 0 {
        c
    } else {
        let o = ops.last();
        after_stores(c, ops.drop_last()).after_store(o.0, o.1, o.2, o.3)
    }
}

/// The cache after the lookups of `keys`, in order.
pub open spec fn after_lookups(c: CacheView, keys: Seq<(Seq<char>, Seq<char>)>) -> CacheView
    decreases keys.len(),
{
    if keys.len() == 0 {
        c
    } else {
        let k = keys.last();
        after_lookups(c, keys.drop_last()).after_lookup(k.0, k.1)
    }
}

proof fn lemma_distinct_stores(c: CacheView, ops: Seq<StoreRequest>)
    requires
        c.slots.len() == 0,
        c.clock + ops.len() < u64::MAX,
        ops.len() <= XPATH_CACHE_MAX_ENTRIES,
        forall|i: int, j: int| 0 <= i < j < ops.len() ==> !(#[trigger] ops[i].0 == #[trigger] ops[j].0 && ops[i].1 == ops[j].1),
    ensures
        after_stores(c, ops).slots.len() == ops.len(),
        total_hits(after_stores(c, ops).slots) == 0,
        after_stores(c, ops).clock == c.clock + ops.len(),
        forall|i: int| 0 <= i < ops.len() ==> has_key(#[trigger] after_stores(c, ops).slots[i], ops[i].0, ops[i].1),
    decreases ops.len(),
{
    if ops.len() > 0 {
        let init = ops.drop_last();
        let n = ops.len() - 1;
        assert forall|i: int, j: int| 0 <= i < j < init.len() implies !(#[trigger] init[i].0 == #[trigger] init[j].0
            && init[i].1 == init[j].1) by {
            assert(init[i] == ops[i] && init[j] == ops[j]);
        }
        lemma_distinct_stores(c, init);
        let prev = after_stores(c, init);
        let o = ops.last();
        assert(prev.evicted() == prev.slots);
        assert forall|j: int| 0 <= j < prev.slots.len() implies !has_key(#[trigger] prev.slots[j], o.0, o.1) by {
            assert(init[j] == ops[j]);
            assert(has_key(prev.slots[j], init[j].0, init[j].1));
            assert(!(ops[j].0 == ops[n].0 && ops[j].1 == ops[n].1));
        }
        lemma_find_key_absent(prev.slots, o.0, o.1);
        let s = prev.after_store(o.0, o.1, o.2, o.3);
        let slot = SlotView {
            xpath: o.0,
            app: o.1,
            entry: CompiledXPathEntry { strategy: o.2, avg_time_ms: o.3, hit_count: 0, created_at: prev.next_clock(), last_used: prev.next_clock() },
        };
        assert(s.slots == prev.slots.push(slot));
        lemma_total_hits_push(prev.slots, slot);
        assert forall|i: int| 0 <= i < ops.len() implies has_key(#[trigger] s.slots[i], ops[i].0, ops[i].1) by {
            if i < n {
                assert(init[i] == ops[i]);
                assert(has_key(prev.slots[i], init[i].0, init[i].1));
            }
        }
    }
}

proof fn lemma_hitting_lookups(c: CacheView, keys: Seq<(Seq<char>, Seq<char>)>)
    requires
        c.clock + keys.len() < u64::MAX,
        total_hits(c.slots) + keys.len() < u64::MAX,
        forall|l: int| 0 <= l < keys.len() ==> exists|j: int| 0 <= j < c.slots.len() && has_key(#[trigger] c.slots[j], (#[trigger] keys[l]).0, keys[l].1),
    ensures
        after_lookups(c, keys).slots.len() == c.slots.len(),
        total_hits(after_lookups(c, keys).slots) == total_hits(c.slots) + keys.len(),
        after_lookups(c, keys).clock == c.clock + keys.len(),
        forall|j: int| 0 <= j < c.slots.len() ==> (#[trigger] after_lookups(c, keys).slots[j]).xpath == c.slots[j].xpath
            && after_lookups(c, keys).slots[j].app == c.slots[j].app,
    decreases keys.len(),
{
    if keys.len() > 0 {
        let init = keys.drop_last();
        let n = keys.len() - 1;
        assert forall|l: int| 0 <= l < init.len() implies exists|j: int| 0 <= j < c.slots.len() && has_key(#[trigger] c.slots[j], (#[trigger] init[l]).0, init[l].1) by {
            assert(init[l] == keys[l]);
        }
        lemma_hitting_lookups(c, init);
        let prev = after_lookups(c, init);
        let k = keys.last();
        assert(k == keys[n]);
        let j = choose|j: int| 0 <= j < c.slots.len() && has_key(#[trigger] c.slots[j], keys[n].0, keys[n].1);
        assert(has_key(prev.slots[j], k.0, k.1));
        lemma_find_key(prev.slots, k.0, k.1);
        let i = find_key(prev.slots, k.0, k.1)->0;
        let s = prev.after_lookup(k.0, k.1);
        let e = prev.slots[i].entry;
        let zero = SlotView { entry: CompiledXPathEntry { hit_count: 0, ..e }, ..prev.slots[i] };
        lemma_total_hits_update(prev.slots, i, zero);
        let slot = SlotView { entry: CompiledXPathEntry { hit_count: (e.hit_count + 1) as u64, last_used: prev.next_clock(), ..e }, ..prev.slots[i] };
        assert(s.slots == prev.slots.update(i, slot));
        lemma_total_hits_update(prev.slots, i, slot);
    }
}

/// Counting: from an empty cache, storing distinct keys (no more than the
/// cache holds) and then looking up stored keys leaves one entry per key
/// stored, with as many hits as lookups in all.
pub proof fn lemma_stats_count(c: CacheView, ops: Seq<StoreRequest>, keys: Seq<(Seq<char>, Seq<char>)>)
    requires
        c.slots.len() == 0,
        c.clock + ops.len() + keys.len() < u64::MAX,
        ops.len() <= XPATH_CACHE_MAX_ENTRIES,
        forall|i: int, j: int| 0 <= i < j < ops.len() ==> !(#[trigger] ops[i].0 == #[trigger] ops[j].0 && ops[i].1 == ops[j].1),
        forall|l: int| 0 <= l < keys.len() ==> exists|i: int| 0 <= i < ops.len() && (#[trigger] ops[i]).0 == (#[trigger] keys[l]).0 && ops[i].1 == keys[l].1,
    ensures
        after_lookups(after_stores(c, ops), keys).slots.len() == ops.len(),
        total_hits(after_lookups(after_stores(c, ops), keys).slots) == keys.len(),
{
    lemma_distinct_stores(c, ops);
    let s = after_stores(c, ops);
    assert forall|l: int| 0 <= l < keys.len() implies exists|j: int| 0 <= j < s.slots.len() && has_key(#[trigger] s.slots[j], (#[trigger] keys[l]).0, keys[l].1) by {
        let i = choose|i: int| 0 <= i < ops.len() && (#[trigger] ops[i]).0 == keys[l].0 && ops[i].1 == keys[l].1;
        assert(has_key(s.slots[i], ops[i].0, ops[i].1));
    }
    lemma_hitting_lookups(s, keys);
}


/// Storing a strategy for a key in a well-formed cache: the cache stays
/// within its size; the key's entry holds the strategy and average stored;
/// every key in the cache afterwards was there before or is the key stored;
/// at most one key that was there is gone (the one evicted); a new key starts
/// with no hits, and in a cache that was not full an existing key keeps its
/// hits.
pub proof fn lemma_store_effects(c: CacheView, xpath: Seq<char>, app: Seq<char>, strategy: CompiledStrategy, avg: u64)
    requires
        c.wf(),
    ensures
        c.after_store(xpath, app, strategy, avg).slots.len() <= XPATH_CACHE_MAX_ENTRIES,
        c.after_store(xpath, app, strategy, avg).get(xpath, app) matches Some(e) && e.strategy == strategy
            && e.avg_time_ms == avg,
        forall|j: int|
            0 <= j < c.after_store(xpath, app, strategy, avg).slots.len() ==> has_key(
                #[trigger] c.after_store(xpath, app, strategy, avg).slots[j],
                xpath,
                app,
            ) || find_key(
                c.slots,
                c.after_store(xpath, app, strategy, avg).slots[j].xpath,
                c.after_store(xpath, app, strategy, avg).slots[j].app,
            ) is Some,
        forall|i1: int, i2: int|
            0 <= i1 < c.slots.len() && 0 <= i2 < c.slots.len() && find_key(
                c.after_store(xpath, app, strategy, avg).slots,
                #[trigger] c.slots[i1].xpath,
                c.slots[i1].app,
            ) is None && find_key(
                c.after_store(xpath, app, strategy, avg).slots,
                #[trigger] c.slots[i2].xpath,
                c.slots[i2].app,
            ) is None ==> i1 == i2,
        c.get(xpath, app) is None ==> c.after_store(xpath, app, strategy, avg).get(xpath, app)->0.hit_count == 0,
        c.slots.len() < XPATH_CACHE_MAX_ENTRIES && c.get(xpath, app) is Some ==> c.after_store(
            xpath,
            app,
            strategy,
            avg,
        ).get(xpath, app)->0.hit_count == c.get(xpath, app)->0.hit_count,
{
    let d = c.after_store(xpath, app, strategy, avg);
    let base = c.evicted();
    let full = c.slots.len() >= XPATH_CACHE_MAX_ENTRIES;
    let l = if full {
        lemma_lru_index(c.slots);
        lru_index(c.slots)
    } else {
        -1
    };
    // Where each slot of `base` came from in `c`.
    assert forall|j: int| 0 <= j < base.len() implies #[trigger] base[j] == c.slots[if full && j >= l {
        j + 1
    } else {
        j
    }] by {}
    lemma_find_key(base, xpath, app);
    lemma_find_key(c.slots, xpath, app);
    match find_key(base, xpath, app) {
        Some(i) => {
            lemma_find_key_exact(d.slots, xpath, app, i);
        },
        None => {
            lemma_find_key_exact(d.slots, xpath, app, base.len() as int);
        },
    }
    // Keys after the store were there before, or are the key stored.
    assert forall|j: int| 0 <= j < d.slots.len() implies has_key(#[trigger] d.slots[j], xpath, app) || find_key(
        c.slots,
        d.slots[j].xpath,
        d.slots[j].app,
    ) is Some by {
        if !has_key(d.slots[j], xpath, app) {
            assert(j < base.len());
            assert(d.slots[j].xpath == base[j].xpath && d.slots[j].app == base[j].app);
            let src = if full && j >= l {
                j + 1
            } else {
                j
            };
            assert(has_key(c.slots[src], d.slots[j].xpath, d.slots[j].app));
            lemma_find_key(c.slots, d.slots[j].xpath, d.slots[j].app);
        }
    }
    // Only the evicted key can be gone.
    assert forall|i1: int| 0 <= i1 < c.slots.len() && find_key(d.slots, #[trigger] c.slots[i1].xpath, c.slots[i1].app) is None
        implies full && i1 == l by {
        lemma_find_key(d.slots, c.slots[i1].xpath, c.slots[i1].app);
        if !(full && i1 == l) {
            let j = if full && i1 > l {
                i1 - 1
            } else {
                i1
            };
            assert(base[j] == c.slots[i1]);
            assert(d.slots[j].xpath == base[j].xpath && d.slots[j].app == base[j].app);
            assert(has_key(d.slots[j], c.slots[i1].xpath, c.slots[i1].app));
        }
    }
    if c.get(xpath, app) is None {
        assert forall|j: int| 0 <= j < base.len() implies !has_key(#[trigger] base[j], xpath, app) by {
            let src = if full && j >= l {
                j + 1
            } else {
                j
            };
            assert(base[j] == c.slots[src]);
        }
        lemma_find_key_absent(base, xpath, app);
    }
}

} // verus!
