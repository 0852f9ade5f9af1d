use timely::progress::frontier::MutableAntichain;
use vstd::prelude::*;

use crate::antichain::{frontier_le, join_spec, meet_spec, Antichain};
use crate::types::GlobalId;
use crate::upper::{
    apply_changes, count_at, empty_upper, least_positive, stored_mass, total_mass,
    update_upper_counts, upper_counts, upper_frontier,
};

verus! {

/// The frontier that trails `upper` by `window` milliseconds, rounded down to
/// a multiple of the window. An empty `upper` yields an empty result; a zero
/// window lets the frontier follow `upper` exactly.
pub open spec fn compaction_spec(upper: Antichain, window: u64) -> Antichain {
    match upper.element {
        None => Antichain { element: None },
        Some(t) => Antichain {
            element: Some(
                if window == 0 {
                    t
                } else {
                    (window * ((if t >= window { t - window } else { 0int }) / window as int)) as u64
                },
            ),
        },
    }
}

/// Derives the compaction frontier for an arrangement whose upper frontier
/// is `upper` and whose compaction window is `window`.
pub fn compaction_frontier(upper: &Antichain, window: u64) -> (r: Antichain)
    ensures
        r == compaction_spec(*upper, window),
        frontier_le(r, *upper),
{
    match upper.element {
        None => Antichain { element: None },
        Some(t) => {
            if window == 0 {
                Antichain { element: Some(t) }
            } else {
                let lagged: u64 = t.saturating_sub(window);
                let q: u64 = lagged / window;
                proof {
                    assert(q * window <= lagged) by (nonlinear_arith)
                        requires
                            q == lagged / window,
                            window > 0,
                    ;
                }
                let c: u64 = window * q;
                Antichain { element: Some(c) }
            }
        },
    }
}

/// Per-arrangement frontier record: the upper frontier of available times,
/// the since frontier below which history is compacted, and the window by
/// which since trails upper.
pub struct Frontiers {
    /// Counts of the times the workers report; the upper frontier is the
    /// least time with a positive count.
    pub upper: MutableAntichain<u64>,
    /// A bound on the magnitude of every count in `upper`.
    pub mass: u64,
    pub since: Antichain,
    pub compaction_window_ms: Option<u64>,
}

impl Frontiers {
    /// The upper frontier.
    pub open spec fn upper_spec(&self) -> Antichain {
        Antichain { element: least_positive(upper_counts(self.upper)) }
    }

    pub open spec fn wf(&self) -> bool {
        &&& self.mass <= i64::MAX
        &&& 0 <= stored_mass(self.upper) <= self.mass
    }

    /// A record for an arrangement that `workers` workers maintain, each of
    /// which starts at time zero.
    pub fn new(workers: u64, compaction_window_ms: Option<u64>) -> (r: Frontiers)
        requires
            workers <= i64::MAX,
        ensures
            r.wf(),
            workers > 0 ==> r.upper_spec().element == Some(0u64),
            workers == 0 ==> r.upper_spec().element.is_none(),
            r.since.element == Some(0u64),
            r.compaction_window_ms == compaction_window_ms,
    {
        Self::starting_at(workers, compaction_window_ms, Antichain { element: Some(0) })
    }

    /// A record for an arrangement that `workers` workers maintain, each of
    /// which starts at the frontier `start` (an empty `start` makes the
    /// arrangement complete from the outset); since starts there too.
    pub fn starting_at(workers: u64, compaction_window_ms: Option<u64>, start: Antichain) -> (r:
        Frontiers)
        requires
            workers <= i64::MAX,
        ensures
            r.wf(),
            r.upper_spec() == (if workers > 0 {
                start
            } else {
                Antichain { element: None }
            }),
            r.since == start,
            r.compaction_window_ms == compaction_window_ms,
    {
        let mut upper = empty_upper();
        let ghost m0 = upper_counts(upper);
        match start.element {
            Some(t0) => {
                let mut changes: Vec<(u64, i64)> = Vec::new();
                changes.push((t0, workers as i64));
                proof {
                    assert(changes@.drop_last() =~= Seq::<(u64, i64)>::empty());
                    assert(changes@.last() == (t0, workers as i64));
                    assert(total_mass(changes@.drop_last()) == 0);
                    assert(total_mass(changes@) == workers);
                }
                let ghost ch = changes@;
                let _ = update_upper_counts(&mut upper, changes);
                let ghost m = upper_counts(upper);
                proof {
                    assert(ch.drop_last() =~= Seq::<(u64, i64)>::empty());
                    assert(apply_changes(m0, ch.drop_last()) == m0);
                    assert(m == m0.insert(t0, count_at(m0, t0) + workers));
                    assert forall|t: u64| t != t0 implies #[trigger] count_at(m, t) == 0 by {
                        assert(count_at(m0, t) == 0);
                    }
                    assert(count_at(m0, t0) == 0);
                    assert(count_at(m, t0) == workers);
                    if workers > 0 {
                        assert(count_at(m, t0) > 0);
                        let c = least_positive(m)->0;
                        assert(count_at(m, c) > 0);
                    } else {
                        assert(forall|t: u64| #[trigger] count_at(m, t) <= 0);
                    }
                }
            },
            None => {
                proof {
                    assert(forall|t: u64| #[trigger] count_at(m0, t) <= 0);
                }
            },
        }
        Frontiers { upper, mass: workers, since: start, compaction_window_ms }
    }

    /// The upper frontier.
    pub fn upper(&self) -> (r: Antichain)
        ensures
            r == self.upper_spec(),
    {
        Antichain { element: upper_frontier(&self.upper) }
    }

    /// Applies worker progress to the upper frontier. Returns `None`, and
    /// leaves the record as it was, when the counts could leave `i64`;
    /// otherwise whether the upper frontier changed.
    pub fn apply_upper_changes(&mut self, changes: Vec<(u64, i64)>) -> (r: Option<bool>)
        requires
            old(self).wf(),
        ensures
            final(self).wf(),
            final(self).since == old(self).since,
            final(self).compaction_window_ms == old(self).compaction_window_ms,
            r.is_none() ==> *final(self) == *old(self),
            r.is_some() ==> upper_counts(final(self).upper) == apply_changes(
                upper_counts(old(self).upper),
                changes@,
            ),
            r == Some(false) ==> final(self).upper_spec() == old(self).upper_spec(),
            r == Some(true) ==> final(self).upper_spec() != old(self).upper_spec(),
            r.is_none() <==> old(self).mass + total_mass(changes@) > i64::MAX,
    {
        let budget: i128 = (i64::MAX as i128) - (self.mass as i128);
        let mut total: i128 = 0;
        let mut i: usize = 0;
        while i < changes.len()
            invariant
                0 <= i <= changes.len(),
                total == total_mass(changes@.take(i as int)),
                0 <= total <= budget,
                budget == i64::MAX - old(self).mass,
                *self == *old(self),
                self.wf(),
            decreases changes.len() - i,
        {
            let d: i64 = changes[i].1;
            let a: i128 = if d < 0 {
                -(d as i128)
            } else {
                d as i128
            };
            proof {
                assert(changes@.take(i as int + 1).drop_last() =~= changes@.take(i as int));
            }
            if total + a > budget {
                proof {
                    lemma_total_mass_prefix(changes@, i as int + 1);
                }
                return None;
            }
            total = total + a;
            i = i + 1;
        }
        proof {
            assert(changes@.take(changes@.len() as int) =~= changes@);
        }
        let report = update_upper_counts(&mut self.upper, changes);
        self.mass = self.mass + total as u64;
        Some(report.len() > 0)
    }
}

/// The since frontier that follows a change of upper from `old_upper` to
/// `new_upper`: the compaction frontier of the new upper when the upper moved,
/// is not empty, and a window is set; otherwise `since` unchanged.
pub open spec fn next_since(
    old_upper: Antichain,
    new_upper: Antichain,
    since: Antichain,
    window: Option<u64>,
) -> Antichain {
    if new_upper != old_upper && window.is_some() && new_upper.element.is_some() {
        compaction_spec(new_upper, window.unwrap())
    } else {
        since
    }
}

/// The frontier records of all tracked arrangements, keyed by id.
pub struct ArrangementFrontiers {
    pub entries: Vec<(GlobalId, Frontiers)>,
}

/// The join of the since frontiers of the tracked ids among `ids`, starting
/// from the frontier of time zero.
pub open spec fn since_join(m: Map<GlobalId, Frontiers>, ids: Seq<GlobalId>) -> Antichain
    decreases ids.len(),
{
    if ids.len() == 0 {
        Antichain { element: Some(0) }
    } else {
        let prev = since_join(m, ids.drop_last());
        if m.contains_key(ids.last()) {
            join_spec(prev, m[ids.last()].since)
        } else {
            prev
        }
    }
}

/// The meet of the upper frontiers of the tracked ids among `ids`, starting
/// from the empty frontier.
pub open spec fn upper_meet(m: Map<GlobalId, Frontiers>, ids: Seq<GlobalId>) -> Antichain
    decreases ids.len(),
{
    if ids.len() == 0 {
        Antichain { element: None }
    } else {
        let prev = upper_meet(m, ids.drop_last());
        if m.contains_key(ids.last()) {
            meet_spec(prev, m[ids.last()].upper_spec())
        } else {
            prev
        }
    }
}

impl ArrangementFrontiers {
    pub open spec fn has(&self, id: GlobalId) -> bool {
        exists|i: int| 0 <= i < self.entries@.len() && (#[trigger] self.entries@[i]).0 == id
    }

    pub open spec fn index_of(&self, id: GlobalId) -> int {
        choose|i: int| 0 <= i < self.entries@.len() && (#[trigger] self.entries@[i]).0 == id
    }

    /// The tracked records by id.
    pub open spec fn view(&self) -> Map<GlobalId, Frontiers> {
        Map::new(|id: GlobalId| self.has(id), |id: GlobalId| self.entries@[self.index_of(id)].1)
    }

    pub open spec fn wf(&self) -> bool {
        &&& forall|i: int, j: int|
            0 <= i < self.entries@.len() && 0 <= j < self.entries@.len() && i != j ==> (
            #[trigger] self.entries@[i]).0 != (#[trigger] self.entries@[j]).0
        &&& forall|i: int| 0 <= i < self.entries@.len() ==> (#[trigger] self.entries@[i]).1.wf()
    }

    /// Every tracked record is well formed.
    pub open spec fn records_wf(m: Map<GlobalId, Frontiers>) -> bool {
        forall|id: GlobalId| m.contains_key(id) ==> (#[trigger] m[id]).wf()
    }

    pub proof fn lemma_index(&self, i: int)
        requires
            self.wf(),
            0 <= i < self.entries@.len(),
        ensures
            self.has(self.entries@[i].0),
            self.index_of(self.entries@[i].0) == i,
            self.view().contains_key(self.entries@[i].0),
            self.view()[self.entries@[i].0] == self.entries@[i].1,
    {
        let id = self.entries@[i].0;
        assert(self.has(id));
        let k = self.index_of(id);
        assert(self.entries@[k].0 == id);
    }

    pub proof fn lemma_view_wf(&self)
        requires
            self.wf(),
        ensures
            Self::records_wf(self.view()),
    {
        assert forall|id: GlobalId| self.view().contains_key(id) implies (
        #[trigger] self.view()[id]).wf() by {
            let k = self.index_of(id);
            assert(self.entries@[k].1.wf());
        }
    }

    pub fn new() -> (r: ArrangementFrontiers)
        ensures
            r.wf(),
            r.view() == Map::<GlobalId, Frontiers>::empty(),
    {
        let r = ArrangementFrontiers { entries: Vec::new() };
        assert(r.view() =~= Map::<GlobalId, Frontiers>::empty());
        r
    }

    /// The position of `id`, if it is tracked.
    pub fn find(&self, id: GlobalId) -> (r: Option<usize>)
        requires
            self.wf(),
        ensures
            r.is_none() <==> !self.view().contains_key(id),
            r.is_some() ==> r.unwrap() < self.entries@.len() && self.entries@[r.unwrap() as int].0
                == id && self.index_of(id) == r.unwrap(),
    {
        let mut i: usize = 0;
        while i < self.entries.len()
            invariant
                0 <= i <= self.entries@.len(),
                self.wf(),
                forall|j: int| 0 <= j < i ==> (#[trigger] self.entries@[j]).0 != id,
            decreases self.entries.len() - i,
        {
            if self.entries[i].0 == id {
                proof {
                    self.lemma_index(i as int);
                }
                return Some(i);
            }
            i = i + 1;
        }
        None
    }

    pub fn contains_key(&self, id: GlobalId) -> (r: bool)
        requires
            self.wf(),
        ensures
            r == self.view().contains_key(id),
    {
        self.find(id).is_some()
    }

    /// Starts tracking `id` with the record `f`, replacing any earlier record.
    pub fn insert(&mut self, id: GlobalId, f: Frontiers)
        requires
            old(self).wf(),
            f.wf(),
        ensures
            final(self).wf(),
            final(self).view() == old(self).view().insert(id, f),
    {
        let ghost old_self = *self;
        match self.find(id) {
            Some(i) => {
                let _ = self.entries.remove(i);
                self.entries.insert(i, (id, f));
                proof {
                    assert forall|j: int| 0 <= j < self.entries@.len() && j != i implies (
                    #[trigger] self.entries@[j]) == old_self.entries@[j] by {}
                    assert(self.wf());
                    assert forall|k: GlobalId| #[trigger]
                        self.view().contains_key(k) == old_self.view().insert(id, f).contains_key(
                            k,
                        ) by {
                        if old_self.has(k) {
                            let j = old_self.index_of(k);
                            assert(self.entries@[j].0 == k);
                        }
                        if self.has(k) {
                            let j = self.index_of(k);
                            assert(old_self.entries@[j].0 == k || j == i);
                        }
                    }
                    assert forall|k: GlobalId| #[trigger]
                        self.view().contains_key(k) implies self.view()[k] == old_self.view().insert(
                            id,
                            f,
                        )[k] by {
                        let j = self.index_of(k);
                        self.lemma_index(j);
                        if j != i {
                            old_self.lemma_index(j);
                        }
                    }
                    assert(self.view() =~= old_self.view().insert(id, f));
                }
            },
            None => {
                self.entries.push((id, f));
                proof {
                    let n = old_self.entries@.len() as int;
                    assert forall|j: int| 0 <= j < n implies (#[trigger] self.entries@[j])
                        == old_self.entries@[j] by {}
                    assert(self.wf());
                    assert forall|k: GlobalId| #[trigger]
                        self.view().contains_key(k) == old_self.view().insert(id, f).contains_key(
                            k,
                        ) by {
                        if old_self.has(k) {
                            let j = old_self.index_of(k);
                            assert(self.entries@[j].0 == k);
                        }
                        if k == id {
                            assert(self.entries@[n].0 == k);
                        }
                        if self.has(k) {
                            let j = self.index_of(k);
                            assert(old_self.entries@[j].0 == k || j == n);
                        }
                    }
                    assert forall|k: GlobalId| #[trigger]
                        self.view().contains_key(k) implies self.view()[k] == old_self.view().insert(
                            id,
                            f,
                        )[k] by {
                        let j = self.index_of(k);
                        self.lemma_index(j);
                        if j != n {
                            old_self.lemma_index(j);
                        }
                    }
                    assert(self.view() =~= old_self.view().insert(id, f));
                }
            },
        }
    }

    /// Stops tracking `id`, returning its record if it was tracked.
    pub fn remove(&mut self, id: GlobalId) -> (r: Option<Frontiers>)
        requires
            old(self).wf(),
        ensures
            final(self).wf(),
            final(self).view() == old(self).view().remove(id),
            r.is_some() == old(self).view().contains_key(id),
            r.is_some() ==> r.unwrap() == old(self).view()[id],
    {
        let ghost old_self = *self;
        match self.find(id) {
            Some(i) => {
                let (_, f) = self.entries.remove(i);
                proof {
                    let n = old_self.entries@.len() as int;
                    assert forall|j: int| 0 <= j < n - 1 implies (#[trigger] self.entries@[j])
                        == old_self.entries@[if j < i { j } else { j + 1 }] by {}
                    assert forall|a: int, b: int|
                        0 <= a < self.entries@.len() && 0 <= b < self.entries@.len() && a != b
                            implies (#[trigger] self.entries@[a]).0 != (
                    #[trigger] self.entries@[b]).0 by {
                        let a2 = if a < i { a } else { a + 1 };
                        let b2 = if b < i { b } else { b + 1 };
                        assert(self.entries@[a] == old_self.entries@[a2]);
                        assert(self.entries@[b] == old_self.entries@[b2]);
                    }
                    assert forall|a: int| 0 <= a < self.entries@.len() implies (
                    #[trigger] self.entries@[a]).1.wf() by {
                        let a2 = if a < i { a } else { a + 1 };
                        assert(self.entries@[a] == old_self.entries@[a2]);
                    }
                    assert(self.wf());
                    old_self.lemma_index(i as int);
                    assert forall|k: GlobalId| #[trigger]
                        self.view().contains_key(k) == old_self.view().remove(id).contains_key(
                            k,
                        ) by {
                        if old_self.has(k) && k != id {
                            let j = old_self.index_of(k);
                            assert(j != i);
                            let j2 = if j < i { j } else { j - 1 };
                            assert(self.entries@[j2].0 == k);
                        }
                        if self.has(k) {
                            let j = self.index_of(k);
                            let j2 = if j < i { j } else { j + 1 };
                            assert(old_self.entries@[j2].0 == k);
                            assert(j2 != i);
                        }
                    }
                    assert forall|k: GlobalId| #[trigger]
                        self.view().contains_key(k) implies self.view()[k] == old_self.view().remove(
                            id,
                        )[k] by {
                        let j = self.index_of(k);
                        self.lemma_index(j);
                        let j2 = if j < i { j } else { j + 1 };
                        assert(old_self.entries@[j2] == self.entries@[j]);
                        old_self.lemma_index(j2);
                    }
                    assert(self.view() =~= old_self.view().remove(id));
                }
                Some(f)
            },
            None => {
                proof {
                    assert(self.view() =~= old_self.view().remove(id));
                }
                None
            },
        }
    }

    /// The since frontier of `id`, if tracked.
    pub fn since_of(&self, id: GlobalId) -> (r: Option<Antichain>)
        requires
            self.wf(),
        ensures
            r.is_some() == self.view().contains_key(id),
            r.is_some() ==> r.unwrap() == self.view()[id].since,
    {
        match self.find(id) {
            Some(i) => Some(self.entries[i].1.since),
            None => None,
        }
    }

    /// The upper frontier of `id`, if tracked.
    pub fn upper_of(&self, id: GlobalId) -> (r: Option<Antichain>)
        requires
            self.wf(),
        ensures
            r.is_some() == self.view().contains_key(id),
            r.is_some() ==> r.unwrap() == self.view()[id].upper_spec(),
    {
        match self.find(id) {
            Some(i) => Some(self.entries[i].1.upper()),
            None => None,
        }
    }

    /// The least frontier at which every tracked arrangement among `ids`
    /// holds correct data: the join of their since frontiers.
    pub fn least_valid_since(&self, ids: &Vec<GlobalId>) -> (r: Antichain)
        requires
            self.wf(),
        ensures
            r == since_join(self.view(), ids@),
    {
        let mut since = Antichain::from_elem(0);
        let mut i: usize = 0;
        while i < ids.len()
            invariant
                0 <= i <= ids@.len(),
                self.wf(),
                since == since_join(self.view(), ids@.take(i as int)),
            decreases ids.len() - i,
        {
            proof {
                assert(ids@.take(i as int + 1).drop_last() =~= ids@.take(i as int));
            }
            if let Some(s) = self.since_of(ids[i]) {
                since = since.join(&s);
            }
            i = i + 1;
        }
        proof {
            assert(ids@.take(ids@.len() as int) =~= ids@);
        }
        since
    }

    /// The frontier below which every tracked arrangement among `ids` is
    /// complete: the meet of their upper frontiers.
    pub fn greatest_open_upper(&self, ids: &Vec<GlobalId>) -> (r: Antichain)
        requires
            self.wf(),
        ensures
            r == upper_meet(self.view(), ids@),
    {
        let mut upper = Antichain::new();
        let mut i: usize = 0;
        while i < ids.len()
            invariant
                0 <= i <= ids@.len(),
                self.wf(),
                upper == upper_meet(self.view(), ids@.take(i as int)),
            decreases ids.len() - i,
        {
            proof {
                assert(ids@.take(i as int + 1).drop_last() =~= ids@.take(i as int));
            }
            if let Some(u) = self.upper_of(ids[i]) {
                upper = upper.meet(&u);
            }
            i = i + 1;
        }
        proof {
            assert(ids@.take(ids@.len() as int) =~= ids@);
        }
        upper
    }

    /// Sets the compaction window of `id`; false if `id` is not tracked.
    pub fn set_compaction_window_ms(&mut self, id: GlobalId, window: Option<u64>) -> (r: bool)
        requires
            old(self).wf(),
        ensures
            final(self).wf(),
            r == old(self).view().contains_key(id),
            !r ==> final(self).view() == old(self).view(),
            r ==> final(self).view().dom() == old(self).view().dom(),
            r ==> forall|k: GlobalId| k != id && #[trigger] old(self).view().contains_key(k)
                ==> final(self).view()[k] == old(self).view()[k],
            r ==> final(self).view()[id].compaction_window_ms == window,
            r ==> final(self).view()[id].since == old(self).view()[id].since,
            r ==> final(self).view()[id].upper == old(self).view()[id].upper,
    {
        proof {
            self.lemma_view_wf();
        }
        match self.remove(id) {
            Some(mut f) => {
                f.compaction_window_ms = window;
                self.insert(id, f);
                proof {
                    assert(final(self).view().dom() =~= old(self).view().dom());
                }
                true
            },
            None => {
                proof {
                    assert(self.view() =~= old(self).view());
                }
                false
            },
        }
    }

    /// Applies worker progress to the upper frontier of `id` and, where the
    /// frontier moved and the record has a compaction window, moves since to
    /// the derived compaction frontier. Returns the new since when it changed.
    pub fn update_upper(&mut self, id: GlobalId, changes: Vec<(u64, i64)>) -> (r: Option<Antichain>)
        requires
            old(self).wf(),
        ensures
            final(self).wf(),
            final(self).view().dom() == old(self).view().dom(),
            forall|k: GlobalId| k != id && #[trigger] old(self).view().contains_key(k)
                ==> final(self).view()[k] == old(self).view()[k],
            !old(self).view().contains_key(id) ==> r.is_none() && final(self).view() == old(
                self,
            ).view(),
            old(self).view().contains_key(id) ==> ({
                let f0 = old(self).view()[id];
                let f1 = final(self).view()[id];
                &&& f1.compaction_window_ms == f0.compaction_window_ms
                &&& f0.mass + total_mass(changes@) > i64::MAX ==> f1 == f0 && r.is_none()
                &&& f0.mass + total_mass(changes@) <= i64::MAX ==> {
                    &&& upper_counts(f1.upper) == apply_changes(upper_counts(f0.upper), changes@)
                    &&& f1.since == next_since(
                        f0.upper_spec(),
                        f1.upper_spec(),
                        f0.since,
                        f0.compaction_window_ms,
                    )
                    &&& r.is_some() <==> f1.since != f0.since
                    &&& r.is_some() ==> r.unwrap() == f1.since
                }
            }),
    {
        proof {
            self.lemma_view_wf();
        }
        match self.remove(id) {
            Some(mut f) => {
                let ghost f0 = f;
                let before = f.upper();
                let mut r: Option<Antichain> = None;
                match f.apply_upper_changes(changes) {
                    Some(true) => {
                        if let Some(w) = f.compaction_window_ms {
                            let after = f.upper();
                            if !after.is_empty() {
                                let c = compaction_frontier(&after, w);
                                if c != f.since {
                                    f.since = c;
                                    r = Some(c);
                                }
                            }
                        }
                    },
                    _ => {},
                }
                proof {
                    assert(before == f0.upper_spec());
                }
                self.insert(id, f);
                proof {
                    assert(final(self).view().dom() =~= old(self).view().dom());
                }
                r
            },
            None => {
                proof {
                    assert(self.view() =~= old(self).view());
                }
                None
            },
        }
    }
}

/// The compaction frontier never passes the upper frontier it trails, so
/// whenever progress moves since, since stays at or below upper.
pub proof fn lemma_compacted_since_below_upper(
    old_upper: Antichain,
    new_upper: Antichain,
    since: Antichain,
    window: Option<u64>,
)
    ensures
        next_since(old_upper, new_upper, since, window) != since ==> frontier_le(
            next_since(old_upper, new_upper, since, window),
            new_upper,
        ),
{
    if new_upper != old_upper && window.is_some() && new_upper.element.is_some() {
        let t = new_upper.element.unwrap();
        let w = window.unwrap();
        if w > 0 {
            let lagged: int = if t >= w { t - w } else { 0 };
            let q: int = lagged / w as int;
            assert(q * w <= lagged) by (nonlinear_arith)
                requires
                    q == lagged / w as int,
                    w > 0,
                    lagged >= 0,
            ;
            assert(w * q == q * w) by (nonlinear_arith);
            assert(0 <= q) by (nonlinear_arith)
                requires
                    q == lagged / w as int,
                    w > 0,
                    lagged >= 0,
            ;
            assert(0 <= w * q) by (nonlinear_arith)
                requires
                    0 <= q,
                    w > 0,
            ;
        }
    }
}

/// Deriving the compaction frontier again from an upper frontier that did
/// not move leaves since as it is; and once since is the compaction frontier
/// of the current upper, any further derivation from that upper yields it.
pub proof fn lemma_compaction_idempotent(upper: Antichain, since: Antichain, window: Option<u64>, earlier: Antichain)
    ensures
        next_since(upper, upper, since, window) == since,
        window.is_some() && upper.element.is_some() && since == compaction_spec(
            upper,
            window.unwrap(),
        ) ==> next_since(earlier, upper, since, window) == since,
{
}

/// The total magnitude of a prefix is at most that of the whole sequence.
pub proof fn lemma_total_mass_prefix(changes: Seq<(u64, i64)>, n: int)
    requires
        0 <= n <= changes.len(),
    ensures
        total_mass(changes.take(n)) <= total_mass(changes),
    decreases changes.len(),
{
    if n < changes.len() {
        assert(changes.drop_last().take(n) =~= changes.take(n));
        lemma_total_mass_prefix(changes.drop_last(), n);
    } else {
        assert(changes.take(n) =~= changes);
    }
}

} // verus!
