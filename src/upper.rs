use timely::progress::frontier::MutableAntichain;
use vstd::prelude::*;

verus! {

#[verifier::external_type_specification]
#[verifier::external_body]
#[verifier::reject_recursive_types(T)]
pub struct ExMutableAntichain<T>(MutableAntichain<T>);

/// The accumulated count of each time held by a `MutableAntichain`.
pub uninterp spec fn upper_counts(a: MutableAntichain<u64>) -> Map<u64, int>;

/// The sum of the magnitudes of the updates a `MutableAntichain` stores
/// before it consolidates them: a bound on every sum it forms.
pub uninterp spec fn stored_mass(a: MutableAntichain<u64>) -> int;

/// The count of `t`, zero where no update mentioned it.
pub open spec fn count_at(m: Map<u64, int>, t: u64) -> int {
    if m.contains_key(t) {
        m[t]
    } else {
        0
    }
}

/// The least time with a positive count, if any: the frontier that a
/// `MutableAntichain` exposes over a totally ordered domain.
pub open spec fn least_positive(m: Map<u64, int>) -> Option<u64> {
    if exists|t: u64| count_at(m, t) > 0 {
        Some(
            choose|t: u64|
                count_at(m, t) > 0 && (forall|s: u64| s < t ==> count_at(m, s) <= 0),
        )
    } else {
        None
    }
}

/// The counts after applying `changes` in order.
pub open spec fn apply_changes(m: Map<u64, int>, changes: Seq<(u64, i64)>) -> Map<u64, int>
    decreases changes.len(),
{
    if changes.len() == 0 {
        m
    } else {
        let prev = apply_changes(m, changes.drop_last());
        let (t, d) = changes.last();
        prev.insert(t, count_at(prev, t) + d)
    }
}

pub open spec fn abs(d: int) -> int {
    if d < 0 {
        -d
    } else {
        d
    }
}

/// The sum of the magnitudes of all changes.
pub open spec fn total_mass(changes: Seq<(u64, i64)>) -> int
    decreases changes.len(),
{
    if changes.len() == 0 {
        0
    } else {
        total_mass(changes.drop_last()) + abs(changes.last().1 as int)
    }
}

/// Relies on `MutableAntichain::new`: it holds no counts and stores no
/// updates.
#[verifier::external_body]
pub(crate) fn empty_upper() -> (r: MutableAntichain<u64>)
    ensures
        forall|t: u64| #[trigger] count_at(upper_counts(r), t) == 0,
        stored_mass(r) == 0,
{
    MutableAntichain::new()
}

/// Relies on `MutableAntichain::update_iter`: it adds each delta to the count
/// of its time and reports the changes of the frontier, which cancel out
/// (and the report is empty) exactly when the frontier stayed the same. It
/// stores each delta and consolidates stored updates by adding them in
/// `i64`, which merges magnitudes without growing them: every sum it forms
/// stays within the stored magnitude, which the deltas raise by at most
/// their own.
#[verifier::external_body]
pub(crate) fn update_upper_counts(a: &mut MutableAntichain<u64>, changes: Vec<(u64, i64)>) -> (r:
    Vec<(u64, i64)>)
    requires
        stored_mass(*old(a)) + total_mass(changes@) <= i64::MAX,
    ensures
        0 <= stored_mass(*final(a)) <= stored_mass(*old(a)) + total_mass(changes@),
        upper_counts(*final(a)) == apply_changes(upper_counts(*old(a)), changes@),
        r@.len() == 0 <==> least_positive(upper_counts(*final(a))) == least_positive(
            upper_counts(*old(a)),
        ),
{
    a.update_iter(changes).collect()
}

/// Relies on `MutableAntichain::frontier`: the minimal times with a positive
/// count, at most one for `u64`.
#[verifier::external_body]
pub(crate) fn upper_frontier(a: &MutableAntichain<u64>) -> (r: Option<u64>)
    ensures
        r == least_positive(upper_counts(*a)),
{
    a.frontier().first().copied()
}

} // verus!
