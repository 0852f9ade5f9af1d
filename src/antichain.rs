use vstd::prelude::*;

verus! {

/// A frontier over `u64` timestamps. For a totally ordered domain an
/// antichain holds at most one element: `None` is the empty antichain,
/// the frontier of a stream that will see no further times.
#[derive(Clone, Copy, Debug, PartialEq, Eq, Structural)]
pub struct Antichain {
    pub element: Option<u64>,
}

/// True iff some element of `a` is less than or equal to `t`.
pub open spec fn le_time(a: Antichain, t: u64) -> bool {
    match a.element {
        Some(e) => e <= t,
        None => false,
    }
}

/// Frontier order: every time in advance of `b` is in advance of `a`.
pub open spec fn frontier_le(a: Antichain, b: Antichain) -> bool {
    match (a.element, b.element) {
        (_, None) => true,
        (None, Some(_)) => false,
        (Some(x), Some(y)) => x <= y,
    }
}

/// Lattice join of two frontiers: the times in advance of both.
pub open spec fn join_spec(a: Antichain, b: Antichain) -> Antichain {
    match (a.element, b.element) {
        (Some(x), Some(y)) => Antichain { element: Some(if x >= y { x } else { y }) },
        _ => Antichain { element: None },
    }
}

/// Lattice meet of two frontiers: the times in advance of either.
pub open spec fn meet_spec(a: Antichain, b: Antichain) -> Antichain {
    match (a.element, b.element) {
        (Some(x), Some(y)) => Antichain { element: Some(if x <= y { x } else { y }) },
        (Some(x), None) => Antichain { element: Some(x) },
        (None, _) => b,
    }
}

impl Antichain {
    /// The empty antichain.
    pub fn new() -> (r: Antichain)
        ensures
            r.element.is_none(),
    {
        Antichain { element: None }
    }

    /// The antichain holding exactly `t`.
    pub fn from_elem(t: u64) -> (r: Antichain)
        ensures
            r.element == Some(t),
    {
        Antichain { element: Some(t) }
    }

    pub fn is_empty(&self) -> (r: bool)
        ensures
            r == self.element.is_none(),
    {
        self.element.is_none()
    }

    /// The elements, in a vector of length zero or one.
    pub fn elements(&self) -> (r: Vec<u64>)
        ensures
            self.element.is_none() ==> r@ == Seq::<u64>::empty(),
            self.element.is_some() ==> r@ == seq![self.element.unwrap()],
    {
        let mut r: Vec<u64> = Vec::new();
        if let Some(e) = self.element {
            r.push(e);
        }
        r
    }

    /// True iff some element is less than or equal to `t`.
    pub fn less_equal(&self, t: u64) -> (r: bool)
        ensures
            r == le_time(*self, t),
    {
        match self.element {
            Some(e) => e <= t,
            None => false,
        }
    }

    /// Inserts `t`, keeping only the minimal element.
    pub fn insert(&mut self, t: u64)
        ensures
            final(self).element == Some(
                match old(self).element {
                    Some(e) => if e <= t { e } else { t },
                    None => t,
                },
            ),
    {
        match self.element {
            Some(e) => {
                if t < e {
                    self.element = Some(t);
                }
            },
            None => {
                self.element = Some(t);
            },
        }
    }

    /// True iff every time in advance of `other` is in advance of `self`.
    pub fn frontier_le(&self, other: &Antichain) -> (r: bool)
        ensures
            r == frontier_le(*self, *other),
    {
        match (self.element, other.element) {
            (_, None) => true,
            (None, Some(_)) => false,
            (Some(x), Some(y)) => x <= y,
        }
    }

    pub fn join(&self, other: &Antichain) -> (r: Antichain)
        ensures
            r == join_spec(*self, *other),
    {
        match (self.element, other.element) {
            (Some(x), Some(y)) => Antichain { element: Some(if x >= y { x } else { y }) },
            _ => Antichain { element: None },
        }
    }

    pub fn meet(&self, other: &Antichain) -> (r: Antichain)
        ensures
            r == meet_spec(*self, *other),
    {
        match (self.element, other.element) {
            (Some(x), Some(y)) => Antichain { element: Some(if x <= y { x } else { y }) },
            (Some(x), None) => Antichain { element: Some(x) },
            (None, _) => *other,
        }
    }
}

/// The join is an upper bound of both arguments.
pub proof fn lemma_join_upper_bound(a: Antichain, b: Antichain)
    ensures
        frontier_le(a, join_spec(a, b)),
        frontier_le(b, join_spec(a, b)),
{
}

} // verus!
