//! In-order publication of frame release points: points may become ready
//! in any order, but are published strictly one after another.

use std::collections::BTreeMap;
use vstd::prelude::*;

verus! {

broadcast use {vstd::std_specs::btree::group_btree_axioms, vstd::laws_cmp::group_laws_cmp};

#[derive(Debug, PartialEq, Eq, Clone, Copy, Structural)]
pub enum ReleaseFrontierInsertError {
    InvalidPoint,
    AlreadyPublished,
    Duplicate,
}

/// Ready release points not yet published, and the next point to publish.
pub struct ReleaseFrontier<T> {
    next_point: u64,
    ready: BTreeMap<u64, T>,
}

/// Abstract state of a frontier.
pub struct FrontierView<T> {
    pub next_point: u64,
    pub ready: Map<u64, T>,
}

impl<T> View for ReleaseFrontier<T> {
    type V = FrontierView<T>;

    closed spec fn view(&self) -> FrontierView<T> {
        FrontierView { next_point: self.next_point, ready: self.ready@ }
    }
}

impl<T> FrontierView<T> {
    /// Nothing below the next point is pending, and point zero never is.
    pub open spec fn well_formed(self) -> bool {
        &&& self.next_point >= 1
        &&& forall|p: u64| #[trigger] self.ready.contains_key(p) ==> p >= self.next_point
    }

    /// The outcome of inserting `point`.
    pub open spec fn insert_result(self, point: u64) -> Result<(), ReleaseFrontierInsertError> {
        if point == 0 {
            Err(ReleaseFrontierInsertError::InvalidPoint)
        } else if point < self.next_point {
            Err(ReleaseFrontierInsertError::AlreadyPublished)
        } else if self.ready.contains_key(point) {
            Err(ReleaseFrontierInsertError::Duplicate)
        } else {
            Ok(())
        }
    }

    /// The point after `next_point`, saturating at the largest point.
    pub open spec fn successor(self) -> u64 {
        if self.next_point == u64::MAX {
            u64::MAX
        } else {
            (self.next_point + 1) as u64
        }
    }
}

impl<T> ReleaseFrontier<T> {
    pub fn new() -> (r: Self)
        ensures
            r@.next_point == 1,
            r@.ready == Map::<u64, T>::empty(),
            r@.well_formed(),
    {
        ReleaseFrontier { next_point: 1, ready: BTreeMap::new() }
    }

    /// Records `value` as ready at `point`. Point zero, already published
    /// points and points already ready are refused and leave the frontier
    /// unchanged.
    pub fn insert(&mut self, point: u64, value: T) -> (r: Result<(), ReleaseFrontierInsertError>)
        ensures
            r == old(self)@.insert_result(point),
            r is Ok ==> final(self)@ == (FrontierView {
                next_point: old(self)@.next_point,
                ready: old(self)@.ready.insert(point, value),
            }),
            r is Err ==> final(self)@ == old(self)@,
            old(self)@.well_formed() ==> final(self)@.well_formed(),
    {
        if point == 0 {
            return Err(ReleaseFrontierInsertError::InvalidPoint);
        }
        if point < self.next_point {
            return Err(ReleaseFrontierInsertError::AlreadyPublished);
        }
        if self.ready.contains_key(&point) {
            return Err(ReleaseFrontierInsertError::Duplicate);
        }
        self.ready.insert(point, value);
        Ok(())
    }

    /// The next point and its value, if that exact point is ready; a ready
    /// point further on never shows through a gap.
    pub fn next_ready(&self) -> (r: Option<(u64, &T)>)
        ensures
            match r {
                Some((p, v)) => p == self@.next_point && self@.ready.contains_key(p) && *v
                    == self@.ready[p],
                None => !self@.ready.contains_key(self@.next_point),
            },
    {
        match self.ready.get(&self.next_point) {
            Some(value) => Some((self.next_point, value)),
            None => None,
        }
    }

    /// Publishes the next point if it is ready: hands its value back and
    /// moves on to the following point.
    pub fn commit_next(&mut self) -> (r: Option<T>)
        ensures
            old(self)@.ready.contains_key(old(self)@.next_point) ==> {
                &&& r == Some(old(self)@.ready[old(self)@.next_point])
                &&& final(self)@.ready == old(self)@.ready.remove(old(self)@.next_point)
                &&& final(self)@.next_point == old(self)@.successor()
            },
            !old(self)@.ready.contains_key(old(self)@.next_point) ==> {
                &&& r is None
                &&& final(self)@ == old(self)@
            },
            old(self)@.well_formed() ==> final(self)@.well_formed(),
    {
        let ghost before = self.ready@;
        let value = match self.ready.remove(&self.next_point) {
            Some(v) => v,
            None => {
                assert(before.remove(self.next_point) =~= before);
                return None;
            },
        };
        self.next_point = self.next_point.saturating_add(1);
        Some(value)
    }

    /// Number of ready points not yet published.
    pub fn pending_count(&self) -> (r: usize)
        ensures
            r == self@.ready.dom().len(),
    {
        self.ready.len()
    }
}

/// A point inserted at the frontier's next point is what the following
/// commit publishes.
pub proof fn law_insert_at_next_then_commit<T>(f: FrontierView<T>, value: T)
    requires
        f.well_formed(),
        f.insert_result(f.next_point) is Ok,
    ensures
        ({
            let g = FrontierView { next_point: f.next_point, ready: f.ready.insert(f.next_point, value) };
            &&& g.ready.contains_key(g.next_point)
            &&& g.ready[g.next_point] == value
            &&& g.ready.remove(g.next_point) == f.ready
        }),
{
    let g = FrontierView { next_point: f.next_point, ready: f.ready.insert(f.next_point, value) };
    assert(g.ready.remove(g.next_point) =~= f.ready);
}

/// Publication never skips a point: while the next point is missing, no
/// commit publishes anything, whatever else is ready.
pub proof fn law_no_publication_across_a_gap<T>(f: FrontierView<T>, later: u64)
    requires
        f.well_formed(),
        !f.ready.contains_key(f.next_point),
        f.ready.contains_key(later),
    ensures
        later > f.next_point,
{
}

} // verus!
