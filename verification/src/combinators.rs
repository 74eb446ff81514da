//! Rule engines joined without an expression: all of a list, any of a
//! list, and the negation of one.

use crate::filter_program::{truth_at, FilterProgram};
use crate::form_logic::holds;
use vstd::prelude::*;

verus! {

/// Holds a point when every engine of the list does.
#[derive(Debug, PartialEq, Eq)]
pub struct All {
    pub filters: Vec<FilterProgram>,
}

/// Holds a point when some engine of the list does.
#[derive(Debug, PartialEq, Eq)]
pub struct Any {
    pub filters: Vec<FilterProgram>,
}

/// Holds a point when its engine does not.
#[derive(Debug, PartialEq, Eq)]
pub struct Not {
    pub filter: Box<FilterProgram>,
}

/// Whether an engine holds a point.
pub open spec fn accepts(engine: FilterProgram, point: [i32; 3], intensity: Option<i32>) -> bool {
    holds(engine.formula(), truth_at(engine.items(), point, intensity))
}

/// Whether every engine of a list is in order.
pub open spec fn all_wf(filters: Seq<FilterProgram>) -> bool {
    forall|i: int| 0 <= i < filters.len() ==> (#[trigger] filters[i]).wf()
}

impl All {
    /// Whether every engine holds the point. Stops at the first that does
    /// not. An empty list holds every point.
    pub fn contains(&self, point: &[i32; 3], intensity: Option<i32>) -> (r: bool)
        requires
            all_wf(self.filters@),
        ensures
            r == forall|i: int|
                0 <= i < self.filters@.len() ==> accepts(
                    #[trigger] self.filters@[i],
                    *point,
                    intensity,
                ),
    {
        let mut i: usize = 0;
        while i < self.filters.len()
            invariant
                all_wf(self.filters@),
                i <= self.filters.len(),
                forall|k: int| 0 <= k < i ==> accepts(#[trigger] self.filters@[k], *point, intensity),
            decreases self.filters.len() - i,
        {
            if !self.filters[i].contains(point, intensity) {
                return false;
            }
            i += 1;
        }
        true
    }
}

impl Any {
    /// Whether some engine holds the point. Stops at the first that does.
    /// An empty list holds no point.
    pub fn contains(&self, point: &[i32; 3], intensity: Option<i32>) -> (r: bool)
        requires
            all_wf(self.filters@),
        ensures
            r == exists|i: int|
                0 <= i < self.filters@.len() && accepts(
                    #[trigger] self.filters@[i],
                    *point,
                    intensity,
                ),
    {
        let mut i: usize = 0;
        while i < self.filters.len()
            invariant
                all_wf(self.filters@),
                i <= self.filters.len(),
                forall|k: int|
                    0 <= k < i ==> !accepts(#[trigger] self.filters@[k], *point, intensity),
            decreases self.filters.len() - i,
        {
            if self.filters[i].contains(point, intensity) {
                return true;
            }
            i += 1;
        }
        false
    }
}

impl Not {
    /// Whether the engine does not hold the point.
    pub fn contains(&self, point: &[i32; 3], intensity: Option<i32>) -> (r: bool)
        requires
            self.filter.wf(),
        ensures
            r == !accepts(*self.filter, *point, intensity),
    {
        !self.filter.contains(point, intensity)
    }
}

} // verus!
