use crate::run::TestRun;
use core::cmp::Ordering;
use vstd::prelude::*;
use vstd::std_specs::cmp::{PartialEqSpecImpl, PartialOrdSpecImpl};

verus! {

/// Runs are equal where they are of one commit and one date.
impl PartialEq for TestRun {
    fn eq(&self, other: &TestRun) -> (same: bool) {
        self.commit == other.commit && self.date.secs == other.date.secs
    }
}

impl PartialEqSpecImpl for TestRun {
    open spec fn obeys_eq_spec() -> bool {
        true
    }

    open spec fn eq_spec(&self, other: &TestRun) -> bool {
        self.commit@ == other.commit@ && self.date == other.date
    }
}

impl Eq for TestRun {
}

/// Runs are ordered by their dates alone.
impl PartialOrd for TestRun {
    fn partial_cmp(&self, other: &TestRun) -> (order: Option<Ordering>) {
        if self.date.secs < other.date.secs {
            Some(Ordering::Less)
        } else if self.date.secs > other.date.secs {
            Some(Ordering::Greater)
        } else {
            Some(Ordering::Equal)
        }
    }
}

impl PartialOrdSpecImpl for TestRun {
    open spec fn obeys_partial_cmp_spec() -> bool {
        true
    }

    open spec fn partial_cmp_spec(&self, other: &TestRun) -> Option<Ordering> {
        if self.date.secs < other.date.secs {
            Some(Ordering::Less)
        } else if self.date.secs > other.date.secs {
            Some(Ordering::Greater)
        } else {
            Some(Ordering::Equal)
        }
    }
}

} // verus!
