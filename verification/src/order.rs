//! Segments are compared by stream number alone.
use vstd::prelude::*;
use core::cmp::Ordering;
use vstd::std_specs::cmp::PartialEqSpecImpl;
use vstd::std_specs::cmp::PartialOrdSpecImpl;
use crate::stream::Stream;

verus! {

/// How two stream numbers compare.
pub open spec fn number_order(a: u32, b: u32) -> Ordering {
    if a < b {
        Ordering::Less
    } else if a == b {
        Ordering::Equal
    } else {
        Ordering::Greater
    }
}

impl PartialEq for Stream {
    fn eq(&self, other: &Self) -> (r: bool) {
        self.stream_id == other.stream_id
    }
}

impl PartialEqSpecImpl for Stream {
    open spec fn obeys_eq_spec() -> bool {
        true
    }

    open spec fn eq_spec(&self, other: &Stream) -> bool {
        self.stream_id == other.stream_id
    }
}

impl PartialOrd for Stream {
    fn partial_cmp(&self, other: &Self) -> (r: Option<Ordering>) {
        if self.stream_id < other.stream_id {
            Some(Ordering::Less)
        } else if self.stream_id == other.stream_id {
            Some(Ordering::Equal)
        } else {
            Some(Ordering::Greater)
        }
    }
}

impl PartialOrdSpecImpl for Stream {
    open spec fn obeys_partial_cmp_spec() -> bool {
        true
    }

    open spec fn partial_cmp_spec(&self, other: &Stream) -> Option<Ordering> {
        Some(number_order(self.stream_id, other.stream_id))
    }
}

} // verus!
