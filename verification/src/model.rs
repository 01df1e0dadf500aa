//! How collections of values are spoken of in contracts.

use vstd::prelude::*;

verus! {

/// The views of a sequence of values, one by one.
pub open spec fn views<T: View>(items: Seq<T>) -> Seq<T::V> {
    Seq::new(items.len(), |i: int| items[i]@)
}

} // verus!
