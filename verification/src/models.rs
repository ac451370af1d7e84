//! From the values of the program to the values that contracts speak of: the
//! views of optional values and of the items of vectors.

use vstd::prelude::*;

verus! {

/// The view of a value that may be absent.
pub open spec fn opt_view<T: View>(v: Option<T>) -> Option<T::V> {
    match v {
        Some(x) => Some(x@),
        None => None,
    }
}

/// The views of the items of a sequence, in order.
pub open spec fn views<T: View>(items: Seq<T>) -> Seq<T::V> {
    items.map_values(|x: T| x@)
}

} // verus!
