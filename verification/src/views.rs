//! Views of optional values and of sequences of values that have a view.
use vstd::prelude::*;

verus! {

/// The view of an optional value.
pub open spec fn option_view<T: View>(value: Option<T>) -> Option<T::V> {
    match value {
        Some(inner) => Some(inner@),
        None => None,
    }
}

/// The views of the elements of a sequence, in order.
pub open spec fn seq_view<T: View>(values: Seq<T>) -> Seq<T::V> {
    values.map_values(|value: T| value@)
}

} // verus!
