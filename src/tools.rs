//! Small helpers over attribute lists and scalars.

use vstd::prelude::*;
use crate::policy::{has_attribute, names};
use crate::scalar::Scalar;

verus! {

/// The scalar of a machine integer.
pub fn usize_to_fr(i: usize) -> (r: Scalar)
    ensures
        r.value() == i as int,
{
    Scalar::from_u64(i as u64)
}

/// Whether the value is among the data.
pub fn contains(data: &Vec<String>, value: &String) -> (r: bool)
    ensures
        r == names(data@).contains(value@),
{
    has_attribute(data, value)
}

/// Whether every attribute of the first list is among the second.
pub fn is_subset(subset: &Vec<String>, attr: &Vec<String>) -> (r: bool)
    ensures
        r == (forall|i: int| 0 <= i < subset@.len() ==> names(attr@).contains(#[trigger] subset@[i]@)),
{
    let mut i: usize = 0;
    while i < subset.len()
        invariant
            i <= subset@.len(),
            forall|j: int| 0 <= j < i ==> names(attr@).contains(#[trigger] subset@[j]@),
        decreases subset@.len() - i,
    {
        if !has_attribute(attr, &subset[i]) {
            return false;
        }
        i += 1;
    }
    true
}

} // verus!
