//! The fixed-capacity list of dynamic segments of a compiled pattern, kept in an `ArrayVec`.
use crate::pattern::DynamicRenameContent;
use arrayvec::ArrayVec;
use vstd::prelude::*;

verus! {

#[verifier::external_type_specification]
#[verifier::external_body]
#[verifier::reject_recursive_types(T)]
pub struct ExArrayVec<T, const CAP: usize>(ArrayVec<T, CAP>);

/// The segments that a segment list holds, in order: each a literal prefix and a field.
pub uninterp spec fn segments_of(
    v: ArrayVec<(String, DynamicRenameContent), 1>,
) -> Seq<(Seq<char>, DynamicRenameContent)>;

/// Relies on `ArrayVec::new`: the new vector is empty.
#[verifier::external_body]
pub(crate) fn segments_new() -> (r: ArrayVec<(String, DynamicRenameContent), 1>)
    ensures
        segments_of(r) == Seq::<(Seq<char>, DynamicRenameContent)>::empty(),
{
    ArrayVec::new()
}

/// Relies on `ArrayVec::push`: the element is added at the end; it panics when the vector
/// is full, which the capacity of one rules out here.
#[verifier::external_body]
pub(crate) fn segments_push(
    v: &mut ArrayVec<(String, DynamicRenameContent), 1>,
    item: (String, DynamicRenameContent),
)
    requires
        segments_of(*old(v)).len() < 1,
    ensures
        segments_of(*final(v)) == segments_of(*old(v)).push((item.0@, item.1)),
{
    v.push(item)
}

/// Relies on `ArrayVec::is_empty`: whether the vector holds no element.
#[verifier::external_body]
pub(crate) fn segments_is_empty(v: &ArrayVec<(String, DynamicRenameContent), 1>) -> (r: bool)
    ensures
        r == (segments_of(*v).len() == 0),
{
    v.is_empty()
}

/// Relies on `ArrayVec::as_slice`: the elements, in order.
#[verifier::external_body]
pub(crate) fn segments_slice(v: &ArrayVec<(String, DynamicRenameContent), 1>) -> (r: &[(
    String,
    DynamicRenameContent,
)])
    ensures
        r@.len() == segments_of(*v).len(),
        forall|i: int|
            0 <= i < r@.len() ==> r@[i].0@ == segments_of(*v)[i].0 && r@[i].1 == segments_of(
                *v,
            )[i].1,
{
    v.as_slice()
}

} // verus!
