//! The protocol for the bounded vector and the bounded string of `heapless`.
//!
//! Both types are opaque to the verifier: it sees a value of them and nothing
//! inside it. What a bounded value is filled with is therefore worked out on
//! plain values, by [`fitting_variants`] and [`fitting_text`], whose contracts
//! are exact; the implementations of the protocol hand that to `heapless` and
//! state no more than how many values they list.

use vstd::prelude::*;
use vstd::string::StrSliceExecFns;
use heapless::{String as HString, Vec as HVec};
use crate::protocol::{is_deterministic, lists_every_variant, EveryVariant};

verus! {

/// `heapless::Vec`, a vector of at most `N` items that lives without a heap.
/// Declared as a type whose inside the verifier does not read.
#[verifier::external_type_specification]
#[verifier::external_body]
#[verifier::reject_recursive_types(T)]
pub struct ExBoundedVec<T, const N: usize>(HVec<T, N>);

/// `heapless::String`, a text of at most `N` bytes that lives without a heap.
/// Declared as a type whose inside the verifier does not read.
#[verifier::external_type_specification]
#[verifier::external_body]
pub struct ExBoundedString<const N: usize>(HString<N>);

/// `heapless::Vec::new` makes an empty vector that can hold `N` items. Nothing
/// is claimed of the result.
pub assume_specification<T, const N: usize>[ HVec::<T, N>::new ]() -> HVec<T, N>;

/// `heapless::Vec::push` appends `item` while fewer than `N` items are held,
/// and otherwise leaves the vector as it is and hands `item` back. Claimed
/// here: what comes back in `Err` is the item that was given.
pub assume_specification<T, const N: usize>[ HVec::<T, N>::push ](
    vec: &mut HVec<T, N>,
    item: T,
) -> (pushed: Result<(), T>)
    ensures
        pushed matches Err(back) ==> back == item,
;

/// `heapless::String::new` makes an empty string that can hold `N` bytes.
/// Nothing is claimed of the result.
pub assume_specification<const N: usize>[ HString::<N>::new ]() -> HString<N>;

/// `heapless::String::push_str` appends `string` if all of it fits into what
/// is left of the `N` bytes, and otherwise leaves the string as it is. Nothing
/// is claimed of the result.
pub assume_specification<const N: usize>[ HString::<N>::push_str ](
    text: &mut HString<N>,
    string: &str,
) -> Result<(), ()>;

/// What a collection bounded by `capacity` keeps of `items` pushed in order:
/// the first `capacity` of them, or all where there are fewer.
pub open spec fn fitting<T>(items: Seq<T>, capacity: usize) -> Seq<T> {
    if items.len() <= capacity {
        items
    } else {
        items.take(capacity as int)
    }
}

/// The representative values of `T` that a vector bounded by `capacity` holds:
/// the list of `T`, cut off behind `capacity` items.
pub fn fitting_variants<T: EveryVariant + Clone + Sized>(capacity: usize) -> (items: Vec<T>)
    ensures
        exists|inner: Vec<T>| #[trigger] lists_every_variant(inner) && items@ == fitting(inner@, capacity),
        items@.len() <= capacity,
{
    let mut items = T::every_variant();
    let ghost inner = items;
    items.truncate(capacity);
    assert(lists_every_variant(inner));
    items
}

/// The text that a string bounded by `capacity` bytes holds: `hello`, cut off
/// behind `capacity` characters.
pub fn fitting_text(capacity: usize) -> (text: &'static str)
    ensures
        text@ == fitting("hello"@, capacity),
        text.is_ascii(),
        text@.len() <= capacity,
{
    let hello = "hello";
    proof {
        reveal_strlit("hello");
    }
    if capacity < 5 {
        hello.substring_ascii(0, capacity)
    } else {
        hello
    }
}

impl<T, const N: usize> EveryVariant for HVec<T, N> where
    T: EveryVariant + Clone + Sized,
 {
    /// One vector: the representative values of `T` that fit into it, pushed
    /// in order.
    fn every_variant() -> (vec: Vec<Self>)
        ensures
            vec@.len() == 1,
    {
        let mut bounded = HVec::new();

        let items = fitting_variants::<T>(N);
        for v in iter: items.into_iter() {
            let _ = bounded.push(v);
        }

        let mut vec = Vec::new();
        vec.push(bounded);
        vec
    }
}

impl<const N: usize> EveryVariant for HString<N> {
    /// One string: as much of `hello` as fits into it.
    fn every_variant() -> (vec: Vec<Self>)
        ensures
            vec@.len() == 1,
    {
        let mut s = HString::new();
        let _ = s.push_str(fitting_text(N));

        let mut vec = Vec::new();
        vec.push(s);
        vec
    }
}

/// Every call of `every_variant` on a bounded vector or a bounded string
/// returns a list of the same length. Of the items nothing is stated: they are
/// opaque.
pub proof fn lemma_bounded_lists_have_one_length<T: EveryVariant + Clone, const N: usize>()
    ensures
        is_deterministic::<HVec<T, N>>(|a: HVec<T, N>, b: HVec<T, N>| true),
        is_deterministic::<HString<N>>(|a: HString<N>, b: HString<N>| true),
{
}

} // verus!
