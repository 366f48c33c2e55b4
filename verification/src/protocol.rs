//! The protocol: one operation that lists the representative values of a type.

use vstd::prelude::*;

verus! {

/// A type that can list its representative values.
///
/// The list is a sample, not an enumeration: for a sum it holds every
/// constructor, for a number the boundaries of its range, for a sequence an
/// empty, a short and a long one.
///
/// A product or a sum of types that have the protocol gets it from the lists
/// of its fields: `derive::product_choices` and `derive::sum_choices` say which
/// value of which field goes into which item, and the implementation builds
/// each item from clones of those values.
pub trait EveryVariant: Sized {
    /// Lists the representative values of the type, in a fixed order. The list
    /// is never empty.
    fn every_variant() -> (vec: Vec<Self>)
        ensures
            vec@.len() >= 1,
    ;
}

/// `list` is a list that `T::every_variant()` can return.
///
/// The contracts of the containers speak of the lists of their item types
/// through this predicate; for a type whose own contract fixes the list, it
/// fixes the list here too.
pub open spec fn lists_every_variant<T: EveryVariant>(list: Vec<T>) -> bool {
    call_ensures(T::every_variant, (), list)
}

/// The protocol of `T` is deterministic up to `same`: any two lists that
/// `T::every_variant()` can return have the same length, and `same` holds of
/// their items position by position.
///
/// For a type without owned parts `same` is equality. For an owned text it is
/// equality of the characters: two strings built at different times are two
/// values.
pub open spec fn is_deterministic<T: EveryVariant>(same: spec_fn(T, T) -> bool) -> bool {
    forall|first: Vec<T>, second: Vec<T>|
        #![trigger lists_every_variant(first), lists_every_variant(second)]
        lists_every_variant(first) && lists_every_variant(second) ==> {
            &&& first@.len() == second@.len()
            &&& forall|i: int| 0 <= i < first@.len() ==> same(#[trigger] first@[i], second@[i])
        }
}

} // verus!
