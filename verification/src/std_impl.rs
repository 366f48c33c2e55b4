//! The protocol for the primitive types and the containers of the standard
//! library.

use vstd::prelude::*;
use vstd::string::StringExecFns;
use crate::protocol::{is_deterministic, lists_every_variant, EveryVariant};

verus! {

impl EveryVariant for String {
    /// An ordinary text, the empty text, a text of punctuation and letters
    /// outside ASCII, and the word `null`.
    fn every_variant() -> (vec: Vec<Self>)
        ensures
            vec@.len() == 4,
            vec@[0]@ == "example String"@,
            vec@[1]@ == Seq::<char>::empty(),
            vec@[2]@ == "!\"¤%!#/&/(^^ÄÖ"@,
            vec@[3]@ == "null"@,
    {
        let mut vec = vec![String::from_str("example String")];

        // add an empty string
        vec.push(String::new());

        // add a string with special chars
        vec.push(String::from_str("!\"¤%!#/&/(^^ÄÖ"));

        // null
        vec.push(String::from_str("null"));

        vec
    }
}

impl EveryVariant for &'static str {
    /// One text only: a borrowed text cannot be made up at run time.
    fn every_variant() -> (vec: Vec<Self>)
        ensures
            vec@ == seq!["&static str!"],
    {
        let vec = vec!["&static str!"];
        vec
    }
}

impl EveryVariant for u32 {
    /// Zero, one, a value in between, and the largest value.
    fn every_variant() -> (vec: Vec<Self>)
        ensures
            vec@ == seq![0u32, 1u32, 43u32, u32::MAX],
    {
        let vec = vec![0, 1, 43, u32::MAX];
        vec
    }
}

impl EveryVariant for u64 {
    /// Zero, one, a value in between, and the largest value.
    fn every_variant() -> (vec: Vec<Self>)
        ensures
            vec@ == seq![0u64, 1u64, 43u64, u64::MAX],
    {
        let vec = vec![0, 1, 43, u64::MAX];
        vec
    }
}

impl EveryVariant for u16 {
    /// Zero, one, a value in between, and the largest value.
    fn every_variant() -> (vec: Vec<Self>)
        ensures
            vec@ == seq![0u16, 1u16, 43u16, u16::MAX],
    {
        let vec = vec![0, 1, 43, u16::MAX];
        vec
    }
}

impl EveryVariant for u8 {
    /// Zero, one, a value in between, and the largest value.
    fn every_variant() -> (vec: Vec<Self>)
        ensures
            vec@ == seq![0u8, 1u8, 43u8, u8::MAX],
    {
        let vec = vec![0, 1, 43, u8::MAX];
        vec
    }
}

impl EveryVariant for i32 {
    /// The smallest value, minus one, zero, one, and the largest value.
    fn every_variant() -> (vec: Vec<Self>)
        ensures
            vec@ == seq![i32::MIN, -1i32, 0i32, 1i32, i32::MAX],
    {
        let vec = vec![i32::MIN, -1, 0, 1, i32::MAX];
        vec
    }
}

impl EveryVariant for i64 {
    /// The smallest value, minus one, zero, one, and the largest value.
    fn every_variant() -> (vec: Vec<Self>)
        ensures
            vec@ == seq![i64::MIN, -1i64, 0i64, 1i64, i64::MAX],
    {
        let vec = vec![i64::MIN, -1, 0, 1, i64::MAX];
        vec
    }
}

impl EveryVariant for i16 {
    /// The smallest value, minus one, zero, one, and the largest value.
    fn every_variant() -> (vec: Vec<Self>)
        ensures
            vec@ == seq![i16::MIN, -1i16, 0i16, 1i16, i16::MAX],
    {
        let vec = vec![i16::MIN, -1, 0, 1, i16::MAX];
        vec
    }
}

impl EveryVariant for i8 {
    /// The smallest value, minus one, zero, one, and the largest value.
    fn every_variant() -> (vec: Vec<Self>)
        ensures
            vec@ == seq![i8::MIN, -1i8, 0i8, 1i8, i8::MAX],
    {
        let vec = vec![i8::MIN, -1, 0, 1, i8::MAX];
        vec
    }
}

impl EveryVariant for bool {
    /// `true`, then `false`.
    fn every_variant() -> (vec: Vec<Self>)
        ensures
            vec@ == seq![true, false],
    {
        let vec = vec![true, false];
        vec
    }
}

impl EveryVariant for usize {
    /// Zero, one, and the largest value.
    fn every_variant() -> (vec: Vec<Self>)
        ensures
            vec@ == seq![0usize, 1usize, usize::MAX],
    {
        let vec = vec![0, 1, usize::MAX];
        vec
    }
}

/// The list of `Option<T>` over the list `inner` of `T`: `None`, then each
/// item of `inner` inside `Some`, in order.
pub open spec fn option_variants<T>(inner: Seq<T>) -> Seq<Option<T>> {
    seq![None::<T>] + inner.map_values(|item: T| Some(item))
}

impl<T: EveryVariant + Clone + Sized> EveryVariant for Option<T> {
    /// `None`, then `Some` of every representative value of `T`: one more item
    /// than `T` has.
    fn every_variant() -> (vec: Vec<Self>)
        ensures
            exists|inner: Vec<T>|
                {
                    &&& #[trigger] lists_every_variant(inner)
                    &&& vec@ == option_variants(inner@)
                    &&& vec@.len() == 1 + inner@.len()
                },
            vec@.first() is None,
            vec@.last() is Some,
    {
        let mut vec: Vec<Option<T>> = Vec::new();
        vec.push(None);

        let tvec = T::every_variant();
        let ghost inner = tvec;
        for item in iter: tvec.into_iter()
            invariant
                iter.seq() == inner@,
                vec@ == option_variants(inner@.take(iter.index())),
        {
            vec.push(Some(item));
            assert(inner@.take(iter.index() + 1) == inner@.take(iter.index()).push(item));
        }
        assert(inner@.take(inner@.len() as int) == inner@);
        assert(lists_every_variant(inner));

        vec
    }
}

impl EveryVariant for () {
    /// The one value of the empty product.
    fn every_variant() -> (vec: Vec<Self>)
        ensures
            vec@ == seq![()],
    {
        let mut vec = Vec::new();
        vec.push(());
        vec
    }
}

/// The list of `Result<T, E>` over the lists `oks` of `T` and `errs` of `E`:
/// each item of `oks` inside `Ok`, then each item of `errs` inside `Err`.
pub open spec fn result_variants<T, E>(oks: Seq<T>, errs: Seq<E>) -> Seq<Result<T, E>> {
    oks.map_values(|item: T| Ok::<T, E>(item)) + errs.map_values(|item: E| Err::<T, E>(item))
}

impl<T: EveryVariant + Clone + Sized, E: EveryVariant + Clone + Sized> EveryVariant
    for Result<T, E>
{
    /// `Ok` of every representative value of `T`, then `Err` of every
    /// representative value of `E`: as many items as `T` and `E` have together.
    fn every_variant() -> (vec: Vec<Self>)
        ensures
            exists|oks: Vec<T>, errs: Vec<E>|
                {
                    &&& #[trigger] lists_every_variant(oks)
                    &&& #[trigger] lists_every_variant(errs)
                    &&& vec@ == result_variants(oks@, errs@)
                    &&& vec@.len() == oks@.len() + errs@.len()
                },
            vec@.first() is Ok,
            vec@.last() is Err,
    {
        let mut vec: Vec<Result<T, E>> = Vec::new();

        let tvec = T::every_variant();
        let ghost oks = tvec;
        for item in iter: tvec.into_iter()
            invariant
                iter.seq() == oks@,
                vec@ == oks@.take(iter.index()).map_values(|item: T| Ok::<T, E>(item)),
        {
            vec.push(Ok(item));
            assert(oks@.take(iter.index() + 1) == oks@.take(iter.index()).push(item));
        }
        assert(oks@.take(oks@.len() as int) == oks@);

        let evec = E::every_variant();
        let ghost errs = evec;
        for item in iter: evec.into_iter()
            invariant
                iter.seq() == errs@,
                vec@ == result_variants(oks@, errs@.take(iter.index())),
        {
            vec.push(Err(item));
            assert(errs@.take(iter.index() + 1) == errs@.take(iter.index()).push(item));
        }
        assert(errs@.take(errs@.len() as int) == errs@);
        assert(lists_every_variant(oks) && lists_every_variant(errs));

        vec
    }
}

/// The length of the long sequence in the list of `Vec<T>`.
pub const LARGE_LEN: usize = 1000000;

/// `vec` is the list of `Vec<T>` over the list `inner` of `T`: all of `inner`,
/// the empty sequence, one copy of the first item of `inner`, and
/// `LARGE_LEN` copies of it.
pub open spec fn is_vec_variants<T: Clone>(inner: Seq<T>, vec: Seq<Vec<T>>) -> bool {
    &&& vec.len() == 4
    &&& vec[0]@ == inner
    &&& vec[1]@ == Seq::<T>::empty()
    &&& vec[2]@.len() == 1
    &&& cloned(inner[0], vec[2]@[0])
    &&& vec[3]@.len() == LARGE_LEN
    &&& forall|i: int| 0 <= i < LARGE_LEN ==> cloned(inner[0], #[trigger] vec[3]@[i])
}

impl<T: EveryVariant + Clone + Sized> EveryVariant for Vec<T> {
    /// Four sequences: every representative value of `T`, none, the first
    /// one alone, and the first one a million times.
    fn every_variant() -> (vec: Vec<Self>)
        ensures
            exists|inner: Vec<T>| #[trigger] lists_every_variant(inner) && is_vec_variants(inner@, vec@),
    {
        // vector that contains one of every variant of the subsequent types
        let all = T::every_variant();
        let ghost inner = all;

        // a single element vector
        let mut singlevec: Vec<T> = Vec::new();
        singlevec.push(all[0].clone());

        // a large vector
        let mut largevec: Vec<T> = Vec::new();
        while largevec.len() < LARGE_LEN
            invariant
                all == inner,
                inner@.len() >= 1,
                largevec@.len() <= LARGE_LEN,
                forall|i: int| 0 <= i < largevec@.len() ==> cloned(inner@[0], #[trigger] largevec@[i]),
            decreases LARGE_LEN - largevec@.len(),
        {
            largevec.push(all[0].clone());
        }

        let mut retvec: Vec<Vec<T>> = Vec::new();
        retvec.push(all);
        retvec.push(Vec::new());
        retvec.push(singlevec);
        retvec.push(largevec);
        assert(lists_every_variant(inner));

        retvec
    }
}

/// Two texts are the same if they have the same characters.
pub open spec fn same_text(a: String, b: String) -> bool {
    a@ == b@
}

/// Two optional values are the same if both are `None`, or both are `Some` of
/// items that are the same.
pub open spec fn same_option<T>(same: spec_fn(T, T) -> bool, a: Option<T>, b: Option<T>) -> bool {
    match (a, b) {
        (None, None) => true,
        (Some(x), Some(y)) => same(x, y),
        _ => false,
    }
}

/// Two results are the same if both are `Ok`, or both are `Err`, of items that
/// are the same.
pub open spec fn same_result<T, E>(
    same_ok: spec_fn(T, T) -> bool,
    same_err: spec_fn(E, E) -> bool,
    a: Result<T, E>,
    b: Result<T, E>,
) -> bool {
    match (a, b) {
        (Ok(x), Ok(y)) => same_ok(x, y),
        (Err(x), Err(y)) => same_err(x, y),
        _ => false,
    }
}

/// Two sequences are the same if they are equally long and hold, position by
/// position, items that are the same.
pub open spec fn same_vec<T>(same: spec_fn(T, T) -> bool, a: Vec<T>, b: Vec<T>) -> bool {
    &&& a@.len() == b@.len()
    &&& forall|i: int| 0 <= i < a@.len() ==> same(#[trigger] a@[i], b@[i])
}

/// `same` is an equivalence that every clone respects: a clone is the same as
/// what it was made from.
pub open spec fn is_kept_by_clone<T: Clone>(same: spec_fn(T, T) -> bool) -> bool {
    &&& forall|a: T, b: T| #[trigger] cloned(a, b) ==> same(a, b)
    &&& forall|a: T, b: T| #[trigger] same(a, b) ==> same(b, a)
    &&& forall|a: T, b: T, c: T| #[trigger] same(a, b) && #[trigger] same(b, c) ==> same(a, c)
}

/// Every call of `every_variant` on a primitive type returns the same list:
/// equal values for the numbers, truth values, the unit and the borrowed text,
/// equal characters for the owned text.
pub proof fn lemma_primitive_lists_are_deterministic()
    ensures
        is_deterministic::<u8>(|a: u8, b: u8| a == b),
        is_deterministic::<u16>(|a: u16, b: u16| a == b),
        is_deterministic::<u32>(|a: u32, b: u32| a == b),
        is_deterministic::<u64>(|a: u64, b: u64| a == b),
        is_deterministic::<usize>(|a: usize, b: usize| a == b),
        is_deterministic::<i8>(|a: i8, b: i8| a == b),
        is_deterministic::<i16>(|a: i16, b: i16| a == b),
        is_deterministic::<i32>(|a: i32, b: i32| a == b),
        is_deterministic::<i64>(|a: i64, b: i64| a == b),
        is_deterministic::<bool>(|a: bool, b: bool| a == b),
        is_deterministic::<()>(|a: (), b: ()| a == b),
        is_deterministic::<&'static str>(|a: &'static str, b: &'static str| a == b),
        is_deterministic::<String>(|a: String, b: String| same_text(a, b)),
{
}

/// If every call of `every_variant` on `T` returns the same list, so does
/// every call on `Option<T>`.
pub proof fn lemma_option_list_is_deterministic<T: EveryVariant + Clone>(
    same: spec_fn(T, T) -> bool,
)
    requires
        is_deterministic::<T>(same),
    ensures
        is_deterministic::<Option<T>>(|a: Option<T>, b: Option<T>| same_option(same, a, b)),
{
    let same_here = |a: Option<T>, b: Option<T>| same_option(same, a, b);
    assert forall|first: Vec<Option<T>>, second: Vec<Option<T>>|
        #![trigger lists_every_variant(first), lists_every_variant(second)]
        lists_every_variant(first) && lists_every_variant(second) implies {
        &&& first@.len() == second@.len()
        &&& forall|i: int| 0 <= i < first@.len() ==> same_here(#[trigger] first@[i], second@[i])
    } by {
        let inner_first = choose|inner: Vec<T>| #[trigger]
            lists_every_variant(inner) && first@ == option_variants(inner@);
        let inner_second = choose|inner: Vec<T>| #[trigger]
            lists_every_variant(inner) && second@ == option_variants(inner@);
        assert(lists_every_variant(inner_first) && lists_every_variant(inner_second));
        assert forall|i: int| 0 <= i < first@.len() implies same_here(
            #[trigger] first@[i],
            second@[i],
        ) by {
            if i > 0 {
                assert(same(inner_first@[i - 1], inner_second@[i - 1]));
            }
        }
    }
}

/// If every call of `every_variant` on `T` and on `E` returns the same list,
/// so does every call on `Result<T, E>`.
pub proof fn lemma_result_list_is_deterministic<T: EveryVariant + Clone, E: EveryVariant + Clone>(
    same_ok: spec_fn(T, T) -> bool,
    same_err: spec_fn(E, E) -> bool,
)
    requires
        is_deterministic::<T>(same_ok),
        is_deterministic::<E>(same_err),
    ensures
        is_deterministic::<Result<T, E>>(
            |a: Result<T, E>, b: Result<T, E>| same_result(same_ok, same_err, a, b),
        ),
{
    let same_here = |a: Result<T, E>, b: Result<T, E>| same_result(same_ok, same_err, a, b);
    assert forall|first: Vec<Result<T, E>>, second: Vec<Result<T, E>>|
        #![trigger lists_every_variant(first), lists_every_variant(second)]
        lists_every_variant(first) && lists_every_variant(second) implies {
        &&& first@.len() == second@.len()
        &&& forall|i: int| 0 <= i < first@.len() ==> same_here(#[trigger] first@[i], second@[i])
    } by {
        let (oks_first, errs_first) = choose|oks: Vec<T>, errs: Vec<E>|
            {
                &&& #[trigger] lists_every_variant(oks)
                &&& #[trigger] lists_every_variant(errs)
                &&& first@ == result_variants(oks@, errs@)
            };
        let (oks_second, errs_second) = choose|oks: Vec<T>, errs: Vec<E>|
            {
                &&& #[trigger] lists_every_variant(oks)
                &&& #[trigger] lists_every_variant(errs)
                &&& second@ == result_variants(oks@, errs@)
            };
        assert(lists_every_variant(oks_first) && lists_every_variant(oks_second));
        assert(lists_every_variant(errs_first) && lists_every_variant(errs_second));
        assert forall|i: int| 0 <= i < first@.len() implies same_here(
            #[trigger] first@[i],
            second@[i],
        ) by {
            if i < oks_first@.len() {
                assert(same_ok(oks_first@[i], oks_second@[i]));
            } else {
                let at = i - oks_first@.len();
                assert(same_err(errs_first@[at], errs_second@[at]));
            }
        }
    }
}

/// If every call of `every_variant` on `T` returns the same list, and a clone
/// of a `T` is the same as the value it was made from, then every call on `Vec<T>` returns
/// the same list.
pub proof fn lemma_vec_list_is_deterministic<T: EveryVariant + Clone>(same: spec_fn(T, T) -> bool)
    requires
        is_deterministic::<T>(same),
        is_kept_by_clone::<T>(same),
    ensures
        is_deterministic::<Vec<T>>(|a: Vec<T>, b: Vec<T>| same_vec(same, a, b)),
{
    let same_here = |a: Vec<T>, b: Vec<T>| same_vec(same, a, b);
    assert forall|first: Vec<Vec<T>>, second: Vec<Vec<T>>|
        #![trigger lists_every_variant(first), lists_every_variant(second)]
        lists_every_variant(first) && lists_every_variant(second) implies {
        &&& first@.len() == second@.len()
        &&& forall|i: int| 0 <= i < first@.len() ==> same_here(#[trigger] first@[i], second@[i])
    } by {
        let inner_first = choose|inner: Vec<T>| #[trigger]
            lists_every_variant(inner) && is_vec_variants(inner@, first@);
        let inner_second = choose|inner: Vec<T>| #[trigger]
            lists_every_variant(inner) && is_vec_variants(inner@, second@);
        assert(lists_every_variant(inner_first) && lists_every_variant(inner_second));
        let a = inner_first@[0];
        let b = inner_second@[0];
        assert(same(a, b));
        assert forall|i: int| 0 <= i < first@.len() implies same_here(
            #[trigger] first@[i],
            second@[i],
        ) by {
            if i == 0 {
                assert forall|j: int| 0 <= j < first@[0]@.len() implies same(
                    #[trigger] first@[0]@[j],
                    second@[0]@[j],
                ) by {
                    assert(same(inner_first@[j], inner_second@[j]));
                }
            } else if i >= 2 {
                assert forall|j: int| 0 <= j < first@[i]@.len() implies same(
                    #[trigger] first@[i]@[j],
                    second@[i]@[j],
                ) by {
                    let x = first@[i]@[j];
                    let y = second@[i]@[j];
                    assert(cloned(a, x) && cloned(b, y));
                    assert(same(a, x) && same(b, y));
                    assert(same(x, a));
                    assert(same(x, b));
                }
            }
        }
    }
}

} // verus!
