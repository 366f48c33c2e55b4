//! The structure of the lists of user-defined types.
//!
//! The list of a product is the Cartesian product of the lists of its fields;
//! the list of a sum is the lists of its constructors one after the other. The
//! functions here work that out for a type of any shape, on positions: a shape
//! gives, for each field, how many representative values the field's type has,
//! and a choice gives, for each field, the position of one of them. The
//! implementation of the protocol for a user-defined type asks for the choices
//! of its shape and builds one value from each.

use vstd::prelude::*;
use vstd::arithmetic::div_mod::{
    lemma_div_is_ordered,
    lemma_div_pos_is_pos,
    lemma_fundamental_div_mod,
    lemma_fundamental_div_mod_converse,
    lemma_mod_pos_bound,
};

verus! {

/// The number of values in the list of a product: the product of the numbers
/// `sizes` of its fields. A product without fields has one value.
pub open spec fn product_len(sizes: Seq<usize>) -> nat
    decreases sizes.len(),
{
    if sizes.len() == 0 {
        1
    } else {
        product_len(sizes.drop_last()) * (sizes.last() as nat)
    }
}

/// The choice at position `k` of the list of a product: the digits of `k` in
/// the mixed radix `sizes`, so that the last field varies fastest and the
/// first field slowest.
pub open spec fn product_choice(sizes: Seq<usize>, k: int) -> Seq<usize>
    decreases sizes.len(),
{
    if sizes.len() == 0 {
        Seq::empty()
    } else {
        product_choice(sizes.drop_last(), k / (sizes.last() as int)).push(
            (k % (sizes.last() as int)) as usize,
        )
    }
}

/// `choice` picks one value of every field of a product of shape `sizes`.
pub open spec fn is_choice(sizes: Seq<usize>, choice: Seq<usize>) -> bool {
    &&& choice.len() == sizes.len()
    &&& forall|field: int| 0 <= field < sizes.len() ==> choice[field] < sizes[field]
}

/// `a` comes before `b` in lexicographic order: at the first field in which
/// they differ, `a` has the smaller position.
pub open spec fn comes_before(a: Seq<usize>, b: Seq<usize>) -> bool {
    exists|field: int|
        0 <= field < a.len() && field < b.len() && a.take(field) == b.take(field) && a[field]
            < b[field]
}

/// The list of a product is empty exactly if the list of one of its fields is.
pub proof fn lemma_product_len_positive(sizes: Seq<usize>)
    ensures
        product_len(sizes) > 0 <==> forall|field: int| 0 <= field < sizes.len() ==> sizes[field] > 0,
    decreases sizes.len(),
{
    if sizes.len() > 0 {
        let front = sizes.drop_last();
        lemma_product_len_positive(front);
        let a = product_len(front) as int;
        let b = sizes.last() as int;
        assert(a * b > 0 <==> a > 0 && b > 0) by (nonlinear_arith)
            requires
                a >= 0,
                b >= 0,
        ;
        if product_len(sizes) > 0 {
            assert forall|field: int| 0 <= field < sizes.len() implies sizes[field] > 0 by {
                if field < front.len() {
                    assert(front[field] == sizes[field]);
                }
            }
        } else if a > 0 {
            assert(sizes[sizes.len() - 1] == 0);
        } else {
            let field = choose|field: int| 0 <= field < front.len() && !(front[field] > 0);
            assert(front[field] == sizes[field]);
        }
    }
}

/// Every position of the list of a product holds a choice of that product: one
/// position per field, each within the list of its field.
pub proof fn lemma_product_choice_in_range(sizes: Seq<usize>, k: int)
    requires
        0 <= k < product_len(sizes),
    ensures
        is_choice(sizes, product_choice(sizes, k)),
    decreases sizes.len(),
{
    if sizes.len() > 0 {
        let front = sizes.drop_last();
        let size = sizes.last() as int;
        let len = product_len(front) as int;
        assert(size > 0) by (nonlinear_arith)
            requires
                0 <= k < len * size,
                len >= 0,
                size >= 0,
        ;
        lemma_fundamental_div_mod(k, size);
        lemma_mod_pos_bound(k, size);
        lemma_div_pos_is_pos(k, size);
        assert(k / size < len) by (nonlinear_arith)
            requires
                k == size * (k / size) + (k % size),
                0 <= k % size < size,
                k < len * size,
        ;
        lemma_product_choice_in_range(front, k / size);
        let choice = product_choice(sizes, k);
        assert forall|field: int| 0 <= field < sizes.len() implies choice[field]
            < sizes[field] by {
            if field < front.len() {
                assert(choice[field] == product_choice(front, k / size)[field]);
                assert(front[field] == sizes[field]);
            }
        }
    }
}

/// The position in the list of a product at which `choice` stands: the number
/// that `choice` writes in the mixed radix `sizes`.
pub open spec fn product_position(sizes: Seq<usize>, choice: Seq<usize>) -> int
    decreases sizes.len(),
{
    if sizes.len() == 0 {
        0
    } else {
        product_position(sizes.drop_last(), choice.drop_last()) * (sizes.last() as int) + (
        choice.last() as int)
    }
}

/// The list of a product holds every choice of the product, at its position:
/// nothing of the Cartesian product is missing.
pub proof fn lemma_every_choice_is_listed(sizes: Seq<usize>, choice: Seq<usize>)
    requires
        is_choice(sizes, choice),
    ensures
        0 <= product_position(sizes, choice) < product_len(sizes),
        product_choice(sizes, product_position(sizes, choice)) == choice,
    decreases sizes.len(),
{
    if sizes.len() == 0 {
        assert(choice =~= Seq::<usize>::empty());
    } else {
        let front = sizes.drop_last();
        let size = sizes.last() as int;
        let digit = choice.last() as int;
        assert(is_choice(front, choice.drop_last())) by {
            assert forall|field: int| 0 <= field < front.len() implies choice.drop_last()[field]
                < front[field] by {
                assert(choice[field] < sizes[field]);
            }
        }
        lemma_every_choice_is_listed(front, choice.drop_last());
        let before = product_position(front, choice.drop_last());
        let len = product_len(front) as int;
        assert(digit < size) by {
            assert(choice[sizes.len() - 1] < sizes[sizes.len() - 1]);
        }
        assert(0 <= before * size + digit < len * size) by (nonlinear_arith)
            requires
                0 <= before < len,
                0 <= digit < size,
        ;
        lemma_fundamental_div_mod_converse(before * size + digit, size, before, digit);
        assert(product_choice(sizes, before * size + digit) =~= choice);
    }
}

/// No choice stands twice in the list of a product: a choice of the list
/// stands at the position at which it was found.
pub proof fn lemma_choice_is_listed_once(sizes: Seq<usize>, k: int)
    requires
        0 <= k < product_len(sizes),
    ensures
        product_position(sizes, product_choice(sizes, k)) == k,
    decreases sizes.len(),
{
    if sizes.len() > 0 {
        let front = sizes.drop_last();
        let size = sizes.last() as int;
        let len = product_len(front) as int;
        lemma_product_len_positive(sizes);
        assert(size > 0);
        lemma_fundamental_div_mod(k, size);
        lemma_mod_pos_bound(k, size);
        lemma_div_pos_is_pos(k, size);
        assert(k / size < len) by (nonlinear_arith)
            requires
                k == size * (k / size) + (k % size),
                0 <= k % size < size,
                k < len * size,
        ;
        lemma_choice_is_listed_once(front, k / size);
        let choice = product_choice(sizes, k);
        assert(choice.drop_last() == product_choice(front, k / size));
        assert(choice.last() == (k % size) as usize);
        assert((k / size) * size + k % size == k) by (nonlinear_arith)
            requires
                k == size * (k / size) + (k % size),
        ;
    }
}

/// A product without fields has one value: the choice without positions.
pub proof fn lemma_empty_product_has_one_choice()
    ensures
        product_len(Seq::<usize>::empty()) == 1,
        product_choice(Seq::<usize>::empty(), 0) == Seq::<usize>::empty(),
{
}

/// A product of one field has as many values as the field, in the order of the
/// field's list.
pub proof fn lemma_single_field_product_follows_its_field(size: usize, k: int)
    requires
        0 <= k < size,
    ensures
        product_len(seq![size]) == size,
        product_choice(seq![size], k) == seq![k as usize],
{
    let sizes = seq![size];
    assert(sizes.drop_last() == Seq::<usize>::empty());
    assert(sizes.last() == size);
    assert(product_len(sizes) == product_len(Seq::<usize>::empty()) * (size as nat));
    assert(1 * (size as nat) == size) by (nonlinear_arith);
    lemma_fundamental_div_mod_converse(k, size as int, 0, k);
    assert(product_choice(sizes.drop_last(), k / (size as int)) == Seq::<usize>::empty());
    assert(product_choice(sizes, k) == Seq::<usize>::empty().push((k % (size as int)) as usize));
    assert(product_choice(sizes, k) =~= seq![k as usize]);
}

/// The first value of the list of a product, where it has one, is built from
/// the first value of every field.
pub proof fn lemma_first_choice_is_all_first(sizes: Seq<usize>)
    requires
        product_len(sizes) > 0,
    ensures
        product_choice(sizes, 0) == Seq::new(sizes.len(), |field: int| 0usize),
    decreases sizes.len(),
{
    if sizes.len() > 0 {
        let size = sizes.last() as int;
        lemma_product_len_positive(sizes);
        lemma_product_len_positive(sizes.drop_last());
        assert forall|field: int| 0 <= field < sizes.drop_last().len() implies sizes.drop_last()[field]
            > 0 by {
            assert(sizes.drop_last()[field] == sizes[field]);
        }
        lemma_first_choice_is_all_first(sizes.drop_last());
        lemma_fundamental_div_mod_converse(0, size, 0, 0);
    }
    assert(product_choice(sizes, 0) =~= Seq::new(sizes.len(), |field: int| 0usize));
}

/// The list of a product is in lexicographic order, the first field varying
/// slowest: of two positions, the earlier holds the choice that comes first.
pub proof fn lemma_product_choices_are_ordered(sizes: Seq<usize>, earlier: int, later: int)
    requires
        0 <= earlier < later < product_len(sizes),
    ensures
        comes_before(product_choice(sizes, earlier), product_choice(sizes, later)),
    decreases sizes.len(),
{
    if sizes.len() > 0 {
        let front = sizes.drop_last();
        let size = sizes.last() as int;
        let a = product_choice(sizes, earlier);
        let b = product_choice(sizes, later);
        lemma_product_choice_in_range(sizes, earlier);
        lemma_product_choice_in_range(sizes, later);
        assert(size > 0) by {
            lemma_product_len_positive(sizes);
        }
        lemma_fundamental_div_mod(earlier, size);
        lemma_fundamental_div_mod(later, size);
        lemma_mod_pos_bound(earlier, size);
        lemma_mod_pos_bound(later, size);
        lemma_div_pos_is_pos(earlier, size);
        lemma_div_is_ordered(earlier, later, size);
        let front_a = product_choice(front, earlier / size);
        let front_b = product_choice(front, later / size);
        if earlier / size < later / size {
            let len = product_len(front) as int;
            assert(later / size < len) by (nonlinear_arith)
                requires
                    later == size * (later / size) + (later % size),
                    0 <= later % size < size,
                    later < len * size,
            ;
            lemma_product_choices_are_ordered(front, earlier / size, later / size);
            let field = choose|field: int|
                0 <= field < front_a.len() && field < front_b.len() && front_a.take(field)
                    == front_b.take(field) && front_a[field] < front_b[field];
            assert(a.take(field) == front_a.take(field));
            assert(b.take(field) == front_b.take(field));
            assert(a[field] == front_a[field] && b[field] == front_b[field]);
        } else {
            let field = sizes.len() - 1;
            assert(a.take(field) == front_a);
            assert(b.take(field) == front_b);
            assert(a[field] < b[field]);
        }
    }
}

/// Lists the choices of a product whose fields have `sizes` representative
/// values: every way to pick one position per field, in lexicographic order,
/// the first field varying slowest.
pub fn product_choices(sizes: &Vec<usize>) -> (choices: Vec<Vec<usize>>)
    ensures
        choices@.len() == product_len(sizes@),
        forall|k: int|
            0 <= k < choices@.len() ==> (#[trigger] choices@[k])@ == product_choice(sizes@, k),
        forall|k: int| 0 <= k < choices@.len() ==> is_choice(sizes@, (#[trigger] choices@[k])@),
{
    let mut choices: Vec<Vec<usize>> = Vec::new();
    choices.push(Vec::new());
    let mut field: usize = 0;
    assert(sizes@.take(0) == Seq::<usize>::empty());
    while field < sizes.len()
        invariant
            field <= sizes.len(),
            choices@.len() == product_len(sizes@.take(field as int)),
            forall|k: int|
                0 <= k < choices@.len() ==> (#[trigger] choices@[k])@ == product_choice(
                    sizes@.take(field as int),
                    k,
                ),
        decreases sizes.len() - field,
    {
        let size = sizes[field];
        let ghost front = sizes@.take(field as int);
        let ghost longer = sizes@.take(field + 1);
        assert(longer.drop_last() == front);
        assert(longer.last() == size);
        let mut extended: Vec<Vec<usize>> = Vec::new();
        let mut p: usize = 0;
        while p < choices.len()
            invariant
                p <= choices.len(),
                longer.len() > 0,
                longer.drop_last() == front,
                longer.last() == size,
                forall|k: int|
                    0 <= k < choices@.len() ==> (#[trigger] choices@[k])@ == product_choice(
                        front,
                        k,
                    ),
                extended@.len() == p * size,
                forall|k: int|
                    0 <= k < extended@.len() ==> (#[trigger] extended@[k])@ == product_choice(
                        longer,
                        k,
                    ),
            decreases choices.len() - p,
        {
            let mut i: usize = 0;
            while i < size
                invariant
                    i <= size,
                    p < choices.len(),
                    longer.len() > 0,
                    longer.drop_last() == front,
                    longer.last() == size,
                    choices@[p as int]@ == product_choice(front, p as int),
                    extended@.len() == p * size + i,
                    forall|k: int|
                        0 <= k < extended@.len() ==> (#[trigger] extended@[k])@ == product_choice(
                            longer,
                            k,
                        ),
                decreases size - i,
            {
                let mut choice = choices[p].clone();
                assert(choice@ =~= choices@[p as int]@);
                choice.push(i);
                proof {
                    lemma_fundamental_div_mod_converse(p * size + i, size as int, p as int, i as int);
                }
                extended.push(choice);
                i += 1;
            }
            assert((p + 1) * size == p * size + size) by (nonlinear_arith);
            p += 1;
        }
        choices = extended;
        field += 1;
    }
    assert(sizes@.take(sizes.len() as int) == sizes@);
    proof {
        assert forall|k: int| 0 <= k < choices@.len() implies is_choice(
            sizes@,
            (#[trigger] choices@[k])@,
        ) by {
            lemma_product_choice_in_range(sizes@, k);
        }
    }
    choices
}

/// The number of values in the list of a product whose fields have `sizes`
/// representative values, or `None` if that number does not fit in `usize`.
pub fn product_count(sizes: &Vec<usize>) -> (count: Option<usize>)
    ensures
        count matches Some(n) ==> n == product_len(sizes@),
        count is None <==> product_len(sizes@) > usize::MAX,
{
    let mut field: usize = 0;
    while field < sizes.len()
        invariant
            field <= sizes.len(),
            forall|earlier: int| 0 <= earlier < field ==> sizes@[earlier] > 0,
        decreases sizes.len() - field,
    {
        if sizes[field] == 0 {
            proof {
                lemma_product_len_positive(sizes@);
            }
            return Some(0);
        }
        field += 1;
    }
    let mut count: usize = 1;
    let mut field: usize = 0;
    assert(sizes@.take(0) == Seq::<usize>::empty());
    while field < sizes.len()
        invariant
            field <= sizes.len(),
            forall|any: int| 0 <= any < sizes.len() ==> sizes@[any] > 0,
            count == product_len(sizes@.take(field as int)),
        decreases sizes.len() - field,
    {
        let ghost longer = sizes@.take(field + 1);
        assert(longer.drop_last() == sizes@.take(field as int));
        assert(longer.last() == sizes@[field as int]);
        match count.checked_mul(sizes[field]) {
            Some(larger) => {
                count = larger;
            },
            None => {
                proof {
                    lemma_product_len_grows(sizes@, field + 1);
                }
                return None;
            },
        }
        field += 1;
    }
    assert(sizes@.take(sizes.len() as int) == sizes@);
    Some(count)
}

/// With no empty field, the product over the first fields is at most the
/// product over all of them.
proof fn lemma_product_len_grows(sizes: Seq<usize>, fields: int)
    requires
        0 <= fields <= sizes.len(),
        forall|any: int| 0 <= any < sizes.len() ==> sizes[any] > 0,
    ensures
        product_len(sizes.take(fields)) <= product_len(sizes),
    decreases sizes.len(),
{
    if fields == sizes.len() {
        assert(sizes.take(fields) == sizes);
    } else {
        let front = sizes.drop_last();
        assert(sizes.take(fields) == front.take(fields));
        lemma_product_len_grows(front, fields);
        let a = product_len(front) as int;
        let b = sizes.last() as int;
        assert(a <= a * b) by (nonlinear_arith)
            requires
                a >= 0,
                b >= 1,
        ;
    }
}

/// One value of the list of a sum: a constructor, and a choice of the product
/// that it carries.
#[derive(Debug)]
pub struct SumChoice {
    /// The position of the constructor in the declaration of the sum.
    pub constructor: usize,
    /// For each field of the constructor, the position of the chosen value in
    /// the list of the field's type.
    pub fields: Vec<usize>,
}

/// The shape of a sum as sequences: for each constructor, the numbers of
/// representative values of its fields.
pub open spec fn shape_of(constructors: Seq<Vec<usize>>) -> Seq<Seq<usize>> {
    constructors.map_values(|sizes: Vec<usize>| sizes@)
}

/// The number of values in the list of a sum: the numbers of its constructors
/// added up. A constructor without fields counts as one.
pub open spec fn sum_len(shape: Seq<Seq<usize>>) -> nat
    decreases shape.len(),
{
    if shape.len() == 0 {
        0
    } else {
        sum_len(shape.drop_last()) + product_len(shape.last())
    }
}

/// Where the list of a sum holds the value at position `k` of the list of its
/// constructor number `constructor`: behind all values of the constructors
/// declared before it.
pub open spec fn sum_position(shape: Seq<Seq<usize>>, constructor: int, k: int) -> int {
    sum_len(shape.take(constructor)) + k
}

/// The values of a constructor lie within the list of its sum.
pub proof fn lemma_sum_position_in_range(shape: Seq<Seq<usize>>, constructor: int, k: int)
    requires
        0 <= constructor < shape.len(),
        0 <= k < product_len(shape[constructor]),
    ensures
        0 <= sum_position(shape, constructor, k) < sum_len(shape),
    decreases shape.len(),
{
    let front = shape.drop_last();
    if constructor == shape.len() - 1 {
        assert(shape.take(constructor) == front);
    } else {
        assert(shape.take(constructor) == front.take(constructor));
        assert(front[constructor] == shape[constructor]);
        lemma_sum_position_in_range(front, constructor, k);
    }
}

/// Every position of the list of a sum holds a value of one of its
/// constructors.
pub proof fn lemma_sum_position_is_reached(shape: Seq<Seq<usize>>, at: int)
    requires
        0 <= at < sum_len(shape),
    ensures
        exists|constructor: int, k: int|
            0 <= constructor < shape.len() && 0 <= k < product_len(shape[constructor])
                && #[trigger] sum_position(shape, constructor, k) == at,
    decreases shape.len(),
{
    let front = shape.drop_last();
    if at >= sum_len(front) {
        let constructor = shape.len() - 1;
        assert(shape.take(constructor) == front);
        assert(sum_position(shape, constructor, at - sum_len(front)) == at);
    } else {
        lemma_sum_position_is_reached(front, at);
        let (constructor, k) = choose|constructor: int, k: int|
            0 <= constructor < front.len() && 0 <= k < product_len(front[constructor])
                && #[trigger] sum_position(front, constructor, k) == at;
        assert(shape.take(constructor) == front.take(constructor));
        assert(front[constructor] == shape[constructor]);
        assert(sum_position(shape, constructor, k) == at);
    }
}

/// Every constructor of a sum whose fields all have a representative value
/// occurs in the list of the sum.
pub proof fn lemma_every_constructor_occurs(shape: Seq<Seq<usize>>, constructor: int)
    requires
        0 <= constructor < shape.len(),
        forall|field: int| 0 <= field < shape[constructor].len() ==> shape[constructor][field] > 0,
    ensures
        0 <= sum_position(shape, constructor, 0) < sum_len(shape),
{
    lemma_product_len_positive(shape[constructor]);
    lemma_sum_position_in_range(shape, constructor, 0);
}

/// Lists the choices of a sum: for each constructor in declaration order, the
/// choices of the product that it carries, each marked with the constructor.
/// `constructors` gives, for each constructor, the numbers of representative
/// values of its fields.
pub fn sum_choices(constructors: &Vec<Vec<usize>>) -> (choices: Vec<SumChoice>)
    ensures
        choices@.len() == sum_len(shape_of(constructors@)),
        forall|constructor: int, k: int|
            #![trigger sum_position(shape_of(constructors@), constructor, k)]
            0 <= constructor < constructors@.len() && 0 <= k < product_len(
                constructors@[constructor]@,
            ) ==> {
                let at = sum_position(shape_of(constructors@), constructor, k);
                &&& 0 <= at < choices@.len()
                &&& choices@[at].constructor == constructor
                &&& choices@[at].fields@ == product_choice(constructors@[constructor]@, k)
            },
        forall|constructor: int|
            0 <= constructor < constructors@.len() && product_len(
                (#[trigger] constructors@[constructor])@,
            ) > 0 ==> exists|at: int|
                0 <= at < choices@.len() && (#[trigger] choices@[at]).constructor == constructor,
{
    let ghost shape = shape_of(constructors@);
    let mut choices: Vec<SumChoice> = Vec::new();
    let mut constructor: usize = 0;
    assert(shape.take(0) == Seq::<Seq<usize>>::empty());
    while constructor < constructors.len()
        invariant
            constructor <= constructors.len(),
            shape == shape_of(constructors@),
            choices@.len() == sum_len(shape.take(constructor as int)),
            forall|earlier: int, k: int|
                #![trigger sum_position(shape, earlier, k)]
                0 <= earlier < constructor && 0 <= k < product_len(shape[earlier]) ==> {
                    let at = sum_position(shape, earlier, k);
                    &&& 0 <= at < choices@.len()
                    &&& choices@[at].constructor == earlier
                    &&& choices@[at].fields@ == product_choice(shape[earlier], k)
                },
        decreases constructors.len() - constructor,
    {
        let payloads = product_choices(&constructors[constructor]);
        let ghost before = choices@;
        let ghost all = payloads@;
        proof {
            let longer = shape.take(constructor + 1);
            assert(longer.drop_last() == shape.take(constructor as int));
            assert(longer.last() == shape[constructor as int]);
        }
        for fields in iter: payloads.into_iter()
            invariant
                iter.seq() == all,
                choices@.len() == before.len() + iter.index(),
                forall|at: int| 0 <= at < before.len() ==> choices@[at] == before[at],
                forall|k: int|
                    0 <= k < iter.index() ==> (#[trigger] choices@[before.len() + k]).constructor
                        == constructor && choices@[before.len() + k].fields == all[k],
        {
            choices.push(SumChoice { constructor, fields });
        }
        proof {
            assert forall|earlier: int, k: int|
                #![trigger sum_position(shape, earlier, k)]
                0 <= earlier < constructor + 1 && 0 <= k < product_len(shape[earlier]) implies {
                let at = sum_position(shape, earlier, k);
                &&& 0 <= at < choices@.len()
                &&& choices@[at].constructor == earlier
                &&& choices@[at].fields@ == product_choice(shape[earlier], k)
            } by {
                let at = sum_position(shape, earlier, k);
                if earlier < constructor {
                    assert(choices@[at] == before[at]);
                } else {
                    assert(at == before.len() + k);
                    assert(choices@[before.len() + k].fields == all[k]);
                }
            }
        }
        constructor += 1;
    }
    assert(shape.take(constructors.len() as int) == shape);
    proof {
        assert forall|constructor: int|
            0 <= constructor < constructors@.len() && product_len(
                (#[trigger] constructors@[constructor])@,
            ) > 0 implies exists|at: int|
            0 <= at < choices@.len() && (#[trigger] choices@[at]).constructor == constructor by {
            let at = sum_position(shape, constructor, 0);
            assert(choices@[at].constructor == constructor);
        }
    }
    choices
}

/// The number of values in the list of a sum of the shape `constructors`, or
/// `None` if that number does not fit in `usize`.
pub fn sum_count(constructors: &Vec<Vec<usize>>) -> (count: Option<usize>)
    ensures
        count matches Some(n) ==> n == sum_len(shape_of(constructors@)),
        count is None <==> sum_len(shape_of(constructors@)) > usize::MAX,
{
    let ghost shape = shape_of(constructors@);
    let mut count: usize = 0;
    let mut constructor: usize = 0;
    assert(shape.take(0) == Seq::<Seq<usize>>::empty());
    while constructor < constructors.len()
        invariant
            constructor <= constructors.len(),
            shape == shape_of(constructors@),
            count == sum_len(shape.take(constructor as int)),
        decreases constructors.len() - constructor,
    {
        proof {
            let longer = shape.take(constructor + 1);
            assert(longer.drop_last() == shape.take(constructor as int));
            assert(longer.last() == shape[constructor as int]);
            lemma_sum_len_grows(shape, constructor + 1);
        }
        let larger = match product_count(&constructors[constructor]) {
            Some(payloads) => count.checked_add(payloads),
            None => None,
        };
        match larger {
            Some(larger) => {
                count = larger;
            },
            None => {
                return None;
            },
        }
        constructor += 1;
    }
    assert(shape.take(constructors.len() as int) == shape);
    Some(count)
}

/// The sum over the first constructors is at most the sum over all of them.
proof fn lemma_sum_len_grows(shape: Seq<Seq<usize>>, constructors: int)
    requires
        0 <= constructors <= shape.len(),
    ensures
        sum_len(shape.take(constructors)) <= sum_len(shape),
    decreases shape.len(),
{
    if constructors == shape.len() {
        assert(shape.take(constructors) == shape);
    } else {
        let front = shape.drop_last();
        assert(shape.take(constructors) == front.take(constructors));
        lemma_sum_len_grows(front, constructors);
    }
}

} // verus!
