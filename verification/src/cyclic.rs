//! The arithmetic of a cyclic group, on the indices of its elements.
//!
//! In a cyclic group of order `order` with a fixed generator, the element of
//! index `a` is the generator multiplied by `a`. The group laws are then facts
//! of arithmetic modulo the order, and are proved here once for every group.

use vstd::arithmetic::div_mod::{
    lemma_add_mod_noop, lemma_add_mod_noop_right, lemma_mod_bound, lemma_mod_self_0,
    lemma_mod_twice, lemma_mul_mod_noop_general, lemma_small_mod,
};
use vstd::arithmetic::mul::lemma_mul_is_distributive_add;
use vstd::prelude::*;

verus! {

/// The index of the sum of the elements of indices `a` and `b`.
pub open spec fn add_index(order: nat, a: nat, b: nat) -> nat {
    (a + b) % order
}

/// The index of the inverse of the element of index `a`.
pub open spec fn neg_index(order: nat, a: nat) -> nat {
    ((order - a % order) % (order as int)) as nat
}

/// The index of the difference of the elements of indices `a` and `b`.
pub open spec fn sub_index(order: nat, a: nat, b: nat) -> nat {
    add_index(order, a, neg_index(order, b))
}

/// The index of the element of index `a` multiplied by the number `k`.
pub open spec fn mul_index(order: nat, k: nat, a: nat) -> nat {
    (k * a) % order
}

/// The index of the sum of the bases, each multiplied by its scalar: the
/// products added one by one from the first pair on, starting at the identity.
pub open spec fn naive_sum(order: nat, scalars: Seq<nat>, bases: Seq<nat>) -> nat
    decreases scalars.len(),
{
    if scalars.len() == 0 || bases.len() == 0 {
        0
    } else {
        add_index(
            order,
            naive_sum(order, scalars.drop_last(), bases.drop_last()),
            mul_index(order, scalars.last(), bases.last()),
        )
    }
}

/// Sums, inverses and multiples are indices again: they lie below the order.
pub proof fn lemma_indices_closed(order: nat, a: nat, b: nat)
    requires
        order > 0,
    ensures
        add_index(order, a, b) < order,
        neg_index(order, a) < order,
        sub_index(order, a, b) < order,
        mul_index(order, a, b) < order,
{
    lemma_mod_bound((a + b) as int, order as int);
    lemma_mod_bound(order - a % order, order as int);
    lemma_mod_bound((a + neg_index(order, b)) as int, order as int);
    lemma_mod_bound((a * b) as int, order as int);
}

/// Addition is commutative.
pub proof fn lemma_add_commutative(order: nat, a: nat, b: nat)
    ensures
        add_index(order, a, b) == add_index(order, b, a),
{
}

/// Addition is associative.
pub proof fn lemma_add_associative(order: nat, a: nat, b: nat, c: nat)
    requires
        order > 0,
    ensures
        add_index(order, add_index(order, a, b), c) == add_index(order, a, add_index(order, b, c)),
{
    let q = order as int;
    lemma_add_mod_noop_right(c as int, (a + b) as int, q);
    lemma_add_mod_noop_right(a as int, (b + c) as int, q);
    assert(((a + b) % order + c) % order == (c + ((a + b) as int) % q) % q);
    assert(c + (a + b) == a + (b + c));
}

/// The element of index zero is the identity of addition.
pub proof fn lemma_add_identity(order: nat, a: nat)
    requires
        a < order,
    ensures
        add_index(order, a, 0) == a,
        add_index(order, 0, a) == a,
{
    lemma_small_mod(a, order);
}

/// Every element has an inverse: added to it, it gives the identity.
pub proof fn lemma_add_inverse(order: nat, a: nat)
    requires
        a < order,
    ensures
        add_index(order, a, neg_index(order, a)) == 0,
        sub_index(order, a, a) == 0,
{
    lemma_small_mod(a, order);
    lemma_mod_self_0(order as int);
    if a > 0 {
        lemma_small_mod((order - a) as nat, order);
    }
}

/// Subtracting an element undoes adding it.
pub proof fn lemma_sub_undoes_add(order: nat, a: nat, b: nat)
    requires
        a < order,
        b < order,
    ensures
        sub_index(order, add_index(order, a, b), b) == a,
        add_index(order, sub_index(order, a, b), b) == a,
{
    lemma_add_inverse(order, b);
    lemma_add_identity(order, a);
    lemma_add_associative(order, a, b, neg_index(order, b));
    lemma_add_associative(order, a, neg_index(order, b), b);
    lemma_add_commutative(order, neg_index(order, b), b);
}

/// Multiplication by a number distributes over the addition of elements.
pub proof fn lemma_mul_distributes_over_elements(order: nat, k: nat, a: nat, b: nat)
    requires
        order > 0,
    ensures
        mul_index(order, k, add_index(order, a, b)) == add_index(
            order,
            mul_index(order, k, a),
            mul_index(order, k, b),
        ),
{
    let q = order as int;
    lemma_mul_mod_noop_general(k as int, (a + b) as int, q);
    lemma_add_mod_noop((k * a) as int, (k * b) as int, q);
    lemma_mul_is_distributive_add(k as int, a as int, b as int);
}

/// Multiplication distributes over the addition of scalars, which is
/// addition modulo the order.
pub proof fn lemma_mul_distributes_over_scalars(order: nat, j: nat, k: nat, a: nat)
    requires
        order > 0,
    ensures
        mul_index(order, (j + k) % order, a) == add_index(
            order,
            mul_index(order, j, a),
            mul_index(order, k, a),
        ),
{
    let q = order as int;
    lemma_mul_mod_noop_general((j + k) as int, a as int, q);
    lemma_add_mod_noop((j * a) as int, (k * a) as int, q);
    lemma_mul_is_distributive_add(a as int, j as int, k as int);
    assert((j + k) * a == j * a + k * a) by (nonlinear_arith);
}

/// Multiplying by one changes nothing, and multiplying by zero gives the
/// identity.
pub proof fn lemma_mul_by_one_and_zero(order: nat, a: nat)
    requires
        a < order,
    ensures
        mul_index(order, 1, a) == a,
        mul_index(order, 0, a) == 0,
{
    lemma_small_mod(a, order);
    lemma_small_mod(0, order);
}

/// A naive sum is an index: it lies below the order.
pub proof fn lemma_naive_sum_in_range(order: nat, scalars: Seq<nat>, bases: Seq<nat>)
    requires
        order > 0,
    ensures
        naive_sum(order, scalars, bases) < order,
{
    if scalars.len() != 0 && bases.len() != 0 {
        lemma_indices_closed(
            order,
            naive_sum(order, scalars.drop_last(), bases.drop_last()),
            mul_index(order, scalars.last(), bases.last()),
        );
    }
}

/// The sum of no pairs is the identity.
pub proof fn lemma_naive_sum_empty(order: nat)
    ensures
        naive_sum(order, Seq::<nat>::empty(), Seq::<nat>::empty()) == 0,
{
}

/// The sum of one pair is the base multiplied by the scalar.
pub proof fn lemma_naive_sum_single(order: nat, scalar: nat, base: nat)
    requires
        order > 0,
    ensures
        naive_sum(order, seq![scalar], seq![base]) == mul_index(order, scalar, base),
{
    let scalars = seq![scalar];
    let bases = seq![base];
    assert(scalars.drop_last() =~= Seq::<nat>::empty());
    assert(naive_sum(order, scalars.drop_last(), bases.drop_last()) == 0);
    lemma_mod_twice((scalar * base) as int, order as int);
}

/// A sum may be taken in parts: the sum of two runs of pairs, one behind the
/// other, is the sum of the sums of the runs.
pub proof fn lemma_naive_sum_concat(
    order: nat,
    scalars1: Seq<nat>,
    bases1: Seq<nat>,
    scalars2: Seq<nat>,
    bases2: Seq<nat>,
)
    requires
        order > 0,
        scalars1.len() == bases1.len(),
        scalars2.len() == bases2.len(),
    ensures
        naive_sum(order, scalars1 + scalars2, bases1 + bases2) == add_index(
            order,
            naive_sum(order, scalars1, bases1),
            naive_sum(order, scalars2, bases2),
        ),
    decreases scalars2.len(),
{
    let first = naive_sum(order, scalars1, bases1);
    lemma_naive_sum_in_range(order, scalars1, bases1);
    if scalars2.len() == 0 {
        assert(scalars1 + scalars2 =~= scalars1);
        assert(bases1 + bases2 =~= bases1);
        lemma_add_identity(order, first);
    } else {
        let scalars = scalars1 + scalars2;
        let bases = bases1 + bases2;
        assert(scalars.drop_last() =~= scalars1 + scalars2.drop_last());
        assert(bases.drop_last() =~= bases1 + bases2.drop_last());
        assert(scalars.last() == scalars2.last() && bases.last() == bases2.last());
        lemma_naive_sum_concat(order, scalars1, bases1, scalars2.drop_last(), bases2.drop_last());
        lemma_add_associative(
            order,
            first,
            naive_sum(order, scalars2.drop_last(), bases2.drop_last()),
            mul_index(order, scalars2.last(), bases2.last()),
        );
    }
}

} // verus!
