//! The group: its elements, their compressed form, and the laws that bind them.
//!
//! A group here has the order of its scalar field, a prime, and so it is
//! cyclic: once a generator is fixed, each element is a multiple of it by
//! exactly one number below the order. The model of an element is that number,
//! its index. Adding elements adds indices and multiplying by a scalar
//! multiplies the index, both modulo the order; the identity has index zero.

use crate::bits::{le_bits_value, le_bytes_value};
use crate::cyclic::{
    add_index, lemma_add_associative, lemma_add_commutative, lemma_mul_distributes_over_elements,
    lemma_mul_by_one_and_zero, lemma_naive_sum_concat, lemma_naive_sum_single, lemma_sub_undoes_add, mul_index, naive_sum,
    sub_index,
};
use crate::hash::{HashFuncCircuitTrait, HashFuncConstantsTrait, HashFuncTrait};
use crate::ops::{GroupOps, GroupOpsOwned, ScalarMul, ScalarMulOwned};
use crate::transcript::{appended_all, ChallengeTrait};
use merlin::Transcript;
use core::fmt::Debug;
use vstd::prelude::*;
use vstd::std_specs::cmp::PartialEqSpec;
use vstd::std_specs::ops::{AddSpec, MulSpec, SubSpec};

verus! {

/// An element of a group.
pub trait Group:
    Clone
    + Copy
    + Debug
    + Eq
    + Sized
    + GroupOps
    + GroupOpsOwned
    + ScalarMul<<Self as Group>::Scalar>
    + ScalarMulOwned<<Self as Group>::Scalar>
    + Send
    + Sync
 {
    /// An element of the base field of the group, in which coordinates lie.
    type Base: Copy + Send + Sync;

    /// An element of the scalar field of the group.
    type Scalar: ChallengeTrait + Copy + Send + Sync;

    /// The compressed form of an element.
    type CompressedGroupElement: Clone + Copy + Debug + Eq + Send + Sync + 'static;

    /// An element prepared for use as a base of a multi-scalar multiplication.
    type PreprocessedGroupElement: Clone + Send + Sync;

    /// A hash function that consumes elements of the base field and yields
    /// elements of the scalar field.
    type HashFunc: HashFuncTrait<Self::Base, Self::Scalar>;

    /// The same hash function inside a circuit.
    type HashFuncCircuit: HashFuncCircuitTrait<Self::Base>;

    /// The order of the group, which is the modulus of its scalar field.
    open spec fn order() -> nat {
        arbitrary()
    }

    /// The index of the element: the number below the order by which the
    /// generator is multiplied to give it. The identity has index zero.
    open spec fn index(&self) -> nat {
        arbitrary()
    }

    /// The index of a preprocessed element.
    open spec fn preprocessed_index(base: Self::PreprocessedGroupElement) -> nat {
        arbitrary()
    }

    /// The number below the order that a scalar stands for.
    open spec fn scalar_value(scalar: Self::Scalar) -> nat {
        arbitrary()
    }

    /// A scalar that stands for the given number, which is below the order.
    open spec fn scalar_of(value: nat) -> Self::Scalar {
        arbitrary()
    }

    /// The number that an element of the base field stands for.
    open spec fn base_value(base: Self::Base) -> nat {
        arbitrary()
    }

    /// The canonical bytes of the element of the base field that stands for
    /// the given number: what is appended to a transcript for it.
    open spec fn base_repr(value: nat) -> Seq<u8> {
        arbitrary()
    }

    /// The affine coordinates that `to_coordinates` gives for the element with
    /// the given index, as numbers of the base field. For index zero they are
    /// what stands in for coordinates beside the flag.
    open spec fn affine(index: nat) -> (nat, nat) {
        arbitrary()
    }

    /// The length of every compressed element, in bytes.
    open spec fn compressed_len() -> nat {
        arbitrary()
    }

    /// The canonical encoding of the element with the given index.
    open spec fn encoding(index: nat) -> Seq<u8> {
        arbitrary()
    }

    /// The bytes that a compressed element holds.
    open spec fn compressed_bytes(compressed: Self::CompressedGroupElement) -> Seq<u8> {
        arbitrary()
    }

    /// The indices of the `n` generators derived from a label.
    open spec fn generators(label: Seq<u8>, n: nat) -> Seq<nat> {
        arbitrary()
    }

    /// The model is that of a group of the order of the scalar field: the
    /// order is positive, elements and bases have indices below it, the
    /// scalars stand for exactly the numbers below it, every compressed
    /// element has the one length, and the encoding has that length and gives
    /// distinct elements distinct bytes.
    proof fn lemma_model_sound()
        ensures
            Self::order() > 0,
            forall|g: Self| (#[trigger] g.index()) < Self::order(),
            forall|b: Self::PreprocessedGroupElement|
                (#[trigger] Self::preprocessed_index(b)) < Self::order(),
            forall|k: Self::Scalar| (#[trigger] Self::scalar_value(k)) < Self::order(),
            forall|v: nat|
                v < Self::order() ==> Self::scalar_value(#[trigger] Self::scalar_of(v)) == v,
            forall|c: Self::CompressedGroupElement|
                (#[trigger] Self::compressed_bytes(c)).len() == Self::compressed_len(),
            forall|i: nat|
                i < Self::order() ==> (#[trigger] Self::encoding(i)).len()
                    == Self::compressed_len(),
            forall|i: nat, j: nat|
                i < Self::order() && j < Self::order() && #[trigger] Self::encoding(i)
                    == #[trigger] Self::encoding(j) ==> i == j,
    ;

    /// Equality follows the model: `==` holds of two elements exactly where
    /// they have one index, whatever their representation, and of two
    /// compressed elements exactly where they hold the same bytes.
    proof fn lemma_equality_agrees()
        ensures
            <Self as PartialEqSpec>::obeys_eq_spec(),
            forall|a: Self, b: Self| (#[trigger] a.eq_spec(&b)) <==> a.index() == b.index(),
            <Self::CompressedGroupElement as PartialEqSpec>::obeys_eq_spec(),
            forall|c: Self::CompressedGroupElement, d: Self::CompressedGroupElement|
                (#[trigger] c.eq_spec(&d)) <==> Self::compressed_bytes(c)
                    == Self::compressed_bytes(d),
    ;

    /// The operators compute what the model says: `+` adds indices, `-`
    /// subtracts them and `*` multiplies the index by the number of the
    /// scalar, modulo the order; none of them is refused on any operands; and
    /// it is so whether the right operand is taken by value or by reference.
    proof fn lemma_operators_agree()
        ensures
            <Self as AddSpec<Self>>::obeys_add_spec(),
            <Self as SubSpec<Self>>::obeys_sub_spec(),
            <Self as MulSpec<Self::Scalar>>::obeys_mul_spec(),
            <Self as AddSpec<&Self>>::obeys_add_spec(),
            <Self as SubSpec<&Self>>::obeys_sub_spec(),
            <Self as MulSpec<&Self::Scalar>>::obeys_mul_spec(),
            forall|a: Self, b: Self|
                a.add_req(b) && (#[trigger] a.add_spec(b)).index() == add_index(
                    Self::order(),
                    a.index(),
                    b.index(),
                ),
            forall|a: Self, b: Self|
                a.sub_req(b) && (#[trigger] a.sub_spec(b)).index() == sub_index(
                    Self::order(),
                    a.index(),
                    b.index(),
                ),
            forall|a: Self, k: Self::Scalar|
                a.mul_req(k) && (#[trigger] a.mul_spec(k)).index() == mul_index(
                    Self::order(),
                    Self::scalar_value(k),
                    a.index(),
                ),
            forall|a: Self, b: Self|
                a.add_req(&b) && (#[trigger] a.add_spec(&b)).index() == add_index(
                    Self::order(),
                    a.index(),
                    b.index(),
                ),
            forall|a: Self, b: Self|
                a.sub_req(&b) && (#[trigger] a.sub_spec(&b)).index() == sub_index(
                    Self::order(),
                    a.index(),
                    b.index(),
                ),
            forall|a: Self, k: Self::Scalar|
                a.mul_req(&k) && (#[trigger] a.mul_spec(&k)).index() == mul_index(
                    Self::order(),
                    Self::scalar_value(k),
                    a.index(),
                ),
    ;

    /// The two modes of the random oracle are one hash function. Their
    /// constants hold the same parameters; and on the same parameters and the
    /// same absorbed elements, the bits that the circuit computes write the
    /// number of the scalar that the oracle yields, for the challenge and for
    /// the digest.
    proof fn lemma_modes_agree()
        ensures
            <<Self::HashFunc as HashFuncTrait<
                Self::Base,
                Self::Scalar,
            >>::Constants as HashFuncConstantsTrait<Self::Base>>::standard_parameters()
                == <<Self::HashFuncCircuit as HashFuncCircuitTrait<
                Self::Base,
            >>::Constants as HashFuncConstantsTrait<Self::Base>>::standard_parameters(),
            forall|parameters: Seq<Self::Base>, absorbed: Seq<Self::Base>|
                le_bits_value(
                    #[trigger] <Self::HashFuncCircuit as HashFuncCircuitTrait<
                        Self::Base,
                    >>::challenge_bits_of(parameters, absorbed),
                ) == Self::scalar_value(
                    <Self::HashFunc as HashFuncTrait<Self::Base, Self::Scalar>>::challenge_of(
                        parameters,
                        absorbed,
                    ),
                ),
            forall|parameters: Seq<Self::Base>, absorbed: Seq<Self::Base>|
                le_bits_value(
                    #[trigger] <Self::HashFuncCircuit as HashFuncCircuitTrait<
                        Self::Base,
                    >>::hash_bits_of(parameters, absorbed),
                ) == Self::scalar_value(
                    <Self::HashFunc as HashFuncTrait<Self::Base, Self::Scalar>>::hash_of(
                        parameters,
                        absorbed,
                    ),
                ),
    ;

    /// Computes the sum of the bases, each multiplied by its scalar. The
    /// result is that of adding the products one by one, whatever the order in
    /// which they are in fact added; of no pairs it is the identity.
    fn vartime_multiscalar_mul(
        scalars: &[Self::Scalar],
        bases: &[Self::PreprocessedGroupElement],
    ) -> (sum: Self)
        requires
            scalars@.len() == bases@.len(),
        ensures
            sum.index() == naive_sum(
                Self::order(),
                Seq::new(scalars@.len(), |i: int| Self::scalar_value(scalars@[i])),
                Seq::new(bases@.len(), |i: int| Self::preprocessed_index(bases@[i])),
            ),
    ;

    /// Compresses the element to its canonical encoding.
    fn compress(&self) -> (compressed: Self::CompressedGroupElement)
        ensures
            Self::compressed_bytes(compressed) == Self::encoding(self.index()),
    ;

    /// Prepares the element for use as a base. It stays the same element.
    fn preprocessed(&self) -> (base: Self::PreprocessedGroupElement)
        ensures
            Self::preprocessed_index(base) == self.index(),
    ;

    /// Derives `n` generators from a label. They depend on the label and on
    /// `n` and on nothing else.
    fn from_label(label: &'static [u8], n: usize) -> (bases: Vec<Self::PreprocessedGroupElement>)
        ensures
            bases@.len() == n,
            Seq::new(bases@.len(), |i: int| Self::preprocessed_index(bases@[i]))
                == Self::generators(label@, n as nat),
    ;

    /// Returns the affine coordinates of the element and whether it is the
    /// point at infinity, the identity. The flag alone says whether it is; the
    /// coordinates are those of the index, for the identity too, so that every
    /// call on one element gives the same.
    fn to_coordinates(&self) -> (coordinates: (Self::Base, Self::Base, bool))
        ensures
            coordinates.2 <==> self.index() == 0,
            (Self::base_value(coordinates.0), Self::base_value(coordinates.1)) == Self::affine(
                self.index(),
            ),
    ;

    /// Returns the order of the group, as little-endian bytes.
    fn get_order() -> (order: Vec<u8>)
        ensures
            le_bytes_value(order@) == Self::order(),
    ;
}

/// The compressed form of a group element.
pub trait CompressedGroup: Clone + Copy + Debug + Eq + Sized + Send + Sync + 'static {
    /// The group whose elements this is the compressed form of.
    type GroupElement: Group<CompressedGroupElement = Self>;

    /// Decompresses the element. There is an element exactly where the bytes
    /// are the canonical encoding of one, and it is that one; every other
    /// byte string is rejected.
    fn decompress(&self) -> (element: Option<Self::GroupElement>)
        ensures
            element is Some <==> is_encoding::<Self::GroupElement>(
                Self::GroupElement::compressed_bytes(*self),
            ),
            element matches Some(g) ==> g.index() < Self::GroupElement::order()
                && Self::GroupElement::encoding(g.index()) == Self::GroupElement::compressed_bytes(
                *self,
            ),
    ;

    /// Returns the bytes of the compressed element.
    fn as_bytes(&self) -> (bytes: &[u8])
        ensures
            bytes@ == Self::GroupElement::compressed_bytes(*self),
    ;
}

/// Whether a byte string is the canonical encoding of an element of the group.
pub open spec fn is_encoding<G: Group>(bytes: Seq<u8>) -> bool {
    exists|index: nat| index < G::order() && #[trigger] G::encoding(index) == bytes
}

/// The indices of a sequence of preprocessed elements.
pub open spec fn preprocessed_indices<G: Group>(bases: Seq<G::PreprocessedGroupElement>) -> Seq<
    nat,
> {
    Seq::new(bases.len(), |i: int| G::preprocessed_index(bases[i]))
}

/// An operand taken by reference gives the result that it gives taken by
/// value: there is one sum, one difference and one multiple.
pub proof fn lemma_operands_interchangeable<G: Group>(a: G, b: G, k: G::Scalar)
    ensures
        a.add_spec(&b).index() == a.add_spec(b).index(),
        a.sub_spec(&b).index() == a.sub_spec(b).index(),
        a.mul_spec(&k).index() == a.mul_spec(k).index(),
{
    G::lemma_operators_agree();
}

/// The operators obey the laws of an abelian group on which the scalars act:
/// addition is commutative and associative, subtraction undoes it, and
/// multiplication by a scalar distributes over it.
pub proof fn lemma_operators_lawful<G: Group>(a: G, b: G, c: G, k: G::Scalar)
    ensures
        a.add_spec(b).index() == b.add_spec(a).index(),
        a.add_spec(b).add_spec(c).index() == a.add_spec(b.add_spec(c)).index(),
        a.add_spec(b).sub_spec(b).index() == a.index(),
        a.add_spec(b).mul_spec(k).index() == a.mul_spec(k).add_spec(b.mul_spec(k)).index(),
{
    G::lemma_model_sound();
    G::lemma_operators_agree();
    let q = G::order();
    lemma_add_commutative(q, a.index(), b.index());
    lemma_add_associative(q, a.index(), b.index(), c.index());
    lemma_sub_undoes_add(q, a.index(), b.index());
    lemma_mul_distributes_over_elements(q, G::scalar_value(k), a.index(), b.index());
}

/// Compressing and then decompressing gives the element back. Here
/// `compressed` is what `compress` yields for `element`, and `decompressed`
/// what `decompress` yields for `compressed`.
pub proof fn lemma_compress_round_trip<C: CompressedGroup>(
    element: C::GroupElement,
    compressed: C,
    decompressed: Option<C::GroupElement>,
)
    requires
        C::GroupElement::compressed_bytes(compressed) == C::GroupElement::encoding(
            element.index(),
        ),
        decompressed is Some <==> is_encoding::<C::GroupElement>(
            C::GroupElement::compressed_bytes(compressed),
        ),
        decompressed matches Some(g) ==> g.index() < C::GroupElement::order()
            && C::GroupElement::encoding(g.index()) == C::GroupElement::compressed_bytes(
            compressed,
        ),
    ensures
        decompressed matches Some(g) && g.index() == element.index() && g.eq_spec(&element),
{
    C::GroupElement::lemma_model_sound();
    C::GroupElement::lemma_equality_agrees();
    assert(element.index() < C::GroupElement::order());
    assert(C::GroupElement::encoding(element.index()) == C::GroupElement::compressed_bytes(
        compressed,
    ));
}

/// Compressed elements are equal exactly where the elements are: two elements
/// compress to the same bytes if and only if they have the same index. Here
/// `first_bytes` and `second_bytes` are the bytes that `compress` yields for
/// the two elements.
pub proof fn lemma_compress_injective<G: Group>(
    first: G,
    second: G,
    first_bytes: Seq<u8>,
    second_bytes: Seq<u8>,
)
    requires
        first_bytes == G::encoding(first.index()),
        second_bytes == G::encoding(second.index()),
    ensures
        first_bytes == second_bytes <==> first.index() == second.index(),
        first_bytes.len() == G::compressed_len(),
{
    G::lemma_model_sound();
    assert(first.index() < G::order() && second.index() < G::order());
}

/// Equality of compressed elements tracks equality of the elements: what
/// `compress` yields for two elements is equal exactly where the elements are.
/// Here `first_compressed` and `second_compressed` are what `compress` yields
/// for the two elements.
pub proof fn lemma_compress_tracks_equality<G: Group>(
    first: G,
    second: G,
    first_compressed: G::CompressedGroupElement,
    second_compressed: G::CompressedGroupElement,
)
    requires
        G::compressed_bytes(first_compressed) == G::encoding(first.index()),
        G::compressed_bytes(second_compressed) == G::encoding(second.index()),
    ensures
        first_compressed.eq_spec(&second_compressed) <==> first.eq_spec(&second),
        G::compressed_bytes(first_compressed).len() == G::compressed_len(),
{
    G::lemma_model_sound();
    G::lemma_equality_agrees();
    lemma_compress_injective::<G>(
        first,
        second,
        G::compressed_bytes(first_compressed),
        G::compressed_bytes(second_compressed),
    );
}

/// The order of the group is the modulus of its scalar field: the scalars
/// stand for the numbers below the order, each of them and no other.
pub proof fn lemma_order_is_modulus<G: Group>(scalar: G::Scalar, v: nat)
    ensures
        G::scalar_value(scalar) < G::order(),
        v < G::order() ==> exists|k: G::Scalar| G::scalar_value(k) == v,
{
    G::lemma_model_sound();
    if v < G::order() {
        assert(G::scalar_value(G::scalar_of(v)) == v);
    }
}

/// Generators depend on the label and on their number alone: two sequences
/// that `from_label` yields for one label and one number hold the same
/// elements in the same order.
pub proof fn lemma_from_label_deterministic<G: Group>(
    label: Seq<u8>,
    n: nat,
    first: Seq<G::PreprocessedGroupElement>,
    second: Seq<G::PreprocessedGroupElement>,
)
    requires
        first.len() == n,
        second.len() == n,
        preprocessed_indices::<G>(first) == G::generators(label, n),
        preprocessed_indices::<G>(second) == G::generators(label, n),
    ensures
        forall|i: int|
            0 <= i < n ==> G::preprocessed_index(first[i]) == G::preprocessed_index(second[i]),
{
    assert forall|i: int| 0 <= i < n implies G::preprocessed_index(first[i])
        == G::preprocessed_index(second[i]) by {
        assert(preprocessed_indices::<G>(first)[i] == G::preprocessed_index(first[i]));
        assert(preprocessed_indices::<G>(second)[i] == G::preprocessed_index(second[i]));
    }
}

/// The index that `vartime_multiscalar_mul` yields for these scalars and
/// bases: the naive sum over the numbers of the scalars and the indices of the
/// bases.
pub open spec fn multiscalar_index<G: Group>(
    scalars: Seq<G::Scalar>,
    bases: Seq<G::PreprocessedGroupElement>,
) -> nat {
    naive_sum(
        G::order(),
        Seq::new(scalars.len(), |i: int| G::scalar_value(scalars[i])),
        Seq::new(bases.len(), |i: int| G::preprocessed_index(bases[i])),
    )
}

/// The multi-scalar multiplication of no pairs yields the identity.
pub proof fn lemma_multiscalar_mul_empty<G: Group>()
    ensures
        multiscalar_index::<G>(
            Seq::<G::Scalar>::empty(),
            Seq::<G::PreprocessedGroupElement>::empty(),
        ) == 0,
{
}

/// The multi-scalar multiplication of one pair yields the base multiplied by
/// the scalar.
pub proof fn lemma_multiscalar_mul_single<G: Group>(
    scalar: G::Scalar,
    base: G::PreprocessedGroupElement,
)
    ensures
        multiscalar_index::<G>(seq![scalar], seq![base]) == mul_index(
            G::order(),
            G::scalar_value(scalar),
            G::preprocessed_index(base),
        ),
{
    G::lemma_model_sound();
    let scalars = Seq::new(1, |i: int| G::scalar_value(seq![scalar][i]));
    let bases = Seq::new(1, |i: int| G::preprocessed_index(seq![base][i]));
    assert(scalars =~= seq![G::scalar_value(scalar)]);
    assert(bases =~= seq![G::preprocessed_index(base)]);
    lemma_naive_sum_single(G::order(), G::scalar_value(scalar), G::preprocessed_index(base));
}

/// A multi-scalar multiplication may be computed in parts, as when the pairs
/// are shared out among workers: the result for two runs of pairs, one behind
/// the other, is the sum of the results for the runs, in either order.
pub proof fn lemma_multiscalar_mul_in_parts<G: Group>(
    scalars1: Seq<G::Scalar>,
    bases1: Seq<G::PreprocessedGroupElement>,
    scalars2: Seq<G::Scalar>,
    bases2: Seq<G::PreprocessedGroupElement>,
)
    requires
        scalars1.len() == bases1.len(),
        scalars2.len() == bases2.len(),
    ensures
        multiscalar_index::<G>(scalars1 + scalars2, bases1 + bases2) == add_index(
            G::order(),
            multiscalar_index::<G>(scalars1, bases1),
            multiscalar_index::<G>(scalars2, bases2),
        ),
        multiscalar_index::<G>(scalars1 + scalars2, bases1 + bases2) == add_index(
            G::order(),
            multiscalar_index::<G>(scalars2, bases2),
            multiscalar_index::<G>(scalars1, bases1),
        ),
{
    G::lemma_model_sound();
    let value = |s: Seq<G::Scalar>| Seq::new(s.len(), |i: int| G::scalar_value(s[i]));
    let index = |b: Seq<G::PreprocessedGroupElement>|
        Seq::new(b.len(), |i: int| G::preprocessed_index(b[i]));
    assert(value(scalars1 + scalars2) =~= value(scalars1) + value(scalars2));
    assert(index(bases1 + bases2) =~= index(bases1) + index(bases2));
    lemma_naive_sum_concat(
        G::order(),
        value(scalars1),
        index(bases1),
        value(scalars2),
        index(bases2),
    );
    lemma_add_commutative(
        G::order(),
        multiscalar_index::<G>(scalars1, bases1),
        multiscalar_index::<G>(scalars2, bases2),
    );
}

/// The messages that the coordinates of elements append to a transcript: for
/// each element in order, the canonical bytes of its `x` and then of its `y`.
pub open spec fn coordinate_messages<G: Group>(indices: Seq<nat>) -> Seq<Seq<u8>> {
    Seq::new(
        2 * indices.len(),
        |i: int|
            if i % 2 == 0 {
                G::base_repr(G::affine(indices[i / 2]).0)
            } else {
                G::base_repr(G::affine(indices[i / 2]).1)
            },
    )
}

/// The indices of the points that bases stand for: each base multiplied by
/// `one` in a multi-scalar multiplication of that single pair.
pub open spec fn point_indices<G: Group>(
    one: G::Scalar,
    bases: Seq<G::PreprocessedGroupElement>,
) -> Seq<nat> {
    Seq::new(bases.len(), |i: int| multiscalar_index::<G>(seq![one], seq![bases[i]]))
}

/// Generators derived twice are used alike. Let `first` and `second` be what
/// `from_label` yields for one label and one number, and let `one` be the
/// scalar that stands for 1. Then the points that the bases stand for are the
/// same, one by one, and appending their coordinates under one label to
/// transcripts that are alike leaves transcripts that are alike.
pub proof fn lemma_generators_append_alike<G: Group>(
    label: Seq<u8>,
    n: nat,
    first: Seq<G::PreprocessedGroupElement>,
    second: Seq<G::PreprocessedGroupElement>,
    one: G::Scalar,
    append_label: Seq<u8>,
    first_transcript: Transcript,
    second_transcript: Transcript,
)
    requires
        first.len() == n,
        second.len() == n,
        preprocessed_indices::<G>(first) == G::generators(label, n),
        preprocessed_indices::<G>(second) == G::generators(label, n),
        G::scalar_value(one) == 1,
        first_transcript == second_transcript,
    ensures
        point_indices::<G>(one, first) == preprocessed_indices::<G>(first),
        point_indices::<G>(one, first) == point_indices::<G>(one, second),
        appended_all(
            first_transcript,
            append_label,
            coordinate_messages::<G>(point_indices::<G>(one, first)),
        ) == appended_all(
            second_transcript,
            append_label,
            coordinate_messages::<G>(point_indices::<G>(one, second)),
        ),
{
    G::lemma_model_sound();
    lemma_from_label_deterministic::<G>(label, n, first, second);
    assert forall|i: int| 0 <= i < n implies point_indices::<G>(one, first)[i]
        == G::preprocessed_index(first[i]) && point_indices::<G>(one, second)[i]
        == G::preprocessed_index(second[i]) by {
        lemma_multiscalar_mul_single::<G>(one, first[i]);
        lemma_multiscalar_mul_single::<G>(one, second[i]);
        lemma_mul_by_one_and_zero(G::order(), G::preprocessed_index(first[i]));
        lemma_mul_by_one_and_zero(G::order(), G::preprocessed_index(second[i]));
    }
    assert(point_indices::<G>(one, first) =~= preprocessed_indices::<G>(first));
    assert(point_indices::<G>(one, second) =~= preprocessed_indices::<G>(second));
}

} // verus!
