//! The random oracle in its two modes: one that hashes field elements directly,
//! and one that hashes values allocated in a constraint system and yields bits.
//!
//! Both modes are state machines of one shape: a state made from constants,
//! which absorbs elements in order and is read without being changed. What a
//! state yields is a function of its parameters and of the elements absorbed,
//! in their order.

use crate::bits::{le_bits, le_bits_value, lemma_le_bits_of_value};
use crate::group::Group;
use bellperson::gadgets::boolean::AllocatedBit;
use bellperson::{ConstraintSystem, SynthesisError};
use ff::PrimeField;
use vstd::prelude::*;

verus! {

#[verifier::external_type_specification]
#[verifier::external_body]
pub struct ExAllocatedBit(AllocatedBit);

#[verifier::external_type_specification]
#[verifier::external_body]
pub struct ExSynthesisError(SynthesisError);

/// The value that an allocated bit carries as its witness, if it carries one.
pub uninterp spec fn allocated_bit_value(bit: AllocatedBit) -> Option<bool>;

/// `AllocatedBit::get_value` hands out the bit's `value` field: the witness,
/// or `None` where the circuit is built without one.
pub assume_specification[ AllocatedBit::get_value ](bit: &AllocatedBit) -> (value: Option<bool>)
    ensures
        value == allocated_bit_value(*bit),
;

/// The constants of a hash function: round constants, matrices and the like.
pub trait HashFuncConstantsTrait<Base>: Sized {
    /// The parameters that the constants hold, as field elements.
    open spec fn parameters(&self) -> Seq<Base> {
        arbitrary()
    }

    /// The parameters of this hash function, fixed once and for all.
    open spec fn standard_parameters() -> Seq<Base> {
        arbitrary()
    }

    /// Produces the constants of the hash function: always the same parameters.
    fn new() -> (constants: Self)
        ensures
            constants.parameters() == Self::standard_parameters(),
    ;
}

/// A hash function used as a random oracle: it consumes elements of the base
/// field and yields elements of the scalar field.
pub trait HashFuncTrait<Base, Scalar>: Sized {
    /// The constants that a state is made from.
    type Constants: HashFuncConstantsTrait<Base> + Clone + Send + Sync;

    /// The parameters that the state was made with.
    open spec fn parameters(&self) -> Seq<Base> {
        arbitrary()
    }

    /// The elements absorbed so far, oldest first.
    open spec fn absorbed(&self) -> Seq<Base> {
        arbitrary()
    }

    /// The challenge that a state with these parameters yields after absorbing
    /// these elements.
    open spec fn challenge_of(parameters: Seq<Base>, absorbed: Seq<Base>) -> Scalar {
        arbitrary()
    }

    /// The digest that a state with these parameters yields after absorbing
    /// these elements.
    open spec fn hash_of(parameters: Seq<Base>, absorbed: Seq<Base>) -> Scalar {
        arbitrary()
    }

    /// Makes a state that has absorbed nothing.
    fn new(constants: Self::Constants) -> (ro: Self)
        ensures
            ro.parameters() == constants.parameters(),
            ro.absorbed() == Seq::<Base>::empty(),
    ;

    /// Absorbs one element behind those absorbed before.
    fn absorb(&mut self, e: Base)
        ensures
            final(self).parameters() == old(self).parameters(),
            final(self).absorbed() == old(self).absorbed().push(e),
    ;

    /// Reads a challenge off the state, which stays as it is.
    fn get_challenge(&self) -> (challenge: Scalar)
        ensures
            challenge == Self::challenge_of(self.parameters(), self.absorbed()),
    ;

    /// Reads a digest of all that was absorbed off the state, which stays as it is.
    fn get_hash(&self) -> (hash: Scalar)
        ensures
            hash == Self::hash_of(self.parameters(), self.absorbed()),
    ;
}

/// Whether every element of a sequence is there.
pub open spec fn all_some<T>(values: Seq<Option<T>>) -> bool {
    forall|i: int| 0 <= i < values.len() ==> (#[trigger] values[i]) is Some
}

/// The elements of a sequence in which each one is there.
pub open spec fn unwrap_all<T>(values: Seq<Option<T>>) -> Seq<T> {
    Seq::new(values.len(), |i: int| values[i].unwrap())
}

/// The witnesses that a sequence of allocated bits carries.
pub open spec fn bit_witnesses(bits: Seq<AllocatedBit>) -> Seq<Option<bool>> {
    Seq::new(bits.len(), |i: int| allocated_bit_value(bits[i]))
}

/// The same hash function inside a circuit: it consumes numbers allocated in a
/// constraint system and yields allocated bits.
pub trait HashFuncCircuitTrait<Base>: Sized {
    /// The constants that a state is made from.
    type Constants: HashFuncConstantsTrait<Base> + Clone + Send + Sync;

    /// A number allocated in the constraint system.
    type AllocatedNum;

    /// The value that an allocated number carries as its witness, if it
    /// carries one.
    open spec fn witness(e: Self::AllocatedNum) -> Option<Base> {
        arbitrary()
    }

    /// The parameters that the state was made with.
    open spec fn parameters(&self) -> Seq<Base> {
        arbitrary()
    }

    /// The allocated numbers absorbed so far, oldest first.
    open spec fn absorbed(&self) -> Seq<Self::AllocatedNum> {
        arbitrary()
    }

    /// The bits of the challenge that the circuit computes from these values.
    open spec fn challenge_bits_of(parameters: Seq<Base>, absorbed: Seq<Base>) -> Seq<bool> {
        arbitrary()
    }

    /// The bits of the digest that the circuit computes from these values.
    open spec fn hash_bits_of(parameters: Seq<Base>, absorbed: Seq<Base>) -> Seq<bool> {
        arbitrary()
    }

    /// Makes a state that has absorbed nothing.
    fn new(constants: Self::Constants) -> (ro: Self)
        ensures
            ro.parameters() == constants.parameters(),
            ro.absorbed() == Seq::<Self::AllocatedNum>::empty(),
    ;

    /// Absorbs one allocated number behind those absorbed before.
    fn absorb(&mut self, e: Self::AllocatedNum)
        ensures
            final(self).parameters() == old(self).parameters(),
            final(self).absorbed() == old(self).absorbed().push(e),
    ;

    /// Builds the constraints of the challenge and hands out its bits, least
    /// significant first. The state keeps what it absorbed. Where every
    /// absorbed number carries a witness, every bit carries one, and the
    /// witnesses are the bits computed from the witnessed values. A failure is
    /// the constraint system's own, handed on as it came.
    fn get_challenge<CS>(&mut self, cs: CS) -> (bits: Result<Vec<AllocatedBit>, SynthesisError>)
        where Base: PrimeField, CS: ConstraintSystem<Base>
        ensures
            final(self).parameters() == old(self).parameters(),
            final(self).absorbed() == old(self).absorbed(),
            bits matches Ok(bits) ==> (all_some(
                Seq::new(
                    old(self).absorbed().len(),
                    |i: int| Self::witness(old(self).absorbed()[i]),
                ),
            ) ==> {
                &&& all_some(bit_witnesses(bits@))
                &&& unwrap_all(bit_witnesses(bits@)) == Self::challenge_bits_of(
                    old(self).parameters(),
                    unwrap_all(
                        Seq::new(
                            old(self).absorbed().len(),
                            |i: int| Self::witness(old(self).absorbed()[i]),
                        ),
                    ),
                )
            }),
    ;

    /// Builds the constraints of the digest and hands out its bits, least
    /// significant first. The state keeps what it absorbed. Where every
    /// absorbed number carries a witness, every bit carries one, and the
    /// witnesses are the bits computed from the witnessed values. A failure is
    /// the constraint system's own, handed on as it came.
    fn get_hash<CS>(&mut self, cs: CS) -> (bits: Result<Vec<AllocatedBit>, SynthesisError>)
        where Base: PrimeField, CS: ConstraintSystem<Base>
        ensures
            final(self).parameters() == old(self).parameters(),
            final(self).absorbed() == old(self).absorbed(),
            bits matches Ok(bits) ==> (all_some(
                Seq::new(
                    old(self).absorbed().len(),
                    |i: int| Self::witness(old(self).absorbed()[i]),
                ),
            ) ==> {
                &&& all_some(bit_witnesses(bits@))
                &&& unwrap_all(bit_witnesses(bits@)) == Self::hash_bits_of(
                    old(self).parameters(),
                    unwrap_all(
                        Seq::new(
                            old(self).absorbed().len(),
                            |i: int| Self::witness(old(self).absorbed()[i]),
                        ),
                    ),
                )
            }),
    ;
}

/// The constants of the random oracle of a group.
pub type HashFuncConstants<G> =
    <<G as Group>::HashFunc as HashFuncTrait<<G as Group>::Base, <G as Group>::Scalar>>::Constants;

/// The constants of the random oracle of a group, in its circuit mode.
pub type HashFuncConstantsCircuit<G> =
    <<G as Group>::HashFuncCircuit as HashFuncCircuitTrait<<G as Group>::Base>>::Constants;

/// A value that can absorb itself into the random oracle of a group.
pub trait AbsorbInROTrait<G: Group> {
    /// The elements that the value hands to the oracle, in the order in which
    /// it hands them over.
    open spec fn ro_elements(&self) -> Seq<G::Base> {
        arbitrary()
    }

    /// Absorbs the value: the oracle absorbs the value's elements, in order,
    /// behind those that it had absorbed.
    fn absorb_in_ro(&self, ro: &mut G::HashFunc)
        ensures
            final(ro).parameters() == old(ro).parameters(),
            final(ro).absorbed() == old(ro).absorbed() + self.ro_elements(),
    ;
}

impl<G: Group> AbsorbInROTrait<G> for [G::Base] {
    /// A sequence of field elements hands over each element, in order.
    open spec fn ro_elements(&self) -> Seq<G::Base> {
        self@
    }

    fn absorb_in_ro(&self, ro: &mut G::HashFunc) {
        let ghost start = ro.absorbed();
        let mut i: usize = 0;
        while i < self.len()
            invariant
                i <= self.len(),
                ro.parameters() == old(ro).parameters(),
                ro.absorbed() == start + self@.take(i as int),
            decreases self.len() - i,
        {
            ro.absorb(self[i]);
            assert(self@.take(i as int).push(self@[i as int]) =~= self@.take(i + 1));
            i += 1;
        }
        assert(self@.take(i as int) =~= self@);
    }
}

/// Reads the witnesses off a sequence of allocated bits: the bits in their
/// order where each one carries a witness, and `None` where one carries none.
pub fn witness_bits(bits: &[AllocatedBit]) -> (values: Option<Vec<bool>>)
    ensures
        values is Some <==> all_some(bit_witnesses(bits@)),
        values matches Some(v) ==> v@ == unwrap_all(bit_witnesses(bits@)),
{
    let mut values: Vec<bool> = Vec::new();
    let mut i: usize = 0;
    while i < bits.len()
        invariant
            i <= bits.len(),
            values@.len() == i,
            forall|j: int| 0 <= j < i ==> allocated_bit_value(bits@[j]) == Some(#[trigger] values@[j]),
        decreases bits.len() - i,
    {
        match bits[i].get_value() {
            Some(b) => {
                values.push(b);
            },
            None => {
                assert(bit_witnesses(bits@)[i as int] is None);
                return None;
            },
        }
        i += 1;
    }
    assert forall|j: int| 0 <= j < bits.len() implies (#[trigger] bit_witnesses(bits@)[j]) is Some by {
        assert(allocated_bit_value(bits@[j]) == Some(values@[j]));
    }
    assert(values@ =~= unwrap_all(bit_witnesses(bits@)));
    Some(values)
}

/// The witnesses of the numbers that a circuit state has absorbed, oldest
/// first.
pub open spec fn absorbed_witnesses<Base, H: HashFuncCircuitTrait<Base>>(circuit: H) -> Seq<
    Option<Base>,
> {
    Seq::new(circuit.absorbed().len(), |i: int| H::witness(circuit.absorbed()[i]))
}

/// The two modes yield the same challenge. Let a circuit state and a native
/// state hold the same parameters, and let the numbers that the circuit
/// absorbed carry as witnesses the elements that the native state absorbed, in
/// the same order. Then the bits that `get_challenge` hands out in the circuit
/// write the number of the scalar that `get_challenge` yields natively: they
/// are its bit decomposition. Here `challenge` is what the native state
/// yields and `bits` what the circuit hands out with `Ok`.
pub proof fn lemma_challenge_modes_agree<G: Group>(
    native: G::HashFunc,
    circuit: G::HashFuncCircuit,
    challenge: G::Scalar,
    bits: Seq<AllocatedBit>,
)
    requires
        circuit.parameters() == native.parameters(),
        all_some(absorbed_witnesses::<G::Base, G::HashFuncCircuit>(circuit)),
        unwrap_all(absorbed_witnesses::<G::Base, G::HashFuncCircuit>(circuit)) == native.absorbed(),
        challenge == <G::HashFunc as HashFuncTrait<G::Base, G::Scalar>>::challenge_of(
            native.parameters(),
            native.absorbed(),
        ),
        all_some(bit_witnesses(bits)),
        unwrap_all(bit_witnesses(bits)) == <G::HashFuncCircuit as HashFuncCircuitTrait<
            G::Base,
        >>::challenge_bits_of(circuit.parameters(), native.absorbed()),
    ensures
        le_bits_value(unwrap_all(bit_witnesses(bits))) == G::scalar_value(challenge),
        unwrap_all(bit_witnesses(bits)) == le_bits(G::scalar_value(challenge), bits.len()),
{
    G::lemma_modes_agree();
    lemma_le_bits_of_value(unwrap_all(bit_witnesses(bits)));
}

/// The two modes yield the same digest, in the sense of
/// `lemma_challenge_modes_agree`, for `get_hash`.
pub proof fn lemma_hash_modes_agree<G: Group>(
    native: G::HashFunc,
    circuit: G::HashFuncCircuit,
    hash: G::Scalar,
    bits: Seq<AllocatedBit>,
)
    requires
        circuit.parameters() == native.parameters(),
        all_some(absorbed_witnesses::<G::Base, G::HashFuncCircuit>(circuit)),
        unwrap_all(absorbed_witnesses::<G::Base, G::HashFuncCircuit>(circuit)) == native.absorbed(),
        hash == <G::HashFunc as HashFuncTrait<G::Base, G::Scalar>>::hash_of(
            native.parameters(),
            native.absorbed(),
        ),
        all_some(bit_witnesses(bits)),
        unwrap_all(bit_witnesses(bits)) == <G::HashFuncCircuit as HashFuncCircuitTrait<
            G::Base,
        >>::hash_bits_of(circuit.parameters(), native.absorbed()),
    ensures
        le_bits_value(unwrap_all(bit_witnesses(bits))) == G::scalar_value(hash),
        unwrap_all(bit_witnesses(bits)) == le_bits(G::scalar_value(hash), bits.len()),
{
    G::lemma_modes_agree();
    lemma_le_bits_of_value(unwrap_all(bit_witnesses(bits)));
}

/// Oracles made from fresh constants hold the same parameters in both modes:
/// here `native` and `circuit` are what `new` yields for the constants that
/// `HashFuncConstantsTrait::new` produces for each mode.
pub proof fn lemma_fresh_oracles_share_parameters<G: Group>(
    native_constants: HashFuncConstants<G>,
    circuit_constants: HashFuncConstantsCircuit<G>,
    native: G::HashFunc,
    circuit: G::HashFuncCircuit,
)
    requires
        native_constants.parameters() == <HashFuncConstants<G> as HashFuncConstantsTrait<
            G::Base,
        >>::standard_parameters(),
        circuit_constants.parameters() == <HashFuncConstantsCircuit<
            G,
        > as HashFuncConstantsTrait<G::Base>>::standard_parameters(),
        native.parameters() == native_constants.parameters(),
        circuit.parameters() == circuit_constants.parameters(),
    ensures
        circuit.parameters() == native.parameters(),
{
    G::lemma_modes_agree();
}

} // verus!
