//! Traits that a group, its two fields and its random oracle must satisfy so that
//! a folding scheme can commit to vectors, derive Fiat-Shamir challenges from a
//! transcript, and derive the same challenges again inside a circuit.
//!
//! Every trait carries a mathematical model (its `spec` functions) and states the
//! behaviour of its methods over that model. `Group` also owes its laws, as
//! `proof` functions: that the model is sound, that the operators follow it,
//! and that the two modes of the random oracle agree. A verified implementation
//! defines the model and proves the laws. The model functions have default
//! bodies that leave them unspecified, so that code outside the verifier can
//! implement the traits too; there the laws have nothing to run and are given
//! empty bodies.

pub mod bits;
pub mod cyclic;
pub mod group;
pub mod hash;
pub mod ops;
pub mod transcript;

pub use group::{CompressedGroup, Group};
pub use hash::{
    AbsorbInROTrait, HashFuncCircuitTrait, HashFuncConstants, HashFuncConstantsCircuit,
    HashFuncConstantsTrait, HashFuncTrait,
};
pub use ops::{GroupOps, GroupOpsOwned, ScalarMul, ScalarMulOwned};
pub use transcript::{AppendToTranscriptTrait, ChallengeTrait, FieldRepr};
