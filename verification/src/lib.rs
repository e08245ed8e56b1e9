//! A constraint-based arithmetic circuit engine over the Pallas base field.
//!
//! A circuit is described in two phases. During configuration a
//! [`constraint_system::ConstraintSystem`] collects columns, selectors, gates
//! and lookup arguments; a gate or lookup is a polynomial
//! [`expression::Expression`] over the cells of a row and its neighbours.
//! During synthesis a [`layouter::Layouter`] owns the sealed system and the
//! witness [`grid::Grid`]: chips open regions, assign cells, copy values and
//! switch selectors on. Sealing the layouter gives a
//! [`mock_prover::MockProver`], which checks every gate, lookup argument, copy
//! constraint and instance binding and reports what fails.
//!
//! The field arithmetic is that of `halo2_proofs::pasta::Fp`; see [`field`].
//! What each step does is stated over a model of the state
//! ([`constraint_system::Shape`], [`layouter::Layout`]), and [`soundness`]
//! states what it means for a witness to meet its constraints and proves
//! that the operations of the chips keep it so.
//!
//! The chips and circuits: [`square_sum`], [`optimized`], [`multi_chip`] and
//! [`range_check`].

pub mod column;
pub mod constraint_system;
pub mod error;
pub mod expression;
pub mod field;
pub mod gates;
pub mod grid;
pub mod layouter;
pub mod mock_prover;
pub mod multi_chip;
pub mod optimized;
pub mod range_check;
pub mod soundness;
pub mod square_sum;
