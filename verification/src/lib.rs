//! Verified structural core of a small classical molecular-dynamics engine.
//!
//! The engine advances point particles under pairwise forces with a
//! velocity-Verlet integrator. Floating-point force evaluation and
//! integration arithmetic live in the unverified driver; this library owns
//! and verifies everything structural about a simulation step:
//!
//! - which potential a configuration selects, and when selection fails
//!   ([`potential`]);
//! - which unordered particle pairs a force pass visits, exactly once each,
//!   and which particle each visit writes to ([`pairs`]);
//! - the legal order of the three phases of a step: position update, force
//!   computation, velocity update ([`phase`]);
//! - which lattice sites the initial ensemble occupies ([`lattice`]).

pub mod lattice;
pub mod pairs;
pub mod phase;
pub mod potential;
