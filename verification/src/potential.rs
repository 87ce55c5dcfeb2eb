//! Selection of the pairwise interaction potential.
//!
//! A configuration names its potential with a string. The set of supported
//! potentials is closed, so selection is modelled as a total parse into a
//! tagged variant: `"lj"` selects the Lennard-Jones potential,
//! `"gravitational"` the gravitational one, and any other name is a fatal
//! configuration error that carries the offending name back to the caller.

use vstd::prelude::*;

verus! {

/// The closed set of pairwise potentials the engine supports.
#[derive(Clone, Copy, Debug, PartialEq, Eq, Structural)]
pub enum PotentialKind {
    /// Truncated 12-6 Lennard-Jones interaction.
    LennardJones,
    /// Mass-proportional attraction with no cutoff.
    Gravitational,
}

/// A configuration named a potential that the engine does not support.
/// The offending name is kept for the diagnostic.
#[derive(Debug)]
pub struct UnknownPotential {
    pub name: String,
}

/// The canonical configuration name of each supported potential.
pub open spec fn spec_name(kind: PotentialKind) -> Seq<char> {
    match kind {
        PotentialKind::LennardJones => "lj"@,
        PotentialKind::Gravitational => "gravitational"@,
    }
}

/// What a potential name denotes: the unique kind whose canonical name it
/// is, or nothing.
pub open spec fn spec_parse(name: Seq<char>) -> Option<PotentialKind> {
    if name == spec_name(PotentialKind::LennardJones) {
        Some(PotentialKind::LennardJones)
    } else if name == spec_name(PotentialKind::Gravitational) {
        Some(PotentialKind::Gravitational)
    } else {
        None
    }
}

/// Resolve a configured potential name to its kind. Exactly the canonical
/// names succeed; every other name is rejected and returned inside the
/// error.
pub fn parse_potential(name: &String) -> (r: Result<PotentialKind, UnknownPotential>)
    ensures
        spec_parse(name@) matches Some(kind) ==> r == Ok::<PotentialKind, UnknownPotential>(kind),
        spec_parse(name@) is None ==> (r matches Err(e) && e.name@ == name@),
{
    let lj: String = String::from_str("lj");
    let gravitational: String = String::from_str("gravitational");
    if *name == lj {
        Ok(PotentialKind::LennardJones)
    } else if *name == gravitational {
        Ok(PotentialKind::Gravitational)
    } else {
        proof {
            reveal_strlit("lj");
            reveal_strlit("gravitational");
        }
        Err(UnknownPotential { name: name.clone() })
    }
}

/// The canonical configuration name of a potential kind, as a string slice.
pub fn canonical_name(kind: PotentialKind) -> (r: &'static str)
    ensures
        r@ == spec_name(kind),
{
    match kind {
        PotentialKind::LennardJones => "lj",
        PotentialKind::Gravitational => "gravitational",
    }
}

/// Law: naming is injective into parsing — the canonical name of every
/// supported potential parses back to exactly that potential.
pub proof fn lemma_name_parse_round_trip(kind: PotentialKind)
    ensures
        spec_parse(spec_name(kind)) == Some(kind),
{
    reveal_strlit("lj");
    reveal_strlit("gravitational");
    assert(spec_name(PotentialKind::LennardJones) !=
        spec_name(PotentialKind::Gravitational)) by {
        assert(spec_name(PotentialKind::LennardJones).len() == 2);
        assert(spec_name(PotentialKind::Gravitational).len() == 13);
    }
}

/// The mass-dependent factor of the gravitational pair force: the product
/// of the two particle masses. The remaining, distance-dependent factor of
/// that force is irrational and stays with the unverified evaluator.
pub open spec fn spec_grav_mass_product(m_i: int, m_j: int) -> int {
    m_i * m_j
}

/// Compute the mass product of a gravitational pair exactly, with no
/// overflow: the product of two `i32` masses always fits in an `i64`.
pub fn grav_mass_factor(m_i: i32, m_j: i32) -> (r: i64)
    ensures
        r == spec_grav_mass_product(m_i as int, m_j as int),
{
    proof {
        assert((m_i as int) * (m_j as int) <= i64::MAX
            && (m_i as int) * (m_j as int) >= i64::MIN) by (nonlinear_arith)
            requires
                i32::MIN <= m_i <= i32::MAX,
                i32::MIN <= m_j <= i32::MAX,
        ;
    }
    (m_i as i64) * (m_j as i64)
}

/// Law: the mass-dependent factor of the gravitational pair force is
/// symmetric in the two particles — swapping the masses leaves it
/// unchanged.
pub proof fn lemma_grav_mass_product_symmetric(m_i: int, m_j: int)
    ensures
        spec_grav_mass_product(m_i, m_j) == spec_grav_mass_product(m_j, m_i),
{
}

} // verus!
