//! Lattice placement of the initial ensemble.
//!
//! A configured object puts its particles on a square patch of an integer
//! lattice: anchored at a corner coordinate, one particle per cell of an
//! `extent × extent` square, walked row-major. The driver scales each
//! integer site by the lattice spacing to obtain the particle's position;
//! which sites exist, in which order, and how many particles an object
//! contributes are decided and verified here.

use vstd::prelude::*;

verus! {

/// Row `row` of a square patch anchored at `a` with edge `d`: the `d`
/// sites `(a + row, a), (a + row, a + 1), …`.
pub open spec fn site_row(a: int, d: int, row: int) -> Seq<(i32, i32)> {
    Seq::new(
        if d > 0 {
            d as nat
        } else {
            0
        },
        |k: int| (((a + row) as i32), ((a + k) as i32)),
    )
}

/// The first `rows` rows of the patch, concatenated in row-major order.
pub open spec fn sites_below(a: int, d: int, rows: int) -> Seq<(i32, i32)>
    decreases rows,
{
    if rows <= 0 {
        Seq::<(i32, i32)>::empty()
    } else {
        sites_below(a, d, rows - 1) + site_row(a, d, rows - 1)
    }
}

/// Every site of the square patch anchored at `a` with edge `d`, row-major.
/// A non-positive edge yields an empty patch.
pub open spec fn lattice_site_seq(a: int, d: int) -> Seq<(i32, i32)> {
    sites_below(
        a,
        d,
        if d > 0 {
            d
        } else {
            0
        },
    )
}

/// Enumerate the sites of the square patch anchored at `anchor` with edge
/// `extent`, in the order the particles are created.
pub fn lattice_sites(anchor: i32, extent: i32) -> (r: Vec<(i32, i32)>)
    requires
        anchor + extent <= i32::MAX,
    ensures
        r@ == lattice_site_seq(anchor as int, extent as int),
{
    let mut r: Vec<(i32, i32)> = Vec::new();
    if extent <= 0 {
        assert(r@ =~= lattice_site_seq(anchor as int, extent as int));
        return r;
    }
    let mut row: i32 = 0;
    while row < extent
        invariant
            0 < extent,
            anchor + extent <= i32::MAX,
            0 <= row <= extent,
            r@ == sites_below(anchor as int, extent as int, row as int),
        decreases extent - row,
    {
        let mut col: i32 = 0;
        while col < extent
            invariant
                0 < extent,
                anchor + extent <= i32::MAX,
                0 <= row < extent,
                0 <= col <= extent,
                r@ == sites_below(anchor as int, extent as int, row as int)
                    + site_row(anchor as int, extent as int, row as int).take(col as int),
            decreases extent - col,
        {
            r.push((anchor + row, anchor + col));
            proof {
                let sr = site_row(anchor as int, extent as int, row as int);
                assert(sr.take(col as int).push((((anchor + row) as i32), ((anchor + col) as i32)))
                    =~= sr.take(col as int + 1));
            }
            col = col + 1;
        }
        proof {
            let sr = site_row(anchor as int, extent as int, row as int);
            assert(sr.take(extent as int) =~= sr);
            assert(sites_below(anchor as int, extent as int, row as int) + sr
                == sites_below(anchor as int, extent as int, row as int + 1));
        }
        row = row + 1;
    }
    r
}

proof fn lemma_sites_below_count(a: int, d: int, rows: int)
    requires
        0 <= rows,
        0 <= d,
    ensures
        sites_below(a, d, rows).len() == rows * d,
    decreases rows,
{
    if rows <= 0 {
        assert(rows * d == 0) by (nonlinear_arith)
            requires rows == 0,
        ;
    } else {
        lemma_sites_below_count(a, d, rows - 1);
        assert((rows - 1) * d + d == rows * d) by (nonlinear_arith);
        assert(sites_below(a, d, rows).len() == (rows - 1) * d + d);
    }
}

/// Law: a square patch of edge `d ≥ 0` holds exactly `d·d` sites — the
/// number of particles a configured object contributes.
pub proof fn lemma_lattice_site_count(a: int, d: int)
    requires
        0 <= d,
    ensures
        lattice_site_seq(a, d).len() == d * d,
{
    lemma_sites_below_count(a, d, d);
}

/// Law: every site of the patch lies inside its square — both coordinates
/// are at least the anchor and strictly below `anchor + edge`.
pub proof fn lemma_sites_inside_square(a: int, d: int)
    requires
        a + d <= i32::MAX,
        i32::MIN <= a,
    ensures
        forall|k: int| 0 <= k < lattice_site_seq(a, d).len()
            ==> a <= (#[trigger] lattice_site_seq(a, d)[k]).0 < a + d
                && a <= lattice_site_seq(a, d)[k].1 < a + d,
{
    if d > 0 {
        lemma_sites_below_inside(a, d, d);
    }
}

proof fn lemma_sites_below_inside(a: int, d: int, rows: int)
    requires
        a + d <= i32::MAX,
        i32::MIN <= a,
        0 <= rows <= d,
    ensures
        forall|k: int| 0 <= k < sites_below(a, d, rows).len()
            ==> a <= (#[trigger] sites_below(a, d, rows)[k]).0 < a + d
                && a <= sites_below(a, d, rows)[k].1 < a + d,
    decreases rows,
{
    if rows > 0 {
        lemma_sites_below_inside(a, d, rows - 1);
        let s = sites_below(a, d, rows - 1);
        let sr = site_row(a, d, rows - 1);
        assert forall|k: int| 0 <= k < sites_below(a, d, rows).len()
            implies a <= (#[trigger] sites_below(a, d, rows)[k]).0 < a + d
                && a <= sites_below(a, d, rows)[k].1 < a + d by {
            if k < s.len() {
                assert(sites_below(a, d, rows)[k] == s[k]);
            } else {
                assert(sites_below(a, d, rows)[k] == sr[k - s.len()]);
            }
        }
    }
}

/// The sites of one configured object, tagged with the object's index so
/// the driver can attach the object's mass and initial velocity.
pub open spec fn tagged_sites(idx: int, a: int, d: int) -> Seq<(usize, i32, i32)> {
    lattice_site_seq(a, d).map(|_k: int, s: (i32, i32)| ((idx as usize), s.0, s.1))
}

/// The placement plan of the first `upto` objects, concatenated in
/// configuration order. Each object is a pair `(anchor, edge)`.
pub open spec fn plan_below(objects: Seq<(i32, i32)>, upto: int) -> Seq<(usize, i32, i32)>
    decreases upto,
{
    if upto <= 0 {
        Seq::<(usize, i32, i32)>::empty()
    } else {
        plan_below(objects, upto - 1)
            + tagged_sites(upto - 1, objects[upto - 1].0 as int, objects[upto - 1].1 as int)
    }
}

/// The placement plan of a whole configuration: for every object in order,
/// every site of its patch in row-major order, tagged with the object's
/// index.
pub open spec fn placement_seq(objects: Seq<(i32, i32)>) -> Seq<(usize, i32, i32)> {
    plan_below(objects, objects.len() as int)
}

/// The number of sites a patch of edge `d` holds: `d·d`, or none for a
/// degenerate edge.
pub open spec fn patch_size(d: int) -> int {
    if d > 0 {
        d * d
    } else {
        0
    }
}

/// The number of particles the first `upto` objects contribute together.
pub open spec fn total_site_count(objects: Seq<(i32, i32)>, upto: int) -> int
    decreases upto,
{
    if upto <= 0 {
        0
    } else {
        total_site_count(objects, upto - 1) + patch_size(objects[upto - 1].1 as int)
    }
}

proof fn lemma_plan_below_count(objects: Seq<(i32, i32)>, upto: int)
    requires
        0 <= upto <= objects.len(),
    ensures
        plan_below(objects, upto).len() == total_site_count(objects, upto),
    decreases upto,
{
    if upto > 0 {
        lemma_plan_below_count(objects, upto - 1);
        let a = objects[upto - 1].0 as int;
        let d = objects[upto - 1].1 as int;
        if d > 0 {
            lemma_lattice_site_count(a, d);
        }
        assert(tagged_sites(upto - 1, a, d).len() == patch_size(d));
    }
}

/// Law: the plan of a configuration holds one entry per lattice site of
/// each object — the ensemble's population is the sum of the objects'
/// squared edges, fixed before the run starts.
pub proof fn lemma_placement_count(objects: Seq<(i32, i32)>)
    ensures
        placement_seq(objects).len() == total_site_count(objects, objects.len() as int),
{
    lemma_plan_below_count(objects, objects.len() as int);
}

proof fn lemma_plan_below_well_formed(objects: Seq<(i32, i32)>, upto: int)
    requires
        0 <= upto <= objects.len() <= usize::MAX,
        forall|t: int| 0 <= t < objects.len()
            ==> (#[trigger] objects[t]).0 + objects[t].1 <= i32::MAX,
    ensures
        forall|k: int| 0 <= k < plan_below(objects, upto).len()
            ==> {
                let entry = #[trigger] plan_below(objects, upto)[k];
                let obj = objects[entry.0 as int];
                &&& (entry.0 as int) < upto
                &&& obj.0 <= entry.1 < obj.0 + obj.1
                &&& obj.0 <= entry.2 < obj.0 + obj.1
            },
    decreases upto,
{
    if upto > 0 {
        lemma_plan_below_well_formed(objects, upto - 1);
        let a = objects[upto - 1].0 as int;
        let d = objects[upto - 1].1 as int;
        lemma_sites_inside_square(a, d);
        let s = plan_below(objects, upto - 1);
        let tagged = tagged_sites(upto - 1, a, d);
        assert forall|k: int| 0 <= k < plan_below(objects, upto).len()
            implies {
                let entry = #[trigger] plan_below(objects, upto)[k];
                let obj = objects[entry.0 as int];
                &&& (entry.0 as int) < upto
                &&& obj.0 <= entry.1 < obj.0 + obj.1
                &&& obj.0 <= entry.2 < obj.0 + obj.1
            } by {
            if k < s.len() {
                assert(plan_below(objects, upto)[k] == s[k]);
            } else {
                let i = k - s.len();
                assert(plan_below(objects, upto)[k] == tagged[i]);
                assert(tagged[i] == (((upto - 1) as usize), lattice_site_seq(a, d)[i].0,
                    lattice_site_seq(a, d)[i].1));
                assert(((upto - 1) as usize) as int == upto - 1);
                assert(a <= lattice_site_seq(a, d)[i].0 < a + d);
                assert(a <= lattice_site_seq(a, d)[i].1 < a + d);
            }
        }
    }
}

/// Law: every plan entry is well formed — its tag names one of the
/// configured objects, and its site lies inside that object's square
/// patch.
pub proof fn lemma_plan_entries_well_formed(objects: Seq<(i32, i32)>)
    requires
        objects.len() <= usize::MAX,
        forall|t: int| 0 <= t < objects.len()
            ==> (#[trigger] objects[t]).0 + objects[t].1 <= i32::MAX,
    ensures
        forall|k: int| 0 <= k < placement_seq(objects).len()
            ==> {
                let entry = #[trigger] placement_seq(objects)[k];
                let obj = objects[entry.0 as int];
                &&& (entry.0 as int) < objects.len()
                &&& obj.0 <= entry.1 < obj.0 + obj.1
                &&& obj.0 <= entry.2 < obj.0 + obj.1
            },
{
    lemma_plan_below_well_formed(objects, objects.len() as int);
}

/// Build the placement plan of a configuration. Each entry names the
/// object that owns the particle and the particle's lattice site; the
/// driver turns sites into positions and objects into masses and initial
/// velocities.
pub fn placement_plan(objects: &Vec<(i32, i32)>) -> (r: Vec<(usize, i32, i32)>)
    requires
        forall|t: int| 0 <= t < objects@.len()
            ==> (#[trigger] objects@[t]).0 + objects@[t].1 <= i32::MAX,
    ensures
        r@ == placement_seq(objects@),
{
    let mut r: Vec<(usize, i32, i32)> = Vec::new();
    let mut t: usize = 0;
    while t < objects.len()
        invariant
            t <= objects@.len(),
            forall|u: int| 0 <= u < objects@.len()
                ==> (#[trigger] objects@[u]).0 + objects@[u].1 <= i32::MAX,
            r@ == plan_below(objects@, t as int),
        decreases objects@.len() - t,
    {
        let anchor = objects[t].0;
        let extent = objects[t].1;
        let sites = lattice_sites(anchor, extent);
        let ghost tagged = tagged_sites(t as int, anchor as int, extent as int);
        let mut u: usize = 0;
        while u < sites.len()
            invariant
                t < objects@.len(),
                u <= sites@.len(),
                sites@ == lattice_site_seq(anchor as int, extent as int),
                tagged == tagged_sites(t as int, anchor as int, extent as int),
                r@ == plan_below(objects@, t as int) + tagged.take(u as int),
            decreases sites@.len() - u,
        {
            let site = sites[u];
            r.push((t, site.0, site.1));
            proof {
                assert(tagged[u as int] == (t, site.0, site.1));
                assert(tagged.take(u as int).push((t, site.0, site.1))
                    =~= tagged.take(u as int + 1));
            }
            u = u + 1;
        }
        proof {
            assert(tagged.take(sites@.len() as int) =~= tagged);
            assert(plan_below(objects@, t as int) + tagged
                == plan_below(objects@, t as int + 1));
        }
        t = t + 1;
    }
    r
}

} // verus!
