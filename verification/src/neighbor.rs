//! The spatial index and the geometry engine: exact squared Euclidean
//! distances over fixed-point coordinates, and radius-bounded neighbor
//! queries whose results are pinned down exactly — an atom is returned
//! if and only if it is indexed and lies within the radius, boundary
//! included.

use vstd::prelude::*;

use crate::pdb_parser::{atoms_view, coord_ok, Atom, AtomView};

verus! {

// ---------------------------------------------------------------------------
// Geometry engine
// ---------------------------------------------------------------------------

/// Squared Euclidean distance between two atoms, in squared thousandths
/// of a distance unit.
pub open spec fn dist_sq(a: AtomView, b: AtomView) -> int {
    (a.x - b.x) * (a.x - b.x) + (a.y - b.y) * (a.y - b.y) + (a.z - b.z) * (a.z - b.z)
}

pub proof fn lemma_dist_sq_nonneg(a: AtomView, b: AtomView)
    ensures
        dist_sq(a, b) >= 0,
        dist_sq(a, a) == 0,
{
    assert((a.x - b.x) * (a.x - b.x) >= 0) by (nonlinear_arith);
    assert((a.y - b.y) * (a.y - b.y) >= 0) by (nonlinear_arith);
    assert((a.z - b.z) * (a.z - b.z) >= 0) by (nonlinear_arith);
}

/// Exact squared distance; `i128` holds it for any well-formed
/// coordinates.
pub fn calculate_distance_sq(a: &Atom, b: &Atom) -> (d: i128)
    requires
        coord_ok(a@),
        coord_ok(b@),
    ensures
        d as int == dist_sq(a@, b@),
        d >= 0,
{
    let dx: i128 = a.x as i128 - b.x as i128;
    let dy: i128 = a.y as i128 - b.y as i128;
    let dz: i128 = a.z as i128 - b.z as i128;
    proof {
        assert(dx * dx >= 0 && dx * dx <= 200_000_000_000 * 200_000_000_000) by (nonlinear_arith)
            requires -200_000_000_000 <= dx <= 200_000_000_000;
        assert(dy * dy >= 0 && dy * dy <= 200_000_000_000 * 200_000_000_000) by (nonlinear_arith)
            requires -200_000_000_000 <= dy <= 200_000_000_000;
        assert(dz * dz >= 0 && dz * dz <= 200_000_000_000 * 200_000_000_000) by (nonlinear_arith)
            requires -200_000_000_000 <= dz <= 200_000_000_000;
    }
    dx * dx + dy * dy + dz * dz
}

// ---------------------------------------------------------------------------
// The spatial index
// ---------------------------------------------------------------------------

/// The atoms of `atoms` whose squared distance to `center` is at most
/// `rr`, in index order.
pub open spec fn query_spec(atoms: Seq<AtomView>, center: AtomView, rr: int) -> Seq<AtomView>
    decreases atoms.len(),
{
    if atoms.len() == 0 {
        Seq::<AtomView>::empty()
    } else {
        let rest = query_spec(atoms.drop_last(), center, rr);
        if dist_sq(atoms.last(), center) <= rr {
            rest.push(atoms.last())
        } else {
            rest
        }
    }
}

/// Membership in a radius query is exactly distance within the radius:
/// an atom appears in the result if and only if it is indexed and its
/// squared distance to the center is at most `rr`.
pub proof fn lemma_query_membership(atoms: Seq<AtomView>, center: AtomView, rr: int, b: AtomView)
    ensures
        query_spec(atoms, center, rr).contains(b) <==> (atoms.contains(b) && dist_sq(b, center)
            <= rr),
    decreases atoms.len(),
{
    if atoms.len() > 0 {
        lemma_query_membership(atoms.drop_last(), center, rr, b);
        let rest = query_spec(atoms.drop_last(), center, rr);
        let full = query_spec(atoms, center, rr);
        if dist_sq(atoms.last(), center) <= rr {
            assert(full == rest.push(atoms.last()));
            if full.contains(b) {
                if b == atoms.last() {
                    assert(atoms.contains(b)) by {
                        assert(atoms[atoms.len() - 1] == b);
                    }
                } else {
                    assert(rest.contains(b)) by {
                        let i = choose|i: int| 0 <= i < full.len() && full[i] == b;
                        assert(i < rest.len());
                        assert(rest[i] == b);
                    }
                    assert(atoms.drop_last().contains(b));
                    let j = choose|j: int| 0 <= j < atoms.drop_last().len()
                        && atoms.drop_last()[j] == b;
                    assert(atoms[j] == b);
                }
            }
            if atoms.contains(b) && dist_sq(b, center) <= rr {
                let i = choose|i: int| 0 <= i < atoms.len() && atoms[i] == b;
                if i < atoms.len() - 1 {
                    assert(atoms.drop_last()[i] == b);
                    assert(rest.contains(b));
                    let k = choose|k: int| 0 <= k < rest.len() && rest[k] == b;
                    assert(full[k] == b);
                } else {
                    assert(full[full.len() - 1] == b);
                }
            }
        } else {
            assert(full == rest);
            if full.contains(b) {
                assert(atoms.drop_last().contains(b));
                let j = choose|j: int| 0 <= j < atoms.drop_last().len() && atoms.drop_last()[j]
                    == b;
                assert(atoms[j] == b);
            }
            if atoms.contains(b) && dist_sq(b, center) <= rr {
                let i = choose|i: int| 0 <= i < atoms.len() && atoms[i] == b;
                if i < atoms.len() - 1 {
                    assert(atoms.drop_last()[i] == b);
                } else {
                    assert(atoms.last() == b);
                    assert(false);
                }
            }
        }
    }
}

/// A center that is itself indexed appears in its own query result, for
/// any non-negative radius bound.
pub proof fn lemma_query_self_inclusion(atoms: Seq<AtomView>, center: AtomView, rr: int)
    requires
        atoms.contains(center),
        rr >= 0,
    ensures
        query_spec(atoms, center, rr).contains(center),
{
    lemma_dist_sq_nonneg(center, center);
    lemma_query_membership(atoms, center, rr, center);
}

/// The spatial index: built once over a flat atom list, read-only
/// afterwards, answering radius queries exactly.
pub struct NeighborSearch {
    atoms: Vec<Atom>,
}

impl View for NeighborSearch {
    type V = Seq<AtomView>;

    closed spec fn view(&self) -> Seq<AtomView> {
        atoms_view(self.atoms@)
    }
}

impl NeighborSearch {
    /// All indexed coordinates are within the fixed-point bound, so
    /// squared distances cannot overflow.
    pub open spec fn wf(&self) -> bool {
        forall|i: int| 0 <= i < self@.len() ==> coord_ok(#[trigger] self@[i])
    }

    /// Builds the index over a flat list of atoms; every atom handed in
    /// is indexed, in order.
    pub fn new(atoms: &[Atom]) -> (s: Self)
        ensures
            s@ == atoms_view(atoms@),
            (forall|i: int| 0 <= i < atoms@.len() ==> coord_ok(#[trigger] atoms@[i]@)) ==> s.wf(),
    {
        let mut own: Vec<Atom> = Vec::new();
        let n = atoms.len();
        let mut i: usize = 0;
        while i < n
            invariant
                0 <= i <= n,
                n == atoms@.len(),
                own@.len() == i,
                forall|j: int| 0 <= j < i ==> own@[j] == atoms@[j],
            decreases n - i,
        {
            let a = atoms[i].clone();
            own.push(a);
            i = i + 1;
        }
        let s = NeighborSearch { atoms: own };
        assert(s@ =~= atoms_view(atoms@));
        s
    }

    /// Every indexed atom within `radius` thousandths of the query atom,
    /// boundary included, the query atom itself among them when indexed;
    /// exactly the atoms `query_spec` selects, in index order.
    pub fn search_neighbors(&self, query: &Atom, radius: i64) -> (r: Vec<Atom>)
        requires
            self.wf(),
            coord_ok(query@),
            radius >= 0,
        ensures
            atoms_view(r@) == query_spec(self@, query@, radius as int * radius as int),
    {
        proof {
            assert((radius as i128) * (radius as i128) < 0x8000_0000_0000_0000
                * 0x8000_0000_0000_0000) by (nonlinear_arith)
                requires 0 <= (radius as i128) && (radius as i128) < 0x8000_0000_0000_0000;
        }
        let rr: i128 = radius as i128 * radius as i128;
        let ghost rri = radius as int * radius as int;
        let ghost av = self@;
        let mut r: Vec<Atom> = Vec::new();
        assert(atoms_view(r@) =~= query_spec(av.take(0), query@, rri));
        let mut i: usize = 0;
        while i < self.atoms.len()
            invariant
                0 <= i <= self.atoms@.len(),
                av == atoms_view(self.atoms@),
                av == self@,
                self.wf(),
                coord_ok(query@),
                rr == rri,
                atoms_view(r@) == query_spec(av.take(i as int), query@, rri),
            decreases self.atoms@.len() - i,
        {
            assert(coord_ok(av[i as int]));
            let d = calculate_distance_sq(&self.atoms[i], query);
            proof {
                assert(av.take(i as int + 1).drop_last() =~= av.take(i as int));
                assert(av.take(i as int + 1).last() == av[i as int]);
            }
            if d <= rr {
                let ghost old_r = r@;
                let a = self.atoms[i].clone();
                r.push(a);
                proof {
                    assert(atoms_view(r@) =~= atoms_view(old_r).push(av[i as int]));
                }
            }
            i = i + 1;
        }
        assert(av.take(av.len() as int) =~= av);
        r
    }
}

} // verus!
