//! The donor/acceptor classifier and the candidate detector: around
//! every tryptophan residue anchored by its indole nitrogen, a coarse
//! radius query gathers a neighborhood, the center and coincident atoms
//! are excluded, and the result is a deduplicated set of neighbor keys
//! together with its hydrogen-bond donor-qualifying subset.

use vstd::prelude::*;

use crate::pdb_parser::{
    atoms_view, coord_ok, find_atom, models_view, structure_atoms, structure_ok,
    Atom, AtomView, Chain, ChainView, Model, ModelView, Residue, ResidueView, Structure,
    StructureView, atoms_in_chains, atoms_in_models, atoms_in_residues, chains_view,
    residues_view,
};
use crate::neighbor::{calculate_distance_sq, dist_sq, query_spec, NeighborSearch};
use crate::text::str_eq;

verus! {

// ---------------------------------------------------------------------------
// Donor classifier
// ---------------------------------------------------------------------------

/// The static side-chain hydrogen-bond donor table: exact,
/// case-sensitive (residue name, atom name) pairs.
pub open spec fn is_donor_spec(res: Seq<char>, atom: Seq<char>) -> bool {
    ||| (res == "ARG"@ && atom == "NE"@)
    ||| (res == "ARG"@ && atom == "NH1"@)
    ||| (res == "ARG"@ && atom == "NH2"@)
    ||| (res == "ASN"@ && atom == "ND2"@)
    ||| (res == "ASX"@ && atom == "ND2"@)
    ||| (res == "CYS"@ && atom == "SG"@)
    ||| (res == "GLN"@ && atom == "NE2"@)
    ||| (res == "GLX"@ && atom == "NE2"@)
    ||| (res == "HIS"@ && atom == "ND1"@)
    ||| (res == "HSE"@ && atom == "NE2"@)
    ||| (res == "HSP"@ && atom == "ND1"@)
    ||| (res == "HSP"@ && atom == "NE2"@)
    ||| (res == "LYS"@ && atom == "NZ"@)
    ||| (res == "SER"@ && atom == "OG"@)
    ||| (res == "THR"@ && atom == "OG1"@)
    ||| (res == "TRP"@ && atom == "NE1"@)
    ||| (res == "TYR"@ && atom == "OH"@)
}

/// Membership in the donor table, exactly as `is_donor_spec` lists it.
pub fn is_donor(res_name: &str, atom_name: &str) -> (r: bool)
    ensures
        r == is_donor_spec(res_name@, atom_name@),
{
    (str_eq(res_name, "ARG") && str_eq(atom_name, "NE")) || (str_eq(res_name, "ARG") && str_eq(
        atom_name,
        "NH1",
    )) || (str_eq(res_name, "ARG") && str_eq(atom_name, "NH2")) || (str_eq(res_name, "ASN")
        && str_eq(atom_name, "ND2")) || (str_eq(res_name, "ASX") && str_eq(atom_name, "ND2")) || (
    str_eq(res_name, "CYS") && str_eq(atom_name, "SG")) || (str_eq(res_name, "GLN") && str_eq(
        atom_name,
        "NE2",
    )) || (str_eq(res_name, "GLX") && str_eq(atom_name, "NE2")) || (str_eq(res_name, "HIS")
        && str_eq(atom_name, "ND1")) || (str_eq(res_name, "HSE") && str_eq(atom_name, "NE2")) || (
    str_eq(res_name, "HSP") && str_eq(atom_name, "ND1")) || (str_eq(res_name, "HSP") && str_eq(
        atom_name,
        "NE2",
    )) || (str_eq(res_name, "LYS") && str_eq(atom_name, "NZ")) || (str_eq(res_name, "SER")
        && str_eq(atom_name, "OG")) || (str_eq(res_name, "THR") && str_eq(atom_name, "OG1")) || (
    str_eq(res_name, "TRP") && str_eq(atom_name, "NE1")) || (str_eq(res_name, "TYR") && str_eq(
        atom_name,
        "OH",
    ))
}

// ---------------------------------------------------------------------------
// Neighbor keys and deduplication
// ---------------------------------------------------------------------------

/// The identity tuple under which discovered neighbors are
/// deduplicated.
#[derive(Debug)]
pub struct NeighborKey {
    pub atom_name: String,
    pub res_name: String,
    pub chain_id: char,
    pub model_serial: i64,
    pub res_seq: i64,
    pub serial: i64,
}

#[verifier::ext_equal]
pub ghost struct NeighborKeyView {
    pub atom_name: Seq<char>,
    pub res_name: Seq<char>,
    pub chain_id: char,
    pub model_serial: int,
    pub res_seq: int,
    pub serial: int,
}

impl View for NeighborKey {
    type V = NeighborKeyView;

    open spec fn view(&self) -> NeighborKeyView {
        NeighborKeyView {
            atom_name: self.atom_name@,
            res_name: self.res_name@,
            chain_id: self.chain_id,
            model_serial: self.model_serial as int,
            res_seq: self.res_seq as int,
            serial: self.serial as int,
        }
    }
}

impl Clone for NeighborKey {
    /// An exact copy.
    fn clone(&self) -> (res: Self)
        ensures
            res == *self,
    {
        NeighborKey {
            atom_name: self.atom_name.clone(),
            res_name: self.res_name.clone(),
            chain_id: self.chain_id,
            model_serial: self.model_serial,
            res_seq: self.res_seq,
            serial: self.serial,
        }
    }
}

/// The key of an atom discovered while scanning the model with the
/// given serial number.
pub open spec fn key_of(a: AtomView, model_serial: int) -> NeighborKeyView {
    NeighborKeyView {
        atom_name: a.name,
        res_name: a.res_name,
        chain_id: a.chain_id,
        model_serial,
        res_seq: a.res_seq,
        serial: a.serial,
    }
}

pub open spec fn keys_view(s: Seq<NeighborKey>) -> Seq<NeighborKeyView> {
    s.map_values(|k: NeighborKey| k@)
}

pub open spec fn keys_of(atoms: Seq<AtomView>, model_serial: int) -> Seq<NeighborKeyView> {
    atoms.map_values(|a: AtomView| key_of(a, model_serial))
}

/// First occurrences kept, later repetitions dropped.
pub open spec fn dedup<A>(s: Seq<A>) -> Seq<A>
    decreases s.len(),
{
    if s.len() == 0 {
        Seq::<A>::empty()
    } else {
        let rest = dedup(s.drop_last());
        if s.drop_last().contains(s.last()) {
            rest
        } else {
            rest.push(s.last())
        }
    }
}

/// Deduplication keeps exactly the members of the input.
pub proof fn lemma_dedup_membership<A>(s: Seq<A>, x: A)
    ensures
        dedup(s).contains(x) <==> s.contains(x),
    decreases s.len(),
{
    if s.len() > 0 {
        lemma_dedup_membership(s.drop_last(), x);
        let rest = dedup(s.drop_last());
        let full = dedup(s);
        if s.drop_last().contains(s.last()) {
            if s.contains(x) {
                let i = choose|i: int| 0 <= i < s.len() && s[i] == x;
                if i < s.len() - 1 {
                    assert(s.drop_last()[i] == x);
                } else {
                    assert(s.last() == x);
                    assert(s.drop_last().contains(x));
                }
            }
            if full.contains(x) {
                assert(s.drop_last().contains(x));
                let j = choose|j: int| 0 <= j < s.drop_last().len() && s.drop_last()[j] == x;
                assert(s[j] == x);
            }
        } else {
            if s.contains(x) {
                let i = choose|i: int| 0 <= i < s.len() && s[i] == x;
                if i < s.len() - 1 {
                    assert(s.drop_last()[i] == x);
                    assert(rest.contains(x));
                    let k = choose|k: int| 0 <= k < rest.len() && rest[k] == x;
                    assert(full[k] == x);
                } else {
                    assert(full[full.len() - 1] == x);
                }
            }
            if full.contains(x) {
                let k = choose|k: int| 0 <= k < full.len() && full[k] == x;
                if k < rest.len() {
                    assert(rest[k] == x);
                    assert(s.drop_last().contains(x));
                    let j = choose|j: int| 0 <= j < s.drop_last().len() && s.drop_last()[j] == x;
                    assert(s[j] == x);
                } else {
                    assert(s.last() == x);
                    assert(s[s.len() - 1] == x);
                }
            }
        }
    }
}

/// A deduplicated sequence holds no two equal entries.
pub proof fn lemma_dedup_distinct<A>(s: Seq<A>)
    ensures
        forall|i: int, j: int|
            0 <= i < j < dedup(s).len() ==> dedup(s)[i] != dedup(s)[j],
    decreases s.len(),
{
    if s.len() > 0 {
        lemma_dedup_distinct(s.drop_last());
        let rest = dedup(s.drop_last());
        let full = dedup(s);
        if !s.drop_last().contains(s.last()) {
            lemma_dedup_membership(s.drop_last(), s.last());
            assert(!rest.contains(s.last()));
            assert forall|i: int, j: int| 0 <= i < j < full.len() implies full[i] != full[j] by {
                if j < full.len() - 1 {
                    assert(rest[i] == full[i] && rest[j] == full[j]);
                } else {
                    assert(full[j] == s.last());
                    assert(rest[i] == full[i]);
                    if full[i] == s.last() {
                        assert(rest.contains(s.last()));
                    }
                }
            }
        }
    }
}

/// Deduplicates a sequence of neighbor keys, keeping first occurrences
/// in order.
pub fn dedup_keys(keys: &Vec<NeighborKey>) -> (r: Vec<NeighborKey>)
    ensures
        keys_view(r@) == dedup(keys_view(keys@)),
{
    let ghost kv = keys_view(keys@);
    let mut r: Vec<NeighborKey> = Vec::new();
    assert(keys_view(r@) =~= dedup(kv.take(0)));
    let mut i: usize = 0;
    while i < keys.len()
        invariant
            0 <= i <= keys@.len(),
            kv == keys_view(keys@),
            keys_view(r@) == dedup(kv.take(i as int)),
        decreases keys@.len() - i,
    {
        proof {
            assert(kv.take(i as int + 1).drop_last() =~= kv.take(i as int));
            assert(kv.take(i as int + 1).last() == kv[i as int]);
            lemma_dedup_membership(kv.take(i as int), kv[i as int]);
        }
        let fresh = !contains_key(&r, &keys[i]);
        if fresh {
            let ghost old_r = r@;
            let k = keys[i].clone();
            r.push(k);
            proof {
                assert(keys_view(r@) =~= keys_view(old_r).push(kv[i as int]));
            }
        }
        i = i + 1;
    }
    assert(kv.take(kv.len() as int) =~= kv);
    r
}

/// Equality of two neighbor keys at the level of views.
pub fn key_eq(a: &NeighborKey, b: &NeighborKey) -> (r: bool)
    ensures
        r == (a@ == b@),
{
    let r = str_eq(a.atom_name.as_str(), b.atom_name.as_str()) && str_eq(
        a.res_name.as_str(),
        b.res_name.as_str(),
    ) && a.chain_id == b.chain_id && a.model_serial == b.model_serial && a.res_seq == b.res_seq
        && a.serial == b.serial;
    proof {
        if r {
            assert(a@ =~= b@);
        }
    }
    r
}

/// Whether a key with the same identity tuple is already present.
pub fn contains_key(v: &Vec<NeighborKey>, k: &NeighborKey) -> (r: bool)
    ensures
        r == keys_view(v@).contains(k@),
{
    let ghost kv = keys_view(v@);
    let mut i: usize = 0;
    while i < v.len()
        invariant
            0 <= i <= v@.len(),
            kv == keys_view(v@),
            forall|j: int| 0 <= j < i ==> kv[j] != k@,
        decreases v@.len() - i,
    {
        if key_eq(&v[i], k) {
            assert(kv[i as int] == k@);
            return true;
        }
        i = i + 1;
    }
    assert(!kv.contains(k@)) by {
        if kv.contains(k@) {
            let j = choose|j: int| 0 <= j < kv.len() && kv[j] == k@;
        }
    }
    false
}

// ---------------------------------------------------------------------------
// Candidate detector
// ---------------------------------------------------------------------------

/// The coarse neighborhood cutoff, 12.0 distance units in thousandths.
pub const COARSE_RADIUS_MILLI: i64 = 12000;

/// The atoms of the sequence at positive distance from the center:
/// the center itself and any atom coincident with it are excluded.
pub open spec fn pos_filter(atoms: Seq<AtomView>, center: AtomView) -> Seq<AtomView>
    decreases atoms.len(),
{
    if atoms.len() == 0 {
        Seq::<AtomView>::empty()
    } else {
        let rest = pos_filter(atoms.drop_last(), center);
        if dist_sq(atoms.last(), center) > 0 {
            rest.push(atoms.last())
        } else {
            rest
        }
    }
}

/// The donor-qualifying keys, in order.
pub open spec fn donor_keys(ks: Seq<NeighborKeyView>) -> Seq<NeighborKeyView>
    decreases ks.len(),
{
    if ks.len() == 0 {
        Seq::<NeighborKeyView>::empty()
    } else {
        let rest = donor_keys(ks.drop_last());
        if is_donor_spec(ks.last().res_name, ks.last().atom_name) {
            rest.push(ks.last())
        } else {
            rest
        }
    }
}

/// One detected tryptophan site: the identifying metadata of the
/// residue and its indole nitrogen, the deduplicated neighbor set, and
/// the donor-qualifying subset.
#[derive(Debug)]
pub struct TrpSite {
    pub model_serial: i64,
    pub chain_id: char,
    pub res_id: i64,
    pub res_name: String,
    pub ne1: Atom,
    pub unique_neighbors: Vec<NeighborKey>,
    pub donor_neighbors: Vec<NeighborKey>,
}

#[verifier::ext_equal]
pub ghost struct TrpSiteView {
    pub model_serial: int,
    pub chain_id: char,
    pub res_id: int,
    pub res_name: Seq<char>,
    pub ne1: AtomView,
    pub unique: Seq<NeighborKeyView>,
    pub donors: Seq<NeighborKeyView>,
}

impl View for TrpSite {
    type V = TrpSiteView;

    open spec fn view(&self) -> TrpSiteView {
        TrpSiteView {
            model_serial: self.model_serial as int,
            chain_id: self.chain_id,
            res_id: self.res_id as int,
            res_name: self.res_name@,
            ne1: self.ne1@,
            unique: keys_view(self.unique_neighbors@),
            donors: keys_view(self.donor_neighbors@),
        }
    }
}

pub open spec fn sites_view(s: Seq<TrpSite>) -> Seq<TrpSiteView> {
    s.map_values(|t: TrpSite| t@)
}

/// The site detected around one anchored residue: neighbors within the
/// cutoff, the center and coincident atoms excluded, deduplicated by
/// identity tuple; donors are the donor-qualifying subset.
pub open spec fn make_site(
    m: ModelView,
    c: ChainView,
    r: ResidueView,
    ne1: AtomView,
    all: Seq<AtomView>,
    rr: int,
) -> TrpSiteView {
    let nbrs = pos_filter(query_spec(all, ne1, rr), ne1);
    let unique = dedup(keys_of(nbrs, m.serial));
    TrpSiteView {
        model_serial: m.serial,
        chain_id: c.id,
        res_id: r.id,
        res_name: r.name,
        ne1,
        unique,
        donors: donor_keys(unique),
    }
}

/// A detected site's unique-neighbor set holds no duplicate identity
/// tuples, and its donor subset holds only donor-qualifying members of
/// it.
pub proof fn lemma_site_sets(
    m: ModelView,
    c: ChainView,
    r: ResidueView,
    ne1: AtomView,
    all: Seq<AtomView>,
    rr: int,
)
    ensures
        ({
            let site = make_site(m, c, r, ne1, all, rr);
            &&& forall|i: int, j: int|
                0 <= i < j < site.unique.len() ==> site.unique[i] != site.unique[j]
            &&& forall|i: int|
                0 <= i < site.donors.len() ==> #[trigger] site.unique.contains(site.donors[i])
                    && is_donor_spec(site.donors[i].res_name, site.donors[i].atom_name)
        }),
{
    let site = make_site(m, c, r, ne1, all, rr);
    let ks = keys_of(pos_filter(query_spec(all, ne1, rr), ne1), m.serial);
    lemma_dedup_distinct(ks);
    assert(site.unique == dedup(ks));
    assert forall|i: int, j: int| 0 <= i < j < site.unique.len() implies site.unique[i]
        != site.unique[j] by {
        assert(dedup(ks)[i] != dedup(ks)[j]);
    }
    lemma_donor_keys_members(site.unique);
    assert(site.donors == donor_keys(site.unique));
    assert forall|i: int| 0 <= i < site.donors.len() implies #[trigger] site.unique.contains(
        site.donors[i],
    ) && is_donor_spec(site.donors[i].res_name, site.donors[i].atom_name) by {
        assert(site.unique.contains(donor_keys(site.unique)[i]));
        assert(is_donor_spec(
            donor_keys(site.unique)[i].res_name,
            donor_keys(site.unique)[i].atom_name,
        ));
    }
}

/// Every donor-qualifying key comes from the sequence it was filtered
/// out of.
proof fn lemma_donor_keys_members(ks: Seq<NeighborKeyView>)
    ensures
        forall|i: int|
            0 <= i < donor_keys(ks).len() ==> #[trigger] ks.contains(donor_keys(ks)[i])
                && is_donor_spec(donor_keys(ks)[i].res_name, donor_keys(ks)[i].atom_name),
    decreases ks.len(),
{
    if ks.len() > 0 {
        lemma_donor_keys_members(ks.drop_last());
        let front = donor_keys(ks.drop_last());
        let full = donor_keys(ks);
        assert forall|i: int| 0 <= i < full.len() implies #[trigger] ks.contains(full[i])
            && is_donor_spec(full[i].res_name, full[i].atom_name) by {
            if i < front.len() {
                assert(full[i] == front[i]);
                assert(ks.drop_last().contains(front[i]));
                let j = choose|j: int|
                    0 <= j < ks.drop_last().len() && ks.drop_last()[j] == front[i];
                assert(ks[j] == front[i]);
            } else {
                assert(full[i] == ks.last());
                assert(ks[ks.len() - 1] == ks.last());
            }
        }
    }
}

/// Zero or one site for a residue: only a tryptophan with an indole
/// nitrogen atom anchors a search; a tryptophan lacking it is skipped.
pub open spec fn residue_site(
    m: ModelView,
    c: ChainView,
    r: ResidueView,
    all: Seq<AtomView>,
    rr: int,
) -> Seq<TrpSiteView> {
    if r.name == "TRP"@ {
        match find_atom(r.atoms, "NE1"@) {
            Some(ne1) => seq![make_site(m, c, r, ne1, all, rr)],
            None => Seq::<TrpSiteView>::empty(),
        }
    } else {
        Seq::<TrpSiteView>::empty()
    }
}

pub open spec fn sites_in_residues(
    m: ModelView,
    c: ChainView,
    rs: Seq<ResidueView>,
    all: Seq<AtomView>,
    rr: int,
) -> Seq<TrpSiteView>
    decreases rs.len(),
{
    if rs.len() == 0 {
        Seq::<TrpSiteView>::empty()
    } else {
        sites_in_residues(m, c, rs.drop_last(), all, rr) + residue_site(m, c, rs.last(), all, rr)
    }
}

pub open spec fn sites_in_chains(
    m: ModelView,
    cs: Seq<ChainView>,
    all: Seq<AtomView>,
    rr: int,
) -> Seq<TrpSiteView>
    decreases cs.len(),
{
    if cs.len() == 0 {
        Seq::<TrpSiteView>::empty()
    } else {
        sites_in_chains(m, cs.drop_last(), all, rr) + sites_in_residues(
            m,
            cs.last(),
            cs.last().residues,
            all,
            rr,
        )
    }
}

pub open spec fn sites_in_models(ms: Seq<ModelView>, all: Seq<AtomView>, rr: int) -> Seq<
    TrpSiteView,
>
    decreases ms.len(),
{
    if ms.len() == 0 {
        Seq::<TrpSiteView>::empty()
    } else {
        sites_in_models(ms.drop_last(), all, rr) + sites_in_chains(
            ms.last(),
            ms.last().chains,
            all,
            rr,
        )
    }
}

/// Meaning of the whole detection pass: every tryptophan residue of
/// every chain of every model, anchored on its indole nitrogen,
/// searched against the flat atom list of the whole structure.
pub open spec fn neighbour_search_spec(s: StructureView, rr: int) -> Seq<TrpSiteView> {
    sites_in_models(s.models, structure_atoms(s), rr)
}

/// Flattens a structure into its atom list, over all models, in file
/// order.
pub fn collect_atoms(structure: &Structure) -> (r: Vec<Atom>)
    ensures
        atoms_view(r@) == structure_atoms(structure@),
{
    let ghost ms = structure@.models;
    let mut r: Vec<Atom> = Vec::new();
    assert(atoms_view(r@) =~= atoms_in_models(ms.take(0)));
    let mut mi: usize = 0;
    while mi < structure.models.len()
        invariant
            0 <= mi <= structure.models@.len(),
            ms == models_view(structure.models@),
            atoms_view(r@) == atoms_in_models(ms.take(mi as int)),
        decreases structure.models@.len() - mi,
    {
        let model = &structure.models[mi];
        let ghost cs = model@.chains;
        let ghost base0 = atoms_in_models(ms.take(mi as int));
        assert(atoms_view(r@) =~= base0 + atoms_in_chains(cs.take(0)));
        let mut ci: usize = 0;
        while ci < model.chains.len()
            invariant
                0 <= ci <= model.chains@.len(),
                cs == chains_view(model.chains@),
                atoms_view(r@) == base0 + atoms_in_chains(cs.take(ci as int)),
            decreases model.chains@.len() - ci,
        {
            let chain = &model.chains[ci];
            let ghost rs = chain@.residues;
            let ghost base1 = base0 + atoms_in_chains(cs.take(ci as int));
            assert(atoms_view(r@) =~= base1 + atoms_in_residues(rs.take(0)));
            let mut ri: usize = 0;
            while ri < chain.residues.len()
                invariant
                    0 <= ri <= chain.residues@.len(),
                    rs == residues_view(chain.residues@),
                    atoms_view(r@) == base1 + atoms_in_residues(rs.take(ri as int)),
                decreases chain.residues@.len() - ri,
            {
                let residue = &chain.residues[ri];
                let ghost atoms = residue@.atoms;
                let ghost base2 = base1 + atoms_in_residues(rs.take(ri as int));
                assert(atoms_view(r@) =~= base2 + atoms.take(0));
                let mut ai: usize = 0;
                while ai < residue.atoms.len()
                    invariant
                        0 <= ai <= residue.atoms@.len(),
                        atoms == atoms_view(residue.atoms@),
                        atoms_view(r@) == base2 + atoms.take(ai as int),
                    decreases residue.atoms@.len() - ai,
                {
                    let ghost old_r = r@;
                    let a = residue.atoms[ai].clone();
                    r.push(a);
                    proof {
                        assert(atoms_view(r@) =~= atoms_view(old_r).push(atoms[ai as int]));
                        assert(base2 + atoms.take(ai as int + 1) =~= (base2 + atoms.take(
                            ai as int,
                        )).push(atoms[ai as int]));
                    }
                    ai = ai + 1;
                }
                proof {
                    assert(atoms.take(atoms.len() as int) =~= atoms);
                    assert(rs.take(ri as int + 1).drop_last() =~= rs.take(ri as int));
                    assert(rs.take(ri as int + 1).last() == rs[ri as int]);
                    assert(base1 + atoms_in_residues(rs.take(ri as int + 1)) =~= base2 + atoms);
                }
                ri = ri + 1;
            }
            proof {
                assert(rs.take(rs.len() as int) =~= rs);
                assert(cs.take(ci as int + 1).drop_last() =~= cs.take(ci as int));
                assert(cs.take(ci as int + 1).last() == cs[ci as int]);
                assert(base0 + atoms_in_chains(cs.take(ci as int + 1)) =~= base1
                    + atoms_in_residues(rs));
            }
            ci = ci + 1;
        }
        proof {
            assert(cs.take(cs.len() as int) =~= cs);
            assert(ms.take(mi as int + 1).drop_last() =~= ms.take(mi as int));
            assert(ms.take(mi as int + 1).last() == ms[mi as int]);
            assert(atoms_in_models(ms.take(mi as int + 1)) =~= base0 + atoms_in_chains(cs));
        }
        mi = mi + 1;
    }
    assert(ms.take(ms.len() as int) =~= ms);
    r
}

/// Parses a structure text and runs the detection pass over it: the
/// whole pipeline from raw text in memory to candidate sites.  The
/// parsed structure's coordinates are in bounds by construction, so
/// the detector's precondition holds without any check.
pub fn analyze_structure(content: &str) -> (r: Result<Vec<TrpSite>, crate::pdb_parser::ParseError>)
    ensures
        match r {
            Ok(sites) => crate::pdb_parser::parse_pdb_spec(content@) is Ok && sites_view(sites@)
                == neighbour_search_spec(
                crate::pdb_parser::parse_pdb_spec(content@)->Ok_0,
                COARSE_RADIUS_MILLI as int * COARSE_RADIUS_MILLI as int,
            ),
            Err(e) => crate::pdb_parser::parse_pdb_spec(content@) == Err::<
                StructureView,
                Seq<char>,
            >(e.line@),
        },
{
    match crate::pdb_parser::parse_pdb_file(content) {
        Ok(s) => {
            proof {
                crate::pdb_parser::lemma_parse_grouped(content@);
            }
            Ok(neighbour_search(&s))
        },
        Err(e) => Err(e),
    }
}

/// An atom of any listed residue is among the flattened atoms.
proof fn lemma_atoms_in_residues_contains(rs: Seq<ResidueView>, k: int, x: AtomView)
    requires
        0 <= k < rs.len(),
        rs[k].atoms.contains(x),
    ensures
        atoms_in_residues(rs).contains(x),
    decreases rs.len(),
{
    if k == rs.len() - 1 {
        let j = choose|j: int| 0 <= j < rs[k].atoms.len() && rs[k].atoms[j] == x;
        assert(atoms_in_residues(rs)[atoms_in_residues(rs.drop_last()).len() + j] == x);
    } else {
        assert(rs.drop_last()[k] == rs[k]);
        lemma_atoms_in_residues_contains(rs.drop_last(), k, x);
        let j = choose|j: int|
            0 <= j < atoms_in_residues(rs.drop_last()).len() && atoms_in_residues(
                rs.drop_last(),
            )[j] == x;
        assert(atoms_in_residues(rs)[j] == x);
    }
}

/// An atom of any residue of any listed chain is among the flattened
/// atoms.
proof fn lemma_atoms_in_chains_contains(cs: Seq<ChainView>, k: int, x: AtomView)
    requires
        0 <= k < cs.len(),
        atoms_in_residues(cs[k].residues).contains(x),
    ensures
        atoms_in_chains(cs).contains(x),
    decreases cs.len(),
{
    if k == cs.len() - 1 {
        let j = choose|j: int|
            0 <= j < atoms_in_residues(cs[k].residues).len() && atoms_in_residues(
                cs[k].residues,
            )[j] == x;
        assert(atoms_in_chains(cs)[atoms_in_chains(cs.drop_last()).len() + j] == x);
    } else {
        assert(cs.drop_last()[k] == cs[k]);
        lemma_atoms_in_chains_contains(cs.drop_last(), k, x);
        let j = choose|j: int|
            0 <= j < atoms_in_chains(cs.drop_last()).len() && atoms_in_chains(cs.drop_last())[j]
                == x;
        assert(atoms_in_chains(cs)[j] == x);
    }
}

/// An atom of any chain of any listed model is among the flattened
/// atoms.
proof fn lemma_atoms_in_models_contains(ms: Seq<ModelView>, k: int, x: AtomView)
    requires
        0 <= k < ms.len(),
        atoms_in_chains(ms[k].chains).contains(x),
    ensures
        atoms_in_models(ms).contains(x),
    decreases ms.len(),
{
    if k == ms.len() - 1 {
        let j = choose|j: int|
            0 <= j < atoms_in_chains(ms[k].chains).len() && atoms_in_chains(ms[k].chains)[j] == x;
        assert(atoms_in_models(ms)[atoms_in_models(ms.drop_last()).len() + j] == x);
    } else {
        assert(ms.drop_last()[k] == ms[k]);
        lemma_atoms_in_models_contains(ms.drop_last(), k, x);
        let j = choose|j: int|
            0 <= j < atoms_in_models(ms.drop_last()).len() && atoms_in_models(ms.drop_last())[j]
                == x;
        assert(atoms_in_models(ms)[j] == x);
    }
}

/// In a structure whose coordinates are all in bounds, any member of
/// the flattened atom list is in bounds.
proof fn lemma_structure_ok_member(s: StructureView, x: AtomView)
    requires
        structure_ok(s),
        structure_atoms(s).contains(x),
    ensures
        coord_ok(x),
{
    let i = choose|i: int| 0 <= i < structure_atoms(s).len() && structure_atoms(s)[i] == x;
    assert(coord_ok(structure_atoms(s)[i]));
}

/// Checks the coordinate bound of every atom, so that unverified
/// callers can establish `structure_ok` before a detection pass.
pub fn structure_coords_ok(structure: &Structure) -> (r: bool)
    ensures
        r == structure_ok(structure@),
{
    let all = collect_atoms(structure);
    let ghost av = structure_atoms(structure@);
    let mut i: usize = 0;
    while i < all.len()
        invariant
            0 <= i <= all@.len(),
            av == atoms_view(all@),
            av == structure_atoms(structure@),
            forall|j: int| 0 <= j < i ==> coord_ok(#[trigger] av[j]),
        decreases all@.len() - i,
    {
        let a = &all[i];
        let ok = -100_000_000_000 <= a.x && a.x <= 100_000_000_000 && -100_000_000_000 <= a.y
            && a.y <= 100_000_000_000 && -100_000_000_000 <= a.z && a.z <= 100_000_000_000;
        if !ok {
            assert(!coord_ok(av[i as int]));
            return false;
        }
        i = i + 1;
    }
    true
}

/// Detects the site anchored at one residue, against an index holding
/// the structure's flat atom list.
fn detect_site(search: &NeighborSearch, model: &Model, chain: &Chain, residue: &Residue) -> (r:
    Option<TrpSite>)
    requires
        search.wf(),
        forall|i: int| 0 <= i < residue@.atoms.len() ==> coord_ok(#[trigger] residue@.atoms[i]),
    ensures
        match r {
            Some(site) => residue_site(
                model@,
                chain@,
                residue@,
                search@,
                COARSE_RADIUS_MILLI as int * COARSE_RADIUS_MILLI as int,
            ) == seq![site@],
            None => residue_site(
                model@,
                chain@,
                residue@,
                search@,
                COARSE_RADIUS_MILLI as int * COARSE_RADIUS_MILLI as int,
            ) == Seq::<TrpSiteView>::empty(),
        },
{
    let ghost rri = COARSE_RADIUS_MILLI as int * COARSE_RADIUS_MILLI as int;
    let ghost all_v = search@;
    if !str_eq(residue.name.as_str(), "TRP") {
        return None;
    }
    let ne1_ref = match residue.get_atom_by_name("NE1") {
        Some(a) => a,
        None => {
            return None;
        },
    };
    let ghost ne1v = ne1_ref@;
    proof {
        crate::pdb_parser::lemma_find_atom_member(residue@.atoms, "NE1"@);
        let i = choose|i: int| 0 <= i < residue@.atoms.len() && residue@.atoms[i] == ne1v;
        assert(coord_ok(residue@.atoms[i]));
    }
    let neighbors = search.search_neighbors(ne1_ref, COARSE_RADIUS_MILLI);
    let ghost qv = atoms_view(neighbors@);
    let ghost msv = model@.serial;
    let mut unique: Vec<NeighborKey> = Vec::new();
    let mut donors: Vec<NeighborKey> = Vec::new();
    assert(pos_filter(qv.take(0), ne1v) =~= Seq::<AtomView>::empty());
    assert(keys_of(pos_filter(qv.take(0), ne1v), msv) =~= Seq::<NeighborKeyView>::empty());
    assert(keys_view(unique@) =~= dedup(keys_of(pos_filter(qv.take(0), ne1v), msv)));
    assert(keys_view(donors@) =~= donor_keys(dedup(keys_of(pos_filter(qv.take(0), ne1v), msv))));
    let mut ni: usize = 0;
    while ni < neighbors.len()
        invariant
            0 <= ni <= neighbors@.len(),
            qv == atoms_view(neighbors@),
            qv == query_spec(all_v, ne1v, rri),
            all_v == search@,
            search.wf(),
            ne1v == ne1_ref@,
            coord_ok(ne1v),
            msv == model@.serial,
            keys_view(unique@) == dedup(keys_of(pos_filter(qv.take(ni as int), ne1v), msv)),
            keys_view(donors@) == donor_keys(
                dedup(keys_of(pos_filter(qv.take(ni as int), ne1v), msv)),
            ),
        decreases neighbors@.len() - ni,
    {
        proof {
            assert(qv[ni as int] == neighbors@[ni as int]@);
            assert(qv.contains(qv[ni as int]));
            crate::neighbor::lemma_query_membership(all_v, ne1v, rri, qv[ni as int]);
            let j = choose|j: int| 0 <= j < all_v.len() && all_v[j] == qv[ni as int];
            assert(coord_ok(all_v[j]));
            assert(coord_ok(neighbors@[ni as int]@));
            assert(qv.take(ni as int + 1).drop_last() =~= qv.take(ni as int));
            assert(qv.take(ni as int + 1).last() == qv[ni as int]);
        }
        let d = calculate_distance_sq(&neighbors[ni], ne1_ref);
        if d > 0 {
            let ghost ks = keys_of(pos_filter(qv.take(ni as int), ne1v), msv);
            let ghost k = key_of(qv[ni as int], msv);
            proof {
                assert(pos_filter(qv.take(ni as int + 1), ne1v) =~= pos_filter(
                    qv.take(ni as int),
                    ne1v,
                ).push(qv[ni as int]));
                assert(keys_of(pos_filter(qv.take(ni as int + 1), ne1v), msv) =~= ks.push(k));
                assert(ks.push(k).drop_last() =~= ks);
                lemma_dedup_membership(ks, k);
            }
            let nb = &neighbors[ni];
            let key = NeighborKey {
                atom_name: nb.name.clone(),
                res_name: nb.res_name.clone(),
                chain_id: nb.chain_id,
                model_serial: model.serial_number,
                res_seq: nb.res_seq,
                serial: nb.serial,
            };
            assert(key@ =~= k);
            if !contains_key(&unique, &key) {
                proof {
                    assert(!dedup(ks).contains(k));
                    assert(!ks.contains(k));
                    assert(dedup(ks.push(k)) == dedup(ks).push(k));
                    assert(dedup(ks).push(k).drop_last() =~= dedup(ks));
                    assert(dedup(ks).push(k).last() == k);
                }
                if is_donor(key.res_name.as_str(), key.atom_name.as_str()) {
                    let ghost old_d = donors@;
                    let kc = key.clone();
                    donors.push(kc);
                    proof {
                        assert(keys_view(donors@) =~= keys_view(old_d).push(k));
                    }
                }
                let ghost old_u = unique@;
                unique.push(key);
                proof {
                    assert(keys_view(unique@) =~= keys_view(old_u).push(k));
                }
            } else {
                proof {
                    assert(dedup(ks).contains(k));
                    assert(ks.contains(k));
                    assert(dedup(ks.push(k)) == dedup(ks));
                }
            }
        } else {
            proof {
                assert(pos_filter(qv.take(ni as int + 1), ne1v) =~= pos_filter(
                    qv.take(ni as int),
                    ne1v,
                ));
            }
        }
        ni = ni + 1;
    }
    assert(qv.take(qv.len() as int) =~= qv);
    let ne1 = ne1_ref.clone();
    let res_name = residue.name.clone();
    let site = TrpSite {
        model_serial: model.serial_number,
        chain_id: chain.id,
        res_id: residue.id,
        res_name,
        ne1,
        unique_neighbors: unique,
        donor_neighbors: donors,
    };
    proof {
        assert(site@ =~= make_site(model@, chain@, residue@, ne1v, all_v, rri));
        assert(residue_site(model@, chain@, residue@, all_v, rri) =~= seq![site@]);
    }
    Some(site)
}

/// The detection pass over a whole structure: for every tryptophan
/// residue of every chain of every model that carries an indole
/// nitrogen atom, the deduplicated neighbor set within the coarse
/// cutoff and its donor-qualifying subset, in file order.
pub fn neighbour_search(structure: &Structure) -> (r: Vec<TrpSite>)
    requires
        structure_ok(structure@),
    ensures
        sites_view(r@) == neighbour_search_spec(
            structure@,
            COARSE_RADIUS_MILLI as int * COARSE_RADIUS_MILLI as int,
        ),
{
    let ghost rri = COARSE_RADIUS_MILLI as int * COARSE_RADIUS_MILLI as int;
    let ghost ms = structure@.models;
    let all = collect_atoms(structure);
    let ghost all_v = structure_atoms(structure@);
    let search = NeighborSearch::new(all.as_slice());
    proof {
        assert(search@ == all_v);
        assert forall|i: int| 0 <= i < all@.len() implies coord_ok(#[trigger] all@[i]@) by {
            assert(atoms_view(all@)[i] == all@[i]@);
            assert(coord_ok(structure_atoms(structure@)[i]));
        }
    }
    let mut sites: Vec<TrpSite> = Vec::new();
    assert(sites_view(sites@) =~= sites_in_models(ms.take(0), all_v, rri));
    let mut mi: usize = 0;
    while mi < structure.models.len()
        invariant
            0 <= mi <= structure.models@.len(),
            ms == models_view(structure.models@),
            all_v == structure_atoms(structure@),
            structure_ok(structure@),
            search.wf(),
            search@ == all_v,
            sites_view(sites@) == sites_in_models(ms.take(mi as int), all_v, rri),
            rri == COARSE_RADIUS_MILLI as int * COARSE_RADIUS_MILLI as int,
        decreases structure.models@.len() - mi,
    {
        let model = &structure.models[mi];
        let ghost cs = model@.chains;
        let ghost base0 = sites_in_models(ms.take(mi as int), all_v, rri);
        assert(sites_view(sites@) =~= base0 + sites_in_chains(model@, cs.take(0), all_v, rri));
        let mut ci: usize = 0;
        while ci < model.chains.len()
            invariant
                0 <= ci <= model.chains@.len(),
                cs == chains_view(model.chains@),
                ms == models_view(structure.models@),
                0 <= mi < structure.models@.len(),
                model == &structure.models[mi as int],
                all_v == structure_atoms(structure@),
                structure_ok(structure@),
                search.wf(),
                search@ == all_v,
                sites_view(sites@) == base0 + sites_in_chains(model@, cs.take(ci as int), all_v,
                    rri),
                rri == COARSE_RADIUS_MILLI as int * COARSE_RADIUS_MILLI as int,
            decreases model.chains@.len() - ci,
        {
            let chain = &model.chains[ci];
            let ghost rs = chain@.residues;
            let ghost base1 = base0 + sites_in_chains(model@, cs.take(ci as int), all_v, rri);
            assert(sites_view(sites@) =~= base1 + sites_in_residues(
                model@,
                chain@,
                rs.take(0),
                all_v,
                rri,
            ));
            let mut ri: usize = 0;
            while ri < chain.residues.len()
                invariant
                    0 <= ri <= chain.residues@.len(),
                    rs == residues_view(chain.residues@),
                    cs == chains_view(model.chains@),
                    ms == models_view(structure.models@),
                    0 <= mi < structure.models@.len(),
                    0 <= ci < model.chains@.len(),
                    model == &structure.models[mi as int],
                    chain == &model.chains[ci as int],
                    all_v == structure_atoms(structure@),
                    structure_ok(structure@),
                    search.wf(),
                    search@ == all_v,
                    sites_view(sites@) == base1 + sites_in_residues(model@, chain@, rs.take(
                        ri as int,
                    ), all_v, rri),
                    rri == COARSE_RADIUS_MILLI as int * COARSE_RADIUS_MILLI as int,
                decreases chain.residues@.len() - ri,
            {
                let residue = &chain.residues[ri];
                proof {
                    assert forall|ai: int| 0 <= ai < residue@.atoms.len() implies coord_ok(
                        #[trigger] residue@.atoms[ai],
                    ) by {
                        let x = residue@.atoms[ai];
                        assert(rs[ri as int] == residue@);
                        assert(rs[ri as int].atoms.contains(x));
                        lemma_atoms_in_residues_contains(rs, ri as int, x);
                        assert(cs[ci as int] == chain@);
                        lemma_atoms_in_chains_contains(cs, ci as int, x);
                        assert(ms[mi as int] == model@);
                        lemma_atoms_in_models_contains(ms, mi as int, x);
                        lemma_structure_ok_member(structure@, x);
                    }
                    assert(rs.take(ri as int + 1).drop_last() =~= rs.take(ri as int));
                    assert(rs.take(ri as int + 1).last() == rs[ri as int]);
                }
                match detect_site(&search, model, chain, residue) {
                    Some(site) => {
                        let ghost old_sites = sites@;
                        let ghost sv = site@;
                        sites.push(site);
                        proof {
                            assert(sites_view(sites@) =~= sites_view(old_sites).push(sv));
                            assert(base1 + sites_in_residues(model@, chain@, rs.take(
                                ri as int + 1,
                            ), all_v, rri) =~= (base1 + sites_in_residues(model@, chain@, rs.take(
                                ri as int,
                            ), all_v, rri)).push(sv));
                        }
                    },
                    None => {
                        proof {
                            assert(base1 + sites_in_residues(model@, chain@, rs.take(
                                ri as int + 1,
                            ), all_v, rri) =~= base1 + sites_in_residues(model@, chain@, rs.take(
                                ri as int,
                            ), all_v, rri));
                        }
                    },
                }
                ri = ri + 1;
            }
            proof {
                assert(rs.take(rs.len() as int) =~= rs);
                assert(cs.take(ci as int + 1).drop_last() =~= cs.take(ci as int));
                assert(cs.take(ci as int + 1).last() == cs[ci as int]);
                assert(base0 + sites_in_chains(model@, cs.take(ci as int + 1), all_v, rri) =~= base1
                    + sites_in_residues(model@, chain@, rs, all_v, rri));
            }
            ci = ci + 1;
        }
        proof {
            assert(cs.take(cs.len() as int) =~= cs);
            assert(ms.take(mi as int + 1).drop_last() =~= ms.take(mi as int));
            assert(ms.take(mi as int + 1).last() == ms[mi as int]);
            assert(sites_in_models(ms.take(mi as int + 1), all_v, rri) =~= base0 + sites_in_chains(
                model@,
                cs,
                all_v,
                rri,
            ));
        }
        mi = mi + 1;
    }
    assert(ms.take(ms.len() as int) =~= ms);
    sites
}

} // verus!
