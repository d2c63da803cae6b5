//! Atom-name masking and unmasking, and chain extraction: the
//! line-oriented rewrites that prepare structure files for an external
//! alignment collaborator and undo its renaming afterwards.

use vstd::prelude::*;

use crate::pdb_parser::{
    atoms_view, chains_view, models_view, parse_pdb_file, parse_pdb_spec, residues_view, Atom,
    AtomView, Chain, ChainView, Model, ModelView, ParseError, Residue, ResidueView, Structure,
    StructureView,
};
use crate::text::{
    chars_eq_str, chars_to_string, field, field_chars, lines_view, parse_int_spec,
    parse_int_field, replace_all, replace_all_exec, replace_first, replace_first_exec,
    split_lines, split_lines_exec, starts_with, starts_with_exec, str_chars, str_eq, trim,
    trim_chars,
};

verus! {

// ---------------------------------------------------------------------------
// Masking the template structure tree
// ---------------------------------------------------------------------------

/// The masked spelling of a donor atom name, padded by the width of the
/// original name.
pub open spec fn nx_pad(len: int) -> Seq<char> {
    if len == 1 || len == 2 {
        "NX"@
    } else if len == 3 {
        "NX "@
    } else {
        " NX "@
    }
}

/// The new name of one atom under masking: the tryptophan anchor atoms
/// and the chosen donor atom and its CB neighbor are renamed; all
/// other atoms keep their name.  The residue name is the owning
/// residue's, and the rules apply in this order.
pub open spec fn masked_name(name: Seq<char>, res: Seq<char>, scda: Seq<char>, scdr: Seq<char>)
    -> Seq<char> {
    if name == "NE1"@ && res == "TRP"@ {
        "AA "@
    } else if name == "CA"@ && res == "TRP"@ {
        "BB"@
    } else if name == "CZ3"@ && res == "TRP"@ {
        "CC "@
    } else if name == scda && res == scdr {
        nx_pad(name.len() as int)
    } else if name == "CB"@ && res == scdr {
        "EE"@
    } else {
        name
    }
}

pub open spec fn mask_atom(a: AtomView, res: Seq<char>, scda: Seq<char>, scdr: Seq<char>)
    -> AtomView {
    AtomView { name: masked_name(a.name, res, scda, scdr), ..a }
}

pub open spec fn mask_atoms(atoms: Seq<AtomView>, res: Seq<char>, scda: Seq<char>, scdr: Seq<
    char,
>) -> Seq<AtomView> {
    atoms.map_values(|a: AtomView| mask_atom(a, res, scda, scdr))
}

pub open spec fn mask_residue(r: ResidueView, scda: Seq<char>, scdr: Seq<char>) -> ResidueView {
    ResidueView { atoms: mask_atoms(r.atoms, r.name, scda, scdr), ..r }
}

pub open spec fn mask_chain(c: ChainView, scda: Seq<char>, scdr: Seq<char>) -> ChainView {
    ChainView { residues: c.residues.map_values(|r: ResidueView| mask_residue(r, scda, scdr)), ..c }
}

pub open spec fn mask_model(m: ModelView, scda: Seq<char>, scdr: Seq<char>) -> ModelView {
    ModelView { chains: m.chains.map_values(|c: ChainView| mask_chain(c, scda, scdr)), ..m }
}

/// The whole tree under masking; the residual chain list is untouched.
pub open spec fn mask_structure(s: StructureView, scda: Seq<char>, scdr: Seq<char>)
    -> StructureView {
    StructureView { models: s.models.map_values(|m: ModelView| mask_model(m, scda, scdr)), ..s }
}

/// The masked spelling of one atom's name, given its residue's name.
fn masked_name_exec(name: &String, res: &String, scda: &str, scdr: &str) -> (r: String)
    ensures
        r@ == masked_name(name@, res@, scda@, scdr@),
{
    if str_eq(name.as_str(), "NE1") && str_eq(res.as_str(), "TRP") {
        "AA ".to_owned()
    } else if str_eq(name.as_str(), "CA") && str_eq(res.as_str(), "TRP") {
        "BB".to_owned()
    } else if str_eq(name.as_str(), "CZ3") && str_eq(res.as_str(), "TRP") {
        "CC ".to_owned()
    } else if str_eq(name.as_str(), scda) && str_eq(res.as_str(), scdr) {
        let chars = str_chars(name.as_str());
        let ln = chars.len();
        if ln == 1 || ln == 2 {
            "NX".to_owned()
        } else if ln == 3 {
            "NX ".to_owned()
        } else {
            " NX ".to_owned()
        }
    } else if str_eq(name.as_str(), "CB") && str_eq(res.as_str(), scdr) {
        "EE".to_owned()
    } else {
        name.clone()
    }
}

/// Renames the tryptophan anchor atoms and the chosen donor atoms of a
/// whole structure in place, exactly as `mask_structure` describes.
pub fn mask_temp_atoms(structure: &mut Structure, scda: &str, scdr: &str)
    ensures
        final(structure)@ == mask_structure(old(structure)@, scda@, scdr@),
{
    let ghost s0 = structure@;
    let ghost ms = structure@.models;
    let mut new_models: Vec<Model> = Vec::new();
    assert(models_view(new_models@) =~= ms.take(0).map_values(
        |m: ModelView| mask_model(m, scda@, scdr@),
    ));
    let mut mi: usize = 0;
    while mi < structure.models.len()
        invariant
            0 <= mi <= structure.models@.len(),
            structure@ == s0,
            ms == models_view(structure.models@),
            models_view(new_models@) == ms.take(mi as int).map_values(
                |m: ModelView| mask_model(m, scda@, scdr@),
            ),
        decreases structure.models@.len() - mi,
    {
        let model = &structure.models[mi];
        let ghost cs = model@.chains;
        let mut new_chains: Vec<Chain> = Vec::new();
        assert(chains_view(new_chains@) =~= cs.take(0).map_values(
            |c: ChainView| mask_chain(c, scda@, scdr@),
        ));
        let mut ci: usize = 0;
        while ci < model.chains.len()
            invariant
                0 <= ci <= model.chains@.len(),
                cs == chains_view(model.chains@),
                chains_view(new_chains@) == cs.take(ci as int).map_values(
                    |c: ChainView| mask_chain(c, scda@, scdr@),
                ),
            decreases model.chains@.len() - ci,
        {
            let chain = &model.chains[ci];
            let ghost rs = chain@.residues;
            let mut new_residues: Vec<Residue> = Vec::new();
            assert(residues_view(new_residues@) =~= rs.take(0).map_values(
                |r: ResidueView| mask_residue(r, scda@, scdr@),
            ));
            let mut ri: usize = 0;
            while ri < chain.residues.len()
                invariant
                    0 <= ri <= chain.residues@.len(),
                    rs == residues_view(chain.residues@),
                    residues_view(new_residues@) == rs.take(ri as int).map_values(
                        |r: ResidueView| mask_residue(r, scda@, scdr@),
                    ),
                decreases chain.residues@.len() - ri,
            {
                let residue = &chain.residues[ri];
                let ghost atoms = residue@.atoms;
                let mut new_atoms: Vec<Atom> = Vec::new();
                assert(atoms_view(new_atoms@) =~= mask_atoms(
                    atoms.take(0),
                    residue@.name,
                    scda@,
                    scdr@,
                ));
                let mut ai: usize = 0;
                while ai < residue.atoms.len()
                    invariant
                        0 <= ai <= residue.atoms@.len(),
                        atoms == atoms_view(residue.atoms@),
                        0 <= ri < chain.residues@.len(),
                        residue == &chain.residues[ri as int],
                        atoms_view(new_atoms@) == mask_atoms(
                            atoms.take(ai as int),
                            residue@.name,
                            scda@,
                            scdr@,
                        ),
                    decreases residue.atoms@.len() - ai,
                {
                    let a = &residue.atoms[ai];
                    let new_name = masked_name_exec(&a.name, &residue.name, scda, scdr);
                    let mut na = a.clone();
                    na.name = new_name;
                    proof {
                        assert(na@ =~= mask_atom(atoms[ai as int], residue@.name, scda@, scdr@));
                    }
                    let ghost old_atoms = new_atoms@;
                    new_atoms.push(na);
                    proof {
                        assert(atoms_view(new_atoms@) =~= atoms_view(old_atoms).push(
                            mask_atom(atoms[ai as int], residue@.name, scda@, scdr@),
                        ));
                        assert(mask_atoms(atoms.take(ai as int + 1), residue@.name, scda@, scdr@)
                            =~= mask_atoms(atoms.take(ai as int), residue@.name, scda@,
                            scdr@).push(
                            mask_atom(atoms[ai as int], residue@.name, scda@, scdr@),
                        ));
                    }
                    ai = ai + 1;
                }
                assert(atoms.take(atoms.len() as int) =~= atoms);
                let nr = Residue { name: residue.name.clone(), id: residue.id, atoms: new_atoms };
                proof {
                    assert(nr@ =~= mask_residue(rs[ri as int], scda@, scdr@));
                }
                let ghost old_rs = new_residues@;
                new_residues.push(nr);
                proof {
                    assert(residues_view(new_residues@) =~= residues_view(old_rs).push(
                        mask_residue(rs[ri as int], scda@, scdr@),
                    ));
                    assert(rs.take(ri as int + 1).map_values(
                        |r: ResidueView| mask_residue(r, scda@, scdr@),
                    ) =~= rs.take(ri as int).map_values(
                        |r: ResidueView| mask_residue(r, scda@, scdr@),
                    ).push(mask_residue(rs[ri as int], scda@, scdr@)));
                }
                ri = ri + 1;
            }
            assert(rs.take(rs.len() as int) =~= rs);
            let nc = Chain { id: chain.id, residues: new_residues };
            proof {
                assert(nc@ =~= mask_chain(cs[ci as int], scda@, scdr@));
            }
            let ghost old_cs = new_chains@;
            new_chains.push(nc);
            proof {
                assert(chains_view(new_chains@) =~= chains_view(old_cs).push(
                    mask_chain(cs[ci as int], scda@, scdr@),
                ));
                assert(cs.take(ci as int + 1).map_values(
                    |c: ChainView| mask_chain(c, scda@, scdr@),
                ) =~= cs.take(ci as int).map_values(|c: ChainView| mask_chain(c, scda@,
                    scdr@)).push(mask_chain(cs[ci as int], scda@, scdr@)));
            }
            ci = ci + 1;
        }
        assert(cs.take(cs.len() as int) =~= cs);
        let nm = Model { serial_number: model.serial_number, chains: new_chains };
        proof {
            assert(nm@ =~= mask_model(ms[mi as int], scda@, scdr@));
        }
        let ghost old_ms = new_models@;
        new_models.push(nm);
        proof {
            assert(models_view(new_models@) =~= models_view(old_ms).push(
                mask_model(ms[mi as int], scda@, scdr@),
            ));
            assert(ms.take(mi as int + 1).map_values(|m: ModelView| mask_model(m, scda@, scdr@))
                =~= ms.take(mi as int).map_values(|m: ModelView| mask_model(m, scda@,
                scdr@)).push(mask_model(ms[mi as int], scda@, scdr@)));
        }
        mi = mi + 1;
    }
    assert(ms.take(ms.len() as int) =~= ms);
    structure.models = new_models;
    assert(structure@ =~= mask_structure(s0, scda@, scdr@));
}

// ---------------------------------------------------------------------------
// Finding the anchor residues of a query structure
// ---------------------------------------------------------------------------

pub open spec fn residues_in_chains(cs: Seq<ChainView>) -> Seq<ResidueView>
    decreases cs.len(),
{
    if cs.len() == 0 {
        Seq::<ResidueView>::empty()
    } else {
        residues_in_chains(cs.drop_last()) + cs.last().residues
    }
}

pub open spec fn residues_in_models(ms: Seq<ModelView>) -> Seq<ResidueView>
    decreases ms.len(),
{
    if ms.len() == 0 {
        Seq::<ResidueView>::empty()
    } else {
        residues_in_models(ms.drop_last()) + residues_in_chains(ms.last().chains)
    }
}

/// All residues of a structure, in file order.
pub open spec fn structure_residues(s: StructureView) -> Seq<ResidueView> {
    residues_in_models(s.models)
}

/// The last residue named `trp` and the last named `nbr`, a residue
/// counting only for the first of the two names it matches.
pub open spec fn find_tn(rs: Seq<ResidueView>, trp: Seq<char>, nbr: Seq<char>) -> (
    Option<int>,
    Option<int>,
)
    decreases rs.len(),
{
    if rs.len() == 0 {
        (None, None)
    } else {
        let prev = find_tn(rs.drop_last(), trp, nbr);
        if rs.last().name == trp {
            (Some(rs.last().id), prev.1)
        } else if rs.last().name == nbr {
            (prev.0, Some(rs.last().id))
        } else {
            prev
        }
    }
}

pub open spec fn opt_view(o: Option<i64>) -> Option<int> {
    match o {
        Some(v) => Some(v as int),
        None => None,
    }
}

/// Walks a structure for the last residues carrying the two names.
fn find_tn_exec(structure: &Structure, trp: &str, nbr: &str) -> (r: (Option<i64>, Option<i64>))
    ensures
        (opt_view(r.0), opt_view(r.1)) == find_tn(structure_residues(structure@), trp@, nbr@),
{
    let ghost ms = structure@.models;
    let mut t: Option<i64> = None;
    let mut n: Option<i64> = None;
    assert(residues_in_models(ms.take(0)) =~= Seq::<ResidueView>::empty());
    let mut mi: usize = 0;
    while mi < structure.models.len()
        invariant
            0 <= mi <= structure.models@.len(),
            ms == models_view(structure.models@),
            (opt_view(t), opt_view(n)) == find_tn(residues_in_models(ms.take(mi as int)), trp@,
                nbr@),
        decreases structure.models@.len() - mi,
    {
        let model = &structure.models[mi];
        let ghost cs = model@.chains;
        let ghost base0 = residues_in_models(ms.take(mi as int));
        assert(base0 + residues_in_chains(cs.take(0)) =~= base0);
        let mut ci: usize = 0;
        while ci < model.chains.len()
            invariant
                0 <= ci <= model.chains@.len(),
                cs == chains_view(model.chains@),
                (opt_view(t), opt_view(n)) == find_tn(base0 + residues_in_chains(cs.take(
                    ci as int,
                )), trp@, nbr@),
            decreases model.chains@.len() - ci,
        {
            let chain = &model.chains[ci];
            let ghost rs = chain@.residues;
            let ghost base1 = base0 + residues_in_chains(cs.take(ci as int));
            assert(base1 + rs.take(0) =~= base1);
            let mut ri: usize = 0;
            while ri < chain.residues.len()
                invariant
                    0 <= ri <= chain.residues@.len(),
                    rs == residues_view(chain.residues@),
                    (opt_view(t), opt_view(n)) == find_tn(base1 + rs.take(ri as int), trp@, nbr@),
                decreases chain.residues@.len() - ri,
            {
                let residue = &chain.residues[ri];
                proof {
                    assert((base1 + rs.take(ri as int + 1)).drop_last() =~= base1 + rs.take(
                        ri as int,
                    ));
                    assert((base1 + rs.take(ri as int + 1)).last() == rs[ri as int]);
                }
                if str_eq(residue.name.as_str(), trp) {
                    t = Some(residue.id);
                } else if str_eq(residue.name.as_str(), nbr) {
                    n = Some(residue.id);
                }
                ri = ri + 1;
            }
            proof {
                assert(rs.take(rs.len() as int) =~= rs);
                assert(cs.take(ci as int + 1).drop_last() =~= cs.take(ci as int));
                assert(cs.take(ci as int + 1).last() == cs[ci as int]);
                assert(base0 + residues_in_chains(cs.take(ci as int + 1)) =~= base1 + rs);
            }
            ci = ci + 1;
        }
        proof {
            assert(cs.take(cs.len() as int) =~= cs);
            assert(ms.take(mi as int + 1).drop_last() =~= ms.take(mi as int));
            assert(ms.take(mi as int + 1).last() == ms[mi as int]);
            assert(residues_in_models(ms.take(mi as int + 1)) =~= base0 + residues_in_chains(cs));
        }
        mi = mi + 1;
    }
    assert(ms.take(ms.len() as int) =~= ms);
    (t, n)
}

// ---------------------------------------------------------------------------
// Masking a query structure's text
// ---------------------------------------------------------------------------

/// A failure while masking: the structure text or a residue-sequence
/// field would not parse, or a named residue is absent.
#[derive(Debug)]
pub enum MaskError {
    Parse(ParseError),
    MissingResidue,
}

/// One line of the query text under masking: only atom lines change;
/// the named atoms of the anchor tryptophan and of the chosen donor
/// residue are renamed by substring replacement, and a
/// residue-sequence field is read only when the atom name matches one
/// of the rules, exactly as the rewrite evaluates its conditions in
/// order.
pub open spec fn mask_query_line(line: Seq<char>, trp_id: int, nbr_id: int, dnr: Seq<char>)
    -> Result<Seq<char>, Seq<char>> {
    if !starts_with(line, "ATOM"@) {
        Ok(line)
    } else {
        let atm = trim(field(line, 12, 16));
        let p = parse_int_spec(field(line, 22, 26));
        if atm == "NE1"@ && p == Some(trp_id) {
            Ok(replace_all(line, atm, "AA "@))
        } else if atm == "NE1"@ && p is None {
            Err(line)
        } else if atm == "CA"@ && p == Some(trp_id) {
            Ok(replace_all(line, atm, "BB"@))
        } else if atm == "CA"@ && p is None {
            Err(line)
        } else if atm == "CZ3"@ && p == Some(trp_id) {
            Ok(replace_all(line, atm, "CC "@))
        } else if atm == "CZ3"@ && p is None {
            Err(line)
        } else if atm == dnr && p == Some(nbr_id) {
            Ok(replace_first(line, atm, nx_pad(atm.len() as int)))
        } else if atm == dnr && p is None {
            Err(line)
        } else if atm == "CB"@ && p == Some(nbr_id) {
            Ok(replace_all(line, atm, "EE"@))
        } else if atm == "CB"@ && p is None {
            Err(line)
        } else {
            Ok(line)
        }
    }
}

/// The rewritten lines joined, each with a newline; the first
/// unreadable residue-sequence field aborts with its line.
pub open spec fn mask_query_fold(
    lines: Seq<Seq<char>>,
    trp_id: int,
    nbr_id: int,
    dnr: Seq<char>,
    acc: Seq<char>,
) -> Result<Seq<char>, Seq<char>>
    decreases lines.len(),
{
    if lines.len() == 0 {
        Ok(acc)
    } else {
        match mask_query_line(lines[0], trp_id, nbr_id, dnr) {
            Ok(t) => mask_query_fold(lines.drop_first(), trp_id, nbr_id, dnr, acc + t + "\n"@),
            Err(l) => Err(l),
        }
    }
}

/// Rewrites one line, exactly as `mask_query_line` reads it.
fn mask_query_line_exec(line: &Vec<char>, trp_id: i64, nbr_id: i64, dnr: &str) -> (r: Result<
    Vec<char>,
    (),
>)
    requires
        dnr@.len() >= 1,
    ensures
        match r {
            Ok(t) => mask_query_line(line@, trp_id as int, nbr_id as int, dnr@) == Ok::<
                Seq<char>,
                Seq<char>,
            >(t@),
            Err(_) => mask_query_line(line@, trp_id as int, nbr_id as int, dnr@) == Err::<
                Seq<char>,
                Seq<char>,
            >(line@),
        },
{
    if !starts_with_exec(line, "ATOM") {
        let mut c: Vec<char> = Vec::new();
        let mut i: usize = 0;
        while i < line.len()
            invariant
                0 <= i <= line@.len(),
                c@ == line@.take(i as int),
            decreases line@.len() - i,
        {
            c.push(line[i]);
            assert(c@ =~= line@.take(i as int + 1));
            i = i + 1;
        }
        assert(c@ =~= line@);
        return Ok(c);
    }
    let atm = trim_chars(&field_chars(line, 12, 16));
    let p = parse_int_field(&field_chars(line, 22, 26));
    proof {
        reveal_strlit("NE1");
        reveal_strlit("CA");
        reveal_strlit("CZ3");
        reveal_strlit("CB");
    }
    let is_ne1 = chars_eq_str(&atm, "NE1");
    let is_ca = chars_eq_str(&atm, "CA");
    let is_cz3 = chars_eq_str(&atm, "CZ3");
    let is_dnr = chars_eq_str(&atm, dnr);
    let is_cb = chars_eq_str(&atm, "CB");
    let p_is_trp = match p {
        Some(v) => v == trp_id,
        None => false,
    };
    let p_is_nbr = match p {
        Some(v) => v == nbr_id,
        None => false,
    };
    let p_none = match p {
        Some(_) => false,
        None => true,
    };
    if is_ne1 && p_is_trp {
        Ok(replace_all_exec(line, &atm, &str_chars("AA ")))
    } else if is_ne1 && p_none {
        Err(())
    } else if is_ca && p_is_trp {
        Ok(replace_all_exec(line, &atm, &str_chars("BB")))
    } else if is_ca && p_none {
        Err(())
    } else if is_cz3 && p_is_trp {
        Ok(replace_all_exec(line, &atm, &str_chars("CC ")))
    } else if is_cz3 && p_none {
        Err(())
    } else if is_dnr && p_is_nbr {
        let ln = atm.len();
        let rep = if ln == 1 || ln == 2 {
            str_chars("NX")
        } else if ln == 3 {
            str_chars("NX ")
        } else {
            str_chars(" NX ")
        };
        Ok(replace_first_exec(line, &atm, &rep))
    } else if is_dnr && p_none {
        Err(())
    } else if is_cb && p_is_nbr {
        Ok(replace_all_exec(line, &atm, &str_chars("EE")))
    } else if is_cb && p_none {
        Err(())
    } else {
        let mut c: Vec<char> = Vec::new();
        let mut i: usize = 0;
        while i < line.len()
            invariant
                0 <= i <= line@.len(),
                c@ == line@.take(i as int),
            decreases line@.len() - i,
        {
            c.push(line[i]);
            assert(c@ =~= line@.take(i as int + 1));
            i = i + 1;
        }
        assert(c@ =~= line@);
        Ok(c)
    }
}

/// Masks a query structure's text for the external alignment step: the
/// anchor tryptophan and the chosen donor residue are located by name
/// (the last of each wins), and every atom line of theirs is rewritten
/// by `mask_query_line`; other lines pass through, each line regaining
/// its newline.
pub fn mask_query_atoms(content: &str, the_trp: &str, the_nbr: &str, the_nbr_dnr: &str) -> (r:
    Result<String, MaskError>)
    requires
        the_nbr_dnr@.len() >= 1,
    ensures
        ({
            let parsed = parse_pdb_spec(content@);
            match r {
                Ok(out) => parsed is Ok && {
                    let tn = find_tn(structure_residues(parsed->Ok_0), the_trp@, the_nbr@);
                    &&& tn.0 is Some
                    &&& tn.1 is Some
                    &&& mask_query_fold(
                        split_lines(content@),
                        tn.0->Some_0,
                        tn.1->Some_0,
                        the_nbr_dnr@,
                        Seq::<char>::empty(),
                    ) == Ok::<Seq<char>, Seq<char>>(out@)
                },
                Err(MaskError::MissingResidue) => parsed is Ok && {
                    let tn = find_tn(structure_residues(parsed->Ok_0), the_trp@, the_nbr@);
                    tn.0 is None || tn.1 is None
                },
                Err(MaskError::Parse(e)) => parsed == Err::<StructureView, Seq<char>>(e.line@)
                    || (parsed is Ok && {
                    let tn = find_tn(structure_residues(parsed->Ok_0), the_trp@, the_nbr@);
                    &&& tn.0 is Some
                    &&& tn.1 is Some
                    &&& mask_query_fold(
                        split_lines(content@),
                        tn.0->Some_0,
                        tn.1->Some_0,
                        the_nbr_dnr@,
                        Seq::<char>::empty(),
                    ) == Err::<Seq<char>, Seq<char>>(e.line@)
                }),
            }
        }),
{
    let structure = match parse_pdb_file(content) {
        Ok(s) => s,
        Err(e) => {
            return Err(MaskError::Parse(e));
        },
    };
    let (t, n) = find_tn_exec(&structure, the_trp, the_nbr);
    let trp_id = match t {
        Some(v) => v,
        None => {
            return Err(MaskError::MissingResidue);
        },
    };
    let nbr_id = match n {
        Some(v) => v,
        None => {
            return Err(MaskError::MissingResidue);
        },
    };
    let chars = str_chars(content);
    let lines = split_lines_exec(&chars);
    let ghost lseq = split_lines(content@);
    let mut out: Vec<char> = Vec::new();
    assert(lseq.skip(0) =~= lseq);
    assert(out@ =~= Seq::<char>::empty());
    let mut i: usize = 0;
    while i < lines.len()
        invariant
            0 <= i <= lines@.len(),
            lines_view(lines@) == lseq,
            lseq == split_lines(content@),
            the_nbr_dnr@.len() >= 1,
            parse_pdb_spec(content@) == Ok::<StructureView, Seq<char>>(structure@),
            find_tn(structure_residues(structure@), the_trp@, the_nbr@) == (
                Some(trp_id as int),
                Some(nbr_id as int),
            ),
            mask_query_fold(lseq.skip(i as int), trp_id as int, nbr_id as int, the_nbr_dnr@, out@)
                == mask_query_fold(lseq, trp_id as int, nbr_id as int, the_nbr_dnr@,
                Seq::<char>::empty()),
        decreases lines@.len() - i,
    {
        proof {
            assert(lseq.skip(i as int)[0] == lseq[i as int]);
            assert(lseq.skip(i as int).drop_first() =~= lseq.skip(i as int + 1));
            assert(lseq[i as int] == lines@[i as int]@);
        }
        match mask_query_line_exec(&lines[i], trp_id, nbr_id, the_nbr_dnr) {
            Ok(mut t) => {
                let ghost tv = t@;
                let ghost out_old = out@;
                out.append(&mut t);
                out.push('\n');
                proof {
                    reveal_strlit("\n");
                    assert(out@ =~= out_old + tv + "\n"@);
                }
            },
            Err(_) => {
                let e = ParseError { line: chars_to_string(&lines[i]) };
                return Err(MaskError::Parse(e));
            },
        }
        i = i + 1;
    }
    assert(lseq.skip(lseq.len() as int) =~= Seq::<Seq<char>>::empty());
    Ok(chars_to_string(&out))
}

// ---------------------------------------------------------------------------
// Carving a structure down to chosen chains and residues
// ---------------------------------------------------------------------------

/// The residues whose sequence numbers are listed, in order.
pub open spec fn carve_residues(rs: Seq<ResidueView>, res_ids: Seq<int>) -> Seq<ResidueView>
    decreases rs.len(),
{
    if rs.len() == 0 {
        Seq::<ResidueView>::empty()
    } else {
        let rest = carve_residues(rs.drop_last(), res_ids);
        if res_ids.contains(rs.last().id) {
            rest.push(rs.last())
        } else {
            rest
        }
    }
}

/// The listed chains, each cut down to the listed residues; a chain
/// left without residues is dropped.
pub open spec fn carve_chains(cs: Seq<ChainView>, chain_ids: Seq<char>, res_ids: Seq<int>) -> Seq<
    ChainView,
>
    decreases cs.len(),
{
    if cs.len() == 0 {
        Seq::<ChainView>::empty()
    } else {
        let rest = carve_chains(cs.drop_last(), chain_ids, res_ids);
        let kept = carve_residues(cs.last().residues, res_ids);
        if chain_ids.contains(cs.last().id) && kept.len() > 0 {
            rest.push(ChainView { id: cs.last().id, residues: kept })
        } else {
            rest
        }
    }
}

/// The models cut down; a model left without chains is dropped, the
/// others keep their serial number.
pub open spec fn carve_models(ms: Seq<ModelView>, chain_ids: Seq<char>, res_ids: Seq<int>) -> Seq<
    ModelView,
>
    decreases ms.len(),
{
    if ms.len() == 0 {
        Seq::<ModelView>::empty()
    } else {
        let rest = carve_models(ms.drop_last(), chain_ids, res_ids);
        let kept = carve_chains(ms.last().chains, chain_ids, res_ids);
        if kept.len() > 0 {
            rest.push(ModelView { serial: ms.last().serial, chains: kept })
        } else {
            rest
        }
    }
}

/// The whole structure cut down to the chosen chains and residue
/// sequence numbers.
pub open spec fn carve_spec(s: StructureView, chain_ids: Seq<char>, res_ids: Seq<int>)
    -> StructureView {
    StructureView {
        models: carve_models(s.models, chain_ids, res_ids),
        chains: Seq::<ChainView>::empty(),
    }
}

pub open spec fn ids_view(s: Seq<i64>) -> Seq<int> {
    s.map_values(|v: i64| v as int)
}

fn contains_char(v: &[char], c: char) -> (r: bool)
    ensures
        r == v@.contains(c),
{
    let mut i: usize = 0;
    while i < v.len()
        invariant
            0 <= i <= v@.len(),
            forall|j: int| 0 <= j < i ==> v@[j] != c,
        decreases v@.len() - i,
    {
        if v[i] == c {
            return true;
        }
        i = i + 1;
    }
    assert(!v@.contains(c)) by {
        if v@.contains(c) {
            let j = choose|j: int| 0 <= j < v@.len() && v@[j] == c;
        }
    }
    false
}

fn contains_id(v: &[i64], x: i64) -> (r: bool)
    ensures
        r == ids_view(v@).contains(x as int),
{
    let ghost iv = ids_view(v@);
    let mut i: usize = 0;
    while i < v.len()
        invariant
            0 <= i <= v@.len(),
            iv == ids_view(v@),
            forall|j: int| 0 <= j < i ==> iv[j] != x as int,
        decreases v@.len() - i,
    {
        if v[i] == x {
            assert(iv[i as int] == x as int);
            return true;
        }
        i = i + 1;
    }
    assert(!iv.contains(x as int)) by {
        if iv.contains(x as int) {
            let j = choose|j: int| 0 <= j < iv.len() && iv[j] == x as int;
        }
    }
    false
}

/// Cuts a parsed structure down to the given chain identifiers and
/// residue sequence numbers, exactly as `carve_spec` filters it;
/// chains and models left empty are dropped.
pub fn carve(structure: &Structure, chain_ids: &[char], residue_ids: &[i64]) -> (r: Structure)
    ensures
        r@ == carve_spec(structure@, chain_ids@, ids_view(residue_ids@)),
{
    let ghost ms = structure@.models;
    let ghost civ = chain_ids@;
    let ghost riv = ids_view(residue_ids@);
    let mut new_models: Vec<Model> = Vec::new();
    assert(models_view(new_models@) =~= carve_models(ms.take(0), civ, riv));
    let mut mi: usize = 0;
    while mi < structure.models.len()
        invariant
            0 <= mi <= structure.models@.len(),
            ms == models_view(structure.models@),
            civ == chain_ids@,
            riv == ids_view(residue_ids@),
            models_view(new_models@) == carve_models(ms.take(mi as int), civ, riv),
        decreases structure.models@.len() - mi,
    {
        let model = &structure.models[mi];
        let ghost cs = model@.chains;
        let mut new_chains: Vec<Chain> = Vec::new();
        assert(chains_view(new_chains@) =~= carve_chains(cs.take(0), civ, riv));
        let mut ci: usize = 0;
        while ci < model.chains.len()
            invariant
                0 <= ci <= model.chains@.len(),
                cs == chains_view(model.chains@),
                civ == chain_ids@,
                riv == ids_view(residue_ids@),
                chains_view(new_chains@) == carve_chains(cs.take(ci as int), civ, riv),
            decreases model.chains@.len() - ci,
        {
            let chain = &model.chains[ci];
            let ghost rs = chain@.residues;
            proof {
                assert(cs.take(ci as int + 1).drop_last() =~= cs.take(ci as int));
                assert(cs.take(ci as int + 1).last() == cs[ci as int]);
            }
            if contains_char(chain_ids, chain.id) {
                let mut new_residues: Vec<Residue> = Vec::new();
                assert(residues_view(new_residues@) =~= carve_residues(rs.take(0), riv));
                let mut ri: usize = 0;
                while ri < chain.residues.len()
                    invariant
                        0 <= ri <= chain.residues@.len(),
                        rs == residues_view(chain.residues@),
                        riv == ids_view(residue_ids@),
                        0 <= ci < model.chains@.len(),
                        chain == &model.chains[ci as int],
                        residues_view(new_residues@) == carve_residues(rs.take(ri as int), riv),
                    decreases chain.residues@.len() - ri,
                {
                    let residue = &chain.residues[ri];
                    proof {
                        assert(rs.take(ri as int + 1).drop_last() =~= rs.take(ri as int));
                        assert(rs.take(ri as int + 1).last() == rs[ri as int]);
                    }
                    if contains_id(residue_ids, residue.id) {
                        let ghost old_rs = new_residues@;
                        let mut atoms: Vec<Atom> = Vec::new();
                        let mut ai: usize = 0;
                        while ai < residue.atoms.len()
                            invariant
                                0 <= ai <= residue.atoms@.len(),
                                0 <= ri < chain.residues@.len(),
                                0 <= ci < model.chains@.len(),
                                chain == &model.chains[ci as int],
                                residue == &chain.residues[ri as int],
                                atoms_view(atoms@) == atoms_view(residue.atoms@).take(ai as int),
                            decreases residue.atoms@.len() - ai,
                        {
                            let ghost old_atoms = atoms@;
                            let a = residue.atoms[ai].clone();
                            atoms.push(a);
                            proof {
                                assert(atoms_view(atoms@) =~= atoms_view(old_atoms).push(
                                    atoms_view(residue.atoms@)[ai as int],
                                ));
                                assert(atoms_view(residue.atoms@).take(ai as int + 1) =~=
                                    atoms_view(residue.atoms@).take(ai as int).push(
                                    atoms_view(residue.atoms@)[ai as int],
                                ));
                            }
                            ai = ai + 1;
                        }
                        assert(atoms_view(residue.atoms@).take(residue.atoms@.len() as int) =~=
                            atoms_view(residue.atoms@));
                        let nr = Residue {
                            name: residue.name.clone(),
                            id: residue.id,
                            atoms,
                        };
                        proof {
                            assert(nr@ =~= rs[ri as int]);
                        }
                        new_residues.push(nr);
                        proof {
                            assert(residues_view(new_residues@) =~= residues_view(old_rs).push(
                                rs[ri as int],
                            ));
                        }
                    }
                    ri = ri + 1;
                }
                assert(rs.take(rs.len() as int) =~= rs);
                if new_residues.len() > 0 {
                    let nc = Chain { id: chain.id, residues: new_residues };
                    let ghost old_cs = new_chains@;
                    proof {
                        assert(nc@ =~= ChainView {
                            id: cs[ci as int].id,
                            residues: carve_residues(rs, riv),
                        });
                    }
                    new_chains.push(nc);
                    proof {
                        assert(chains_view(new_chains@) =~= chains_view(old_cs).push(
                            ChainView { id: cs[ci as int].id, residues: carve_residues(rs, riv) },
                        ));
                    }
                }
            }
            ci = ci + 1;
        }
        assert(cs.take(cs.len() as int) =~= cs);
        proof {
            assert(ms.take(mi as int + 1).drop_last() =~= ms.take(mi as int));
            assert(ms.take(mi as int + 1).last() == ms[mi as int]);
        }
        if new_chains.len() > 0 {
            let nm = Model { serial_number: model.serial_number, chains: new_chains };
            let ghost old_ms = new_models@;
            proof {
                assert(nm@ =~= ModelView {
                    serial: ms[mi as int].serial,
                    chains: carve_chains(cs, civ, riv),
                });
            }
            new_models.push(nm);
            proof {
                assert(models_view(new_models@) =~= models_view(old_ms).push(
                    ModelView { serial: ms[mi as int].serial, chains: carve_chains(cs, civ, riv) },
                ));
            }
        }
        mi = mi + 1;
    }
    assert(ms.take(ms.len() as int) =~= ms);
    let r = Structure { models: new_models, chains: Vec::new() };
    proof {
        assert(r@.chains =~= Seq::<ChainView>::empty());
        assert(r@ =~= carve_spec(structure@, chain_ids@, ids_view(residue_ids@)));
    }
    r
}

// ---------------------------------------------------------------------------
// Unmasking after the external alignment step
// ---------------------------------------------------------------------------

/// An exact copy of a line.
fn copy_chars(v: &Vec<char>) -> (r: Vec<char>)
    ensures
        r@ == v@,
{
    let mut c: Vec<char> = Vec::new();
    let mut i: usize = 0;
    while i < v.len()
        invariant
            0 <= i <= v@.len(),
            c@ == v@.take(i as int),
        decreases v@.len() - i,
    {
        c.push(v[i]);
        assert(c@ =~= v@.take(i as int + 1));
        i = i + 1;
    }
    assert(c@ =~= v@);
    c
}

/// One line under unmasking: on an atom line of the given chain the
/// masked names turn back into the originals, the donor name `dn`
/// taking the place of the masked donor atom; an atom line with a
/// blank chain column is unreadable.
pub open spec fn unmask_line(line: Seq<char>, chain: char, dn: Seq<char>) -> Result<
    Seq<char>,
    Seq<char>,
> {
    if !starts_with(line, "ATOM"@) {
        Ok(line)
    } else {
        let cid = trim(field(line, 21, 22));
        if cid.len() == 0 {
            Err(line)
        } else if cid[0] == chain {
            let atm = trim(field(line, 12, 16));
            if atm == "AA"@ {
                Ok(replace_all(line, "AA"@, "NE1"@))
            } else if atm == "BB"@ {
                Ok(replace_all(line, "BB"@, "CA"@))
            } else if atm == "CC"@ {
                Ok(replace_all(line, "CC"@, "CZ3"@))
            } else if atm == "NX"@ {
                Ok(replace_first(line, "NX"@, dn))
            } else if atm == "EE"@ {
                Ok(replace_all(line, "EE"@, "CB"@))
            } else {
                Ok(line)
            }
        } else {
            Ok(line)
        }
    }
}

/// The unmasked lines joined, each with a newline; the first atom line
/// with a blank chain column aborts with that line.
pub open spec fn unmask_fold(lines: Seq<Seq<char>>, chain: char, dn: Seq<char>, acc: Seq<char>)
    -> Result<Seq<char>, Seq<char>>
    decreases lines.len(),
{
    if lines.len() == 0 {
        Ok(acc)
    } else {
        match unmask_line(lines[0], chain, dn) {
            Ok(t) => unmask_fold(lines.drop_first(), chain, dn, acc + t + "\n"@),
            Err(l) => Err(l),
        }
    }
}

fn unmask_line_exec(line: &Vec<char>, chain: char, dn: &Vec<char>) -> (r: Result<Vec<char>, ()>)
    ensures
        match r {
            Ok(t) => unmask_line(line@, chain, dn@) == Ok::<Seq<char>, Seq<char>>(t@),
            Err(_) => unmask_line(line@, chain, dn@) == Err::<Seq<char>, Seq<char>>(line@),
        },
{
    if !starts_with_exec(line, "ATOM") {
        return Ok(copy_chars(line));
    }
    let cid = trim_chars(&field_chars(line, 21, 22));
    if cid.len() == 0 {
        return Err(());
    }
    if cid[0] == chain {
        proof {
            reveal_strlit("AA");
            reveal_strlit("BB");
            reveal_strlit("CC");
            reveal_strlit("NX");
            reveal_strlit("EE");
        }
        let atm = trim_chars(&field_chars(line, 12, 16));
        if chars_eq_str(&atm, "AA") {
            Ok(replace_all_exec(line, &str_chars("AA"), &str_chars("NE1")))
        } else if chars_eq_str(&atm, "BB") {
            Ok(replace_all_exec(line, &str_chars("BB"), &str_chars("CA")))
        } else if chars_eq_str(&atm, "CC") {
            Ok(replace_all_exec(line, &str_chars("CC"), &str_chars("CZ3")))
        } else if chars_eq_str(&atm, "NX") {
            Ok(replace_first_exec(line, &str_chars("NX"), dn))
        } else if chars_eq_str(&atm, "EE") {
            Ok(replace_all_exec(line, &str_chars("EE"), &str_chars("CB")))
        } else {
            Ok(copy_chars(line))
        }
    } else {
        Ok(copy_chars(line))
    }
}

/// Undoes the masking on the given chain of a structure text: masked
/// atom names turn back into the originals, the donor atom regaining
/// the name `donor_name`, exactly as `unmask_fold` lays the lines out.
pub fn unmask_atoms(content: &str, input_chain: char, donor_name: &str) -> (r: Result<
    String,
    ParseError,
>)
    ensures
        match r {
            Ok(out) => unmask_fold(
                split_lines(content@),
                input_chain,
                donor_name@,
                Seq::<char>::empty(),
            ) == Ok::<Seq<char>, Seq<char>>(out@),
            Err(e) => unmask_fold(
                split_lines(content@),
                input_chain,
                donor_name@,
                Seq::<char>::empty(),
            ) == Err::<Seq<char>, Seq<char>>(e.line@),
        },
{
    let chars = str_chars(content);
    let lines = split_lines_exec(&chars);
    let dn = str_chars(donor_name);
    let ghost lseq = split_lines(content@);
    let mut out: Vec<char> = Vec::new();
    assert(lseq.skip(0) =~= lseq);
    assert(out@ =~= Seq::<char>::empty());
    let mut i: usize = 0;
    while i < lines.len()
        invariant
            0 <= i <= lines@.len(),
            lines_view(lines@) == lseq,
            lseq == split_lines(content@),
            dn@ == donor_name@,
            unmask_fold(lseq.skip(i as int), input_chain, donor_name@, out@) == unmask_fold(
                lseq,
                input_chain,
                donor_name@,
                Seq::<char>::empty(),
            ),
        decreases lines@.len() - i,
    {
        proof {
            assert(lseq.skip(i as int)[0] == lseq[i as int]);
            assert(lseq.skip(i as int).drop_first() =~= lseq.skip(i as int + 1));
            assert(lseq[i as int] == lines@[i as int]@);
        }
        match unmask_line_exec(&lines[i], input_chain, &dn) {
            Ok(mut t) => {
                let ghost tv = t@;
                let ghost out_old = out@;
                out.append(&mut t);
                out.push('\n');
                proof {
                    reveal_strlit("\n");
                    assert(out@ =~= out_old + tv + "\n"@);
                }
            },
            Err(_) => {
                return Err(ParseError { line: chars_to_string(&lines[i]) });
            },
        }
        i = i + 1;
    }
    assert(lseq.skip(lseq.len() as int) =~= Seq::<Seq<char>>::empty());
    Ok(chars_to_string(&out))
}

// ---------------------------------------------------------------------------
// Extracting one chain's atom lines
// ---------------------------------------------------------------------------

/// The atom lines of one chain, in order, each with a newline; all
/// other lines are dropped, and an atom line with a blank chain column
/// aborts with that line.
pub open spec fn select_fold(lines: Seq<Seq<char>>, chain: char, acc: Seq<char>) -> Result<
    Seq<char>,
    Seq<char>,
>
    decreases lines.len(),
{
    if lines.len() == 0 {
        Ok(acc)
    } else {
        let line = lines[0];
        if !starts_with(line, "ATOM"@) {
            select_fold(lines.drop_first(), chain, acc)
        } else {
            let cid = trim(field(line, 21, 22));
            if cid.len() == 0 {
                Err(line)
            } else if cid[0] == chain {
                select_fold(lines.drop_first(), chain, acc + line + "\n"@)
            } else {
                select_fold(lines.drop_first(), chain, acc)
            }
        }
    }
}

/// Keeps only the atom lines of the given chain, exactly as
/// `select_fold` lays them out.
pub fn select_chain_lines(content: &str, chain: char) -> (r: Result<String, ParseError>)
    ensures
        match r {
            Ok(out) => select_fold(split_lines(content@), chain, Seq::<char>::empty()) == Ok::<
                Seq<char>,
                Seq<char>,
            >(out@),
            Err(e) => select_fold(split_lines(content@), chain, Seq::<char>::empty()) == Err::<
                Seq<char>,
                Seq<char>,
            >(e.line@),
        },
{
    let chars = str_chars(content);
    let lines = split_lines_exec(&chars);
    let ghost lseq = split_lines(content@);
    let mut out: Vec<char> = Vec::new();
    assert(lseq.skip(0) =~= lseq);
    assert(out@ =~= Seq::<char>::empty());
    let mut i: usize = 0;
    while i < lines.len()
        invariant
            0 <= i <= lines@.len(),
            lines_view(lines@) == lseq,
            lseq == split_lines(content@),
            select_fold(lseq.skip(i as int), chain, out@) == select_fold(
                lseq,
                chain,
                Seq::<char>::empty(),
            ),
        decreases lines@.len() - i,
    {
        proof {
            assert(lseq.skip(i as int)[0] == lseq[i as int]);
            assert(lseq.skip(i as int).drop_first() =~= lseq.skip(i as int + 1));
            assert(lseq[i as int] == lines@[i as int]@);
        }
        let line = &lines[i];
        if starts_with_exec(line, "ATOM") {
            let cid = trim_chars(&field_chars(line, 21, 22));
            if cid.len() == 0 {
                return Err(ParseError { line: chars_to_string(line) });
            }
            if cid[0] == chain {
                let mut t = copy_chars(line);
                let ghost out_old = out@;
                out.append(&mut t);
                out.push('\n');
                proof {
                    reveal_strlit("\n");
                    assert(out@ =~= out_old + lseq[i as int] + "\n"@);
                }
            }
        }
        i = i + 1;
    }
    assert(lseq.skip(lseq.len() as int) =~= Seq::<Seq<char>>::empty());
    Ok(chars_to_string(&out))
}

} // verus!
