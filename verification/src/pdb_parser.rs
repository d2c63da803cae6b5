//! The structural data model and its parser: a Structure → Model → Chain
//! → Residue → Atom tree reconstructed from the flat, fixed-column atomic
//! coordinate text format, together with a simplified fixed-format
//! writer.
//!
//! Coordinates are integer thousandths of a distance unit (the format
//! carries three decimal places), occupancy and temperature factor
//! integer hundredths (the format carries two); both are exact.

use vstd::prelude::*;

use crate::text::{
    char_at, char_at_exec, chars_eq_str, chars_to_string, field, field_chars,
    fixed_str, fmt_fixed, fmt_int, int_str, lemma_parse_fixed_bound, lemma_pow10_values,
    lines_view, pad_left, pad_left_exec, pad_right, pad_right_exec, parse_fixed_spec,
    parse_fixed_field, parse_int_spec, parse_int_field, pow10, split_lines, split_lines_exec,
    str_chars, str_eq, trim, trim_chars,
};

verus! {

// ---------------------------------------------------------------------------
// The entity tree and its mathematical views
// ---------------------------------------------------------------------------

/// One atom record: identity, position in the tree, exact fixed-point
/// coordinates, and the remaining annotation columns.
#[derive(Debug)]
pub struct Atom {
    pub serial: i64,
    pub name: String,
    pub alt_loc: char,
    pub res_name: String,
    pub chain_id: char,
    pub res_seq: i64,
    pub icode: char,
    /// x coordinate in thousandths of a distance unit.
    pub x: i64,
    /// y coordinate in thousandths of a distance unit.
    pub y: i64,
    /// z coordinate in thousandths of a distance unit.
    pub z: i64,
    /// Occupancy in hundredths.
    pub occupancy: i64,
    /// Temperature factor in hundredths.
    pub temp_factor: i64,
    pub element: String,
    pub charge: String,
}

#[verifier::ext_equal]
pub ghost struct AtomView {
    pub serial: int,
    pub name: Seq<char>,
    pub alt_loc: char,
    pub res_name: Seq<char>,
    pub chain_id: char,
    pub res_seq: int,
    pub icode: char,
    pub x: int,
    pub y: int,
    pub z: int,
    pub occupancy: int,
    pub temp_factor: int,
    pub element: Seq<char>,
    pub charge: Seq<char>,
}

impl View for Atom {
    type V = AtomView;

    open spec fn view(&self) -> AtomView {
        AtomView {
            serial: self.serial as int,
            name: self.name@,
            alt_loc: self.alt_loc,
            res_name: self.res_name@,
            chain_id: self.chain_id,
            res_seq: self.res_seq as int,
            icode: self.icode,
            x: self.x as int,
            y: self.y as int,
            z: self.z as int,
            occupancy: self.occupancy as int,
            temp_factor: self.temp_factor as int,
            element: self.element@,
            charge: self.charge@,
        }
    }
}

/// One residue: a name, a sequence number, and its atoms in file order.
#[derive(Debug)]
pub struct Residue {
    pub name: String,
    pub id: i64,
    pub atoms: Vec<Atom>,
}

#[verifier::ext_equal]
pub ghost struct ResidueView {
    pub name: Seq<char>,
    pub id: int,
    pub atoms: Seq<AtomView>,
}

pub open spec fn atoms_view(s: Seq<Atom>) -> Seq<AtomView> {
    s.map_values(|a: Atom| a@)
}

impl View for Residue {
    type V = ResidueView;

    open spec fn view(&self) -> ResidueView {
        ResidueView { name: self.name@, id: self.id as int, atoms: atoms_view(self.atoms@) }
    }
}

/// One chain: an identifier character and its residues in file order.
#[derive(Debug)]
pub struct Chain {
    pub id: char,
    pub residues: Vec<Residue>,
}

#[verifier::ext_equal]
pub ghost struct ChainView {
    pub id: char,
    pub residues: Seq<ResidueView>,
}

pub open spec fn residues_view(s: Seq<Residue>) -> Seq<ResidueView> {
    s.map_values(|r: Residue| r@)
}

impl View for Chain {
    type V = ChainView;

    open spec fn view(&self) -> ChainView {
        ChainView { id: self.id, residues: residues_view(self.residues@) }
    }
}

/// One model: a serial number and its chains in file order.
#[derive(Debug)]
pub struct Model {
    pub serial_number: i64,
    pub chains: Vec<Chain>,
}

#[verifier::ext_equal]
pub ghost struct ModelView {
    pub serial: int,
    pub chains: Seq<ChainView>,
}

pub open spec fn chains_view(s: Seq<Chain>) -> Seq<ChainView> {
    s.map_values(|c: Chain| c@)
}

impl View for Model {
    type V = ModelView;

    open spec fn view(&self) -> ModelView {
        ModelView { serial: self.serial_number as int, chains: chains_view(self.chains@) }
    }
}

/// The root entity: the models of a parsed structure, in file order.
/// The residual `chains` list mirrors the original data model; the
/// parser never fills it.
#[derive(Debug)]
pub struct Structure {
    pub models: Vec<Model>,
    pub chains: Vec<Chain>,
}

#[verifier::ext_equal]
pub ghost struct StructureView {
    pub models: Seq<ModelView>,
    pub chains: Seq<ChainView>,
}

pub open spec fn models_view(s: Seq<Model>) -> Seq<ModelView> {
    s.map_values(|m: Model| m@)
}

impl View for Structure {
    type V = StructureView;

    open spec fn view(&self) -> StructureView {
        StructureView { models: models_view(self.models@), chains: chains_view(self.chains@) }
    }
}

impl Structure {
    /// An empty structure.
    pub fn new() -> (s: Self)
        ensures
            s@.models == Seq::<ModelView>::empty(),
            s@.chains == Seq::<ChainView>::empty(),
    {
        let s = Structure { models: Vec::new(), chains: Vec::new() };
        assert(s@.models =~= Seq::<ModelView>::empty());
        assert(s@.chains =~= Seq::<ChainView>::empty());
        s
    }
}

impl Atom {
    /// The atom's identity for self-exclusion: its serial number.
    pub fn get_atom_id(&self) -> (id: i64)
        ensures
            id as int == self@.serial,
    {
        self.serial
    }
}

/// A malformed fixed-column numeric field, carrying the offending line.
#[derive(Debug)]
pub struct ParseError {
    pub line: String,
}

// ---------------------------------------------------------------------------
// The record parser
// ---------------------------------------------------------------------------

/// Bound on well-formed coordinates: any value read from an 8-column
/// fixed-point field is below `pow10(11)` thousandths in magnitude.
pub open spec fn coord_ok(a: AtomView) -> bool {
    &&& -100_000_000_000 <= a.x <= 100_000_000_000
    &&& -100_000_000_000 <= a.y <= 100_000_000_000
    &&& -100_000_000_000 <= a.z <= 100_000_000_000
}

/// A blank field reads as zero; anything else must be a well-formed
/// decimal.
pub open spec fn blank_or_fixed(f: Seq<char>, max_frac: int) -> Option<int> {
    if trim(f).len() == 0 {
        Some(0)
    } else {
        parse_fixed_spec(f, max_frac)
    }
}

/// Meaning of an atom-or-heteroatom record: each field is read from its
/// fixed column range; serial, residue sequence and the three
/// coordinates must parse; occupancy and temperature factor default to
/// zero when blank; names are stored trimmed; single-character fields
/// read blank when the line is short.
pub open spec fn parse_atom_spec(line: Seq<char>) -> Option<AtomView> {
    let serial = parse_int_spec(field(line, 6, 11));
    let res_seq = parse_int_spec(field(line, 22, 26));
    let x = parse_fixed_spec(field(line, 30, 38), 3);
    let y = parse_fixed_spec(field(line, 38, 46), 3);
    let z = parse_fixed_spec(field(line, 46, 54), 3);
    let occ = blank_or_fixed(field(line, 54, 60), 2);
    let tf = blank_or_fixed(field(line, 60, 66), 2);
    if serial is Some && res_seq is Some && x is Some && y is Some && z is Some && occ is Some
        && tf is Some {
        Some(
            AtomView {
                serial: serial->Some_0,
                name: trim(field(line, 12, 16)),
                alt_loc: char_at(line, 16),
                res_name: trim(field(line, 17, 20)),
                chain_id: char_at(line, 21),
                res_seq: res_seq->Some_0,
                icode: char_at(line, 26),
                x: x->Some_0,
                y: y->Some_0,
                z: z->Some_0,
                occupancy: occ->Some_0,
                temp_factor: tf->Some_0,
                element: trim(field(line, 76, 78)),
                charge: trim(field(line, 78, 80)),
            },
        )
    } else {
        None
    }
}

/// Parses one atom-or-heteroatom line held as characters.
pub fn parse_atom_chars(line: &Vec<char>) -> (r: Option<Atom>)
    ensures
        match r {
            Some(a) => parse_atom_spec(line@) == Some(a@) && coord_ok(a@),
            None => parse_atom_spec(line@) is None,
        },
{
    let serial_w = field_chars(line, 6, 11);
    let serial = match parse_int_field(&serial_w) {
        Some(v) => v,
        None => {
            return None;
        },
    };
    let res_seq_w = field_chars(line, 22, 26);
    let res_seq = match parse_int_field(&res_seq_w) {
        Some(v) => v,
        None => {
            return None;
        },
    };
    let x_w = field_chars(line, 30, 38);
    let x = match parse_fixed_field(&x_w, 3) {
        Some(v) => v,
        None => {
            return None;
        },
    };
    let y_w = field_chars(line, 38, 46);
    let y = match parse_fixed_field(&y_w, 3) {
        Some(v) => v,
        None => {
            return None;
        },
    };
    let z_w = field_chars(line, 46, 54);
    let z = match parse_fixed_field(&z_w, 3) {
        Some(v) => v,
        None => {
            return None;
        },
    };
    let occ_w = field_chars(line, 54, 60);
    let occ_t = trim_chars(&occ_w);
    let occupancy: i64 = if occ_t.len() == 0 {
        0
    } else {
        match parse_fixed_field(&occ_w, 2) {
            Some(v) => v,
            None => {
                return None;
            },
        }
    };
    let tf_w = field_chars(line, 60, 66);
    let tf_t = trim_chars(&tf_w);
    let temp_factor: i64 = if tf_t.len() == 0 {
        0
    } else {
        match parse_fixed_field(&tf_w, 2) {
            Some(v) => v,
            None => {
                return None;
            },
        }
    };
    let name_t = trim_chars(&field_chars(line, 12, 16));
    let name = chars_to_string(&name_t);
    let res_name_t = trim_chars(&field_chars(line, 17, 20));
    let res_name = chars_to_string(&res_name_t);
    let element_t = trim_chars(&field_chars(line, 76, 78));
    let element = chars_to_string(&element_t);
    let charge_t = trim_chars(&field_chars(line, 78, 80));
    let charge = chars_to_string(&charge_t);
    let alt_loc = char_at_exec(line, 16);
    let chain_id = char_at_exec(line, 21);
    let icode = char_at_exec(line, 26);
    proof {
        lemma_parse_fixed_bound(field(line@, 30, 38), 3);
        lemma_parse_fixed_bound(field(line@, 38, 46), 3);
        lemma_parse_fixed_bound(field(line@, 46, 54), 3);
        lemma_pow10_values();
    }
    let a = Atom {
        serial,
        name,
        alt_loc,
        res_name,
        chain_id,
        res_seq,
        icode,
        x,
        y,
        z,
        occupancy,
        temp_factor,
        element,
        charge,
    };
    assert(parse_atom_spec(line@) == Some(a@));
    Some(a)
}

/// Parses one line of the format, as `parse_atom_spec` reads it; an
/// unparsable numeric field yields the offending line back.
pub fn parse_atom(line: &str) -> (r: Result<Atom, ParseError>)
    ensures
        match r {
            Ok(a) => parse_atom_spec(line@) == Some(a@),
            Err(e) => parse_atom_spec(line@) is None && e.line@ == line@,
        },
{
    let chars = str_chars(line);
    match parse_atom_chars(&chars) {
        Some(a) => Ok(a),
        None => Err(ParseError { line: line.to_owned() }),
    }
}

// ---------------------------------------------------------------------------
// The construction state machine
// ---------------------------------------------------------------------------

/// Classification of a line by its first six columns.
pub enum RecordKind {
    ModelStart,
    AtomRecord,
    ChainTerm,
    EndModel,
    Other,
}

/// A line shorter than six columns never matches a keyword.
pub open spec fn classify(line: Seq<char>) -> RecordKind {
    if line.len() >= 6 {
        let k = line.subrange(0, 6);
        if k == "MODEL "@ {
            RecordKind::ModelStart
        } else if k == "ATOM  "@ || k == "HETATM"@ {
            RecordKind::AtomRecord
        } else if k == "TER   "@ {
            RecordKind::ChainTerm
        } else if k == "ENDMDL"@ {
            RecordKind::EndModel
        } else {
            RecordKind::Other
        }
    } else {
        RecordKind::Other
    }
}

/// Classifies a line exactly as `classify` does.
pub fn classify_exec(line: &Vec<char>) -> (k: RecordKind)
    ensures
        k == classify(line@),
{
    if line.len() < 6 {
        return RecordKind::Other;
    }
    let prefix = field_chars(line, 0, 6);
    assert(prefix@ =~= line@.subrange(0, 6));
    if chars_eq_str(&prefix, "MODEL ") {
        RecordKind::ModelStart
    } else if chars_eq_str(&prefix, "ATOM  ") || chars_eq_str(&prefix, "HETATM") {
        RecordKind::AtomRecord
    } else if chars_eq_str(&prefix, "TER   ") {
        RecordKind::ChainTerm
    } else if chars_eq_str(&prefix, "ENDMDL") {
        RecordKind::EndModel
    } else {
        RecordKind::Other
    }
}

/// The accumulators of the scan: finished models, and the model, chain
/// and residue still being built.
#[verifier::ext_equal]
pub ghost struct ParserState {
    pub done: Seq<ModelView>,
    pub model: ModelView,
    pub chain: ChainView,
    pub residue: ResidueView,
}

pub open spec fn empty_residue() -> ResidueView {
    ResidueView { name: Seq::<char>::empty(), id: 0, atoms: Seq::<AtomView>::empty() }
}

pub open spec fn empty_chain() -> ChainView {
    ChainView { id: ' ', residues: Seq::<ResidueView>::empty() }
}

pub open spec fn init_state() -> ParserState {
    ParserState {
        done: Seq::<ModelView>::empty(),
        model: ModelView { serial: 1, chains: Seq::<ChainView>::empty() },
        chain: empty_chain(),
        residue: empty_residue(),
    }
}

/// A non-empty in-progress residue moves into the in-progress chain.
pub open spec fn flush_residue(st: ParserState) -> ParserState {
    if st.residue.atoms.len() > 0 {
        ParserState {
            chain: ChainView { id: st.chain.id, residues: st.chain.residues.push(st.residue) },
            residue: empty_residue(),
            ..st
        }
    } else {
        st
    }
}

/// A non-empty in-progress chain moves into the in-progress model; the
/// chain accumulator resets to a fresh blank-identified chain either
/// way.
pub open spec fn flush_chain(st: ParserState) -> ParserState {
    if st.chain.residues.len() > 0 {
        ParserState {
            model: ModelView { serial: st.model.serial, chains: st.model.chains.push(st.chain) },
            chain: empty_chain(),
            ..st
        }
    } else {
        ParserState { chain: empty_chain(), ..st }
    }
}

/// Effect of one atom record: a fresh chain adopts the atom's chain
/// identifier; the atom joins the in-progress residue when it carries
/// the same sequence number, and otherwise closes it and starts a new
/// residue named and numbered after the atom.
pub open spec fn add_atom(st: ParserState, a: AtomView) -> ParserState {
    let st1 = if st.chain.residues.len() == 0 && st.residue.atoms.len() == 0 {
        ParserState { chain: ChainView { id: a.chain_id, residues: st.chain.residues }, ..st }
    } else {
        st
    };
    if st1.residue.atoms.len() == 0 {
        ParserState {
            residue: ResidueView { name: a.res_name, id: a.res_seq, atoms: seq![a] },
            ..st1
        }
    } else if a.res_seq == st1.residue.id {
        ParserState {
            residue: ResidueView {
                name: st1.residue.name,
                id: st1.residue.id,
                atoms: st1.residue.atoms.push(a),
            },
            ..st1
        }
    } else {
        let st2 = flush_residue(st1);
        ParserState {
            residue: ResidueView { name: a.res_name, id: a.res_seq, atoms: seq![a] },
            ..st2
        }
    }
}

/// Effect of a chain terminator: residue then chain are flushed and the
/// chain accumulator resets.
pub open spec fn close_chain(st: ParserState) -> ParserState {
    flush_chain(flush_residue(st))
}

/// Model serial numbers advance by one, saturating at the integer
/// bound.
pub open spec fn sat_inc(n: int) -> int {
    if n < 0x7fff_ffff_ffff_ffff {
        n + 1
    } else {
        n
    }
}

/// Effect of an end-of-model record: residue and chain are flushed, the
/// model joins the structure, and fresh accumulators start with the
/// next serial number.
pub open spec fn close_model(st: ParserState) -> ParserState {
    let st1 = flush_chain(flush_residue(st));
    ParserState {
        done: st1.done.push(st1.model),
        model: ModelView { serial: sat_inc(st1.model.serial), chains: Seq::<ChainView>::empty() },
        chain: empty_chain(),
        residue: empty_residue(),
    }
}

/// Effect of one line on the accumulators; a malformed numeric field
/// yields the line itself as the error.
pub open spec fn step(st: ParserState, line: Seq<char>) -> Result<ParserState, Seq<char>> {
    match classify(line) {
        RecordKind::ModelStart => match parse_int_spec(field(line, 10, 14)) {
            Some(n) => Ok(
                ParserState {
                    model: ModelView { serial: n, chains: Seq::<ChainView>::empty() },
                    ..st
                },
            ),
            None => Err(line),
        },
        RecordKind::AtomRecord => match parse_atom_spec(line) {
            Some(a) => Ok(add_atom(st, a)),
            None => Err(line),
        },
        RecordKind::ChainTerm => Ok(close_chain(st)),
        RecordKind::EndModel => Ok(close_model(st)),
        RecordKind::Other => Ok(st),
    }
}

/// The scan folded over a sequence of lines.
pub open spec fn run_lines(st: ParserState, lines: Seq<Seq<char>>) -> Result<
    ParserState,
    Seq<char>,
>
    decreases lines.len(),
{
    if lines.len() == 0 {
        Ok(st)
    } else {
        match step(st, lines[0]) {
            Ok(s) => run_lines(s, lines.drop_first()),
            Err(l) => Err(l),
        }
    }
}

/// The mandatory end-of-input flush: any still-open residue, chain and
/// model are flushed, in that order.
pub open spec fn finish(st: ParserState) -> StructureView {
    let st1 = flush_chain(flush_residue(st));
    let models = if st1.model.chains.len() > 0 {
        st1.done.push(st1.model)
    } else {
        st1.done
    };
    StructureView { models, chains: Seq::<ChainView>::empty() }
}

/// Meaning of a whole parse: the lines of the text folded through the
/// state machine from the initial state, then flushed.
pub open spec fn parse_pdb_spec(content: Seq<char>) -> Result<StructureView, Seq<char>> {
    match run_lines(init_state(), split_lines(content)) {
        Ok(st) => Ok(finish(st)),
        Err(l) => Err(l),
    }
}

/// View of the four executable accumulators as one parser state.
pub open spec fn state_of(done: Seq<Model>, m: Model, c: Chain, r: Residue) -> ParserState {
    ParserState { done: models_view(done), model: m@, chain: c@, residue: r@ }
}

/// Parses the full text of a structure file.
///
/// The result is exactly the state-machine fold `parse_pdb_spec`; on
/// failure the error carries the first malformed line.
pub fn parse_pdb_file(file_content: &str) -> (r: Result<Structure, ParseError>)
    ensures
        match r {
            Ok(s) => parse_pdb_spec(file_content@) == Ok::<StructureView, Seq<char>>(s@),
            Err(e) => parse_pdb_spec(file_content@) == Err::<StructureView, Seq<char>>(e.line@),
        },
{
    let chars = str_chars(file_content);
    let lines = split_lines_exec(&chars);
    let ghost lseq = split_lines(file_content@);
    let mut done: Vec<Model> = Vec::new();
    let mut cur_model = Model { serial_number: 1, chains: Vec::new() };
    let mut cur_chain = Chain { id: ' ', residues: Vec::new() };
    let mut cur_residue = Residue { name: String::new(), id: 0, atoms: Vec::new() };
    assert(state_of(done@, cur_model, cur_chain, cur_residue) =~= init_state());
    assert(lseq.skip(0) =~= lseq);
    let mut i: usize = 0;
    while i < lines.len()
        invariant
            0 <= i <= lines@.len(),
            lines_view(lines@) == lseq,
            lseq == split_lines(file_content@),
            run_lines(state_of(done@, cur_model, cur_chain, cur_residue), lseq.skip(i as int))
                == run_lines(init_state(), lseq),
        decreases lines@.len() - i,
    {
        let ghost st0 = state_of(done@, cur_model, cur_chain, cur_residue);
        let ghost rest = lseq.skip(i as int);
        proof {
            assert(rest[0] == lines@[i as int]@);
            assert(rest.drop_first() =~= lseq.skip(i as int + 1));
        }
        let line = &lines[i];
        match classify_exec(line) {
            RecordKind::ModelStart => {
                let w = field_chars(line, 10, 14);
                match parse_int_field(&w) {
                    Some(n) => {
                        cur_model = Model { serial_number: n, chains: Vec::new() };
                        proof {
                            let stn = state_of(done@, cur_model, cur_chain, cur_residue);
                            assert(stn.model.chains =~= Seq::<ChainView>::empty());
                            assert(stn =~= step(st0, rest[0])->Ok_0);
                        }
                    },
                    None => {
                        return Err(ParseError { line: chars_to_string(line) });
                    },
                }
            },
            RecordKind::AtomRecord => {
                match parse_atom_chars(line) {
                    Some(atom) => {
                        let ghost av = atom@;
                        if cur_chain.residues.len() == 0 && cur_residue.atoms.len() == 0 {
                            cur_chain.id = atom.chain_id;
                        }
                        let ghost st1 = state_of(done@, cur_model, cur_chain, cur_residue);
                        proof {
                            if st0.chain.residues.len() == 0 && st0.residue.atoms.len() == 0 {
                                assert(st1 =~= ParserState {
                                    chain: ChainView {
                                        id: av.chain_id,
                                        residues: st0.chain.residues,
                                    },
                                    ..st0
                                });
                            } else {
                                assert(st1 =~= st0);
                            }
                        }
                        if cur_residue.atoms.len() == 0 {
                            cur_residue.name = atom.res_name.clone();
                            cur_residue.id = atom.res_seq;
                            cur_residue.atoms.push(atom);
                            proof {
                                let stn = state_of(done@, cur_model, cur_chain, cur_residue);
                                assert(stn.residue.atoms =~= seq![av]);
                                assert(stn =~= add_atom(st0, av));
                            }
                        } else if atom.res_seq == cur_residue.id {
                            cur_residue.atoms.push(atom);
                            proof {
                                let stn = state_of(done@, cur_model, cur_chain, cur_residue);
                                assert(stn.residue.atoms =~= st1.residue.atoms.push(av));
                                assert(stn =~= add_atom(st0, av));
                            }
                        } else {
                            let ghost old_residues = cur_chain.residues@;
                            let ghost old_res = cur_residue@;
                            cur_chain.residues.push(cur_residue);
                            proof {
                                assert(residues_view(cur_chain.residues@) =~= residues_view(
                                    old_residues,
                                ).push(old_res));
                            }
                            let new_name = atom.res_name.clone();
                            let new_id = atom.res_seq;
                            let mut atoms: Vec<Atom> = Vec::new();
                            atoms.push(atom);
                            cur_residue = Residue { name: new_name, id: new_id, atoms };
                            proof {
                                let stn = state_of(done@, cur_model, cur_chain, cur_residue);
                                assert(stn.residue.atoms =~= seq![av]);
                                assert(stn.chain =~= flush_residue(st1).chain);
                            }
                        }
                        proof {
                            let stn = state_of(done@, cur_model, cur_chain, cur_residue);
                            assert(stn =~= add_atom(st0, av));
                        }
                    },
                    None => {
                        return Err(ParseError { line: chars_to_string(line) });
                    },
                }
            },
            RecordKind::ChainTerm => {
                if cur_residue.atoms.len() > 0 {
                    let ghost old_residues = cur_chain.residues@;
                    let ghost old_res = cur_residue@;
                    cur_chain.residues.push(cur_residue);
                    cur_residue = Residue { name: String::new(), id: 0, atoms: Vec::new() };
                    proof {
                        assert(residues_view(cur_chain.residues@) =~= residues_view(
                            old_residues,
                        ).push(old_res));
                        assert(cur_residue@ =~= empty_residue());
                    }
                }
                let ghost stf = state_of(done@, cur_model, cur_chain, cur_residue);
                proof {
                    assert(stf =~= flush_residue(st0));
                }
                if cur_chain.residues.len() > 0 {
                    let ghost old_chains = cur_model.chains@;
                    let ghost old_chain = cur_chain@;
                    cur_model.chains.push(cur_chain);
                    cur_chain = Chain { id: ' ', residues: Vec::new() };
                    proof {
                        assert(chains_view(cur_model.chains@) =~= chains_view(old_chains).push(
                            old_chain,
                        ));
                        assert(cur_chain@ =~= empty_chain());
                    }
                } else {
                    cur_chain.id = ' ';
                    proof {
                        assert(cur_chain@ =~= empty_chain());
                    }
                }
                proof {
                    let stn = state_of(done@, cur_model, cur_chain, cur_residue);
                    assert(stn =~= close_chain(st0));
                }
            },
            RecordKind::EndModel => {
                if cur_residue.atoms.len() > 0 {
                    let ghost old_residues = cur_chain.residues@;
                    let ghost old_res = cur_residue@;
                    cur_chain.residues.push(cur_residue);
                    proof {
                        assert(residues_view(cur_chain.residues@) =~= residues_view(
                            old_residues,
                        ).push(old_res));
                    }
                }
                cur_residue = Residue { name: String::new(), id: 0, atoms: Vec::new() };
                proof {
                    assert(cur_residue@ =~= empty_residue());
                }
                if cur_chain.residues.len() > 0 {
                    let ghost old_chains = cur_model.chains@;
                    let ghost old_chain = cur_chain@;
                    cur_model.chains.push(cur_chain);
                    cur_chain = Chain { id: ' ', residues: Vec::new() };
                    proof {
                        assert(chains_view(cur_model.chains@) =~= chains_view(old_chains).push(
                            old_chain,
                        ));
                        assert(cur_chain@ =~= empty_chain());
                    }
                } else {
                    cur_chain.id = ' ';
                    proof {
                        assert(cur_chain@ =~= empty_chain());
                    }
                }
                proof {
                    let st1 = flush_chain(flush_residue(st0));
                    assert(cur_model@ =~= st1.model);
                    assert(cur_chain@ =~= empty_chain());
                }
                let next_serial: i64 = if cur_model.serial_number < 0x7fff_ffff_ffff_ffff {
                    cur_model.serial_number + 1
                } else {
                    cur_model.serial_number
                };
                let ghost old_done = done@;
                let ghost old_model = cur_model@;
                done.push(cur_model);
                cur_model = Model { serial_number: next_serial, chains: Vec::new() };
                proof {
                    assert(models_view(done@) =~= models_view(old_done).push(old_model));
                    let stn = state_of(done@, cur_model, cur_chain, cur_residue);
                    assert(stn.model.chains =~= Seq::<ChainView>::empty());
                    assert(stn =~= close_model(st0));
                }
            },
            RecordKind::Other => {
                proof {
                    assert(state_of(done@, cur_model, cur_chain, cur_residue) =~= st0);
                }
            },
        }
        i = i + 1;
    }
    assert(lseq.skip(lseq.len() as int) =~= Seq::<Seq<char>>::empty());
    // end-of-input flush
    let ghost st_end = state_of(done@, cur_model, cur_chain, cur_residue);
    assert(run_lines(init_state(), lseq) == Ok::<ParserState, Seq<char>>(st_end));
    if cur_residue.atoms.len() > 0 {
        let ghost old_residues = cur_chain.residues@;
        let ghost old_res = cur_residue@;
        cur_chain.residues.push(cur_residue);
        proof {
            assert(residues_view(cur_chain.residues@) =~= residues_view(old_residues).push(
                old_res,
            ));
        }
    }
    assert(cur_chain@ =~= flush_residue(st_end).chain);
    if cur_chain.residues.len() > 0 {
        let ghost old_chains = cur_model.chains@;
        let ghost old_chain = cur_chain@;
        cur_model.chains.push(cur_chain);
        proof {
            assert(chains_view(cur_model.chains@) =~= chains_view(old_chains).push(old_chain));
        }
    }
    assert(cur_model@ =~= flush_chain(flush_residue(st_end)).model);
    if cur_model.chains.len() > 0 {
        let ghost old_done = done@;
        let ghost old_model = cur_model@;
        done.push(cur_model);
        proof {
            assert(models_view(done@) =~= models_view(old_done).push(old_model));
        }
    }
    let s = Structure { models: done, chains: Vec::new() };
    proof {
        assert(s@.chains =~= Seq::<ChainView>::empty());
        assert(s@ =~= finish(st_end));
    }
    Ok(s)
}

// ---------------------------------------------------------------------------
// Navigation
// ---------------------------------------------------------------------------

/// First atom of the sequence carrying the given name.
pub open spec fn find_atom(atoms: Seq<AtomView>, name: Seq<char>) -> Option<AtomView>
    decreases atoms.len(),
{
    if atoms.len() == 0 {
        None
    } else if atoms[0].name == name {
        Some(atoms[0])
    } else {
        find_atom(atoms.drop_first(), name)
    }
}

/// An atom found by name is one of the atoms searched.
pub proof fn lemma_find_atom_member(atoms: Seq<AtomView>, name: Seq<char>)
    requires
        find_atom(atoms, name) is Some,
    ensures
        atoms.contains(find_atom(atoms, name)->Some_0),
        find_atom(atoms, name)->Some_0.name == name,
    decreases atoms.len(),
{
    if atoms.len() > 0 {
        if atoms[0].name == name {
        } else {
            lemma_find_atom_member(atoms.drop_first(), name);
            let a = find_atom(atoms, name)->Some_0;
            let i = choose|i: int| 0 <= i < atoms.drop_first().len() && atoms.drop_first()[i] == a;
            assert(atoms[i + 1] == a);
        }
    }
}

/// All atoms of a sequence of residues, in order.
pub open spec fn atoms_in_residues(rs: Seq<ResidueView>) -> Seq<AtomView>
    decreases rs.len(),
{
    if rs.len() == 0 {
        Seq::<AtomView>::empty()
    } else {
        atoms_in_residues(rs.drop_last()) + rs.last().atoms
    }
}

/// All atoms of a sequence of chains, in order.
pub open spec fn atoms_in_chains(cs: Seq<ChainView>) -> Seq<AtomView>
    decreases cs.len(),
{
    if cs.len() == 0 {
        Seq::<AtomView>::empty()
    } else {
        atoms_in_chains(cs.drop_last()) + atoms_in_residues(cs.last().residues)
    }
}

/// All atoms of one model, in file order.
pub open spec fn model_atoms(m: ModelView) -> Seq<AtomView> {
    atoms_in_chains(m.chains)
}

/// All atoms of a sequence of models, in order.
pub open spec fn atoms_in_models(ms: Seq<ModelView>) -> Seq<AtomView>
    decreases ms.len(),
{
    if ms.len() == 0 {
        Seq::<AtomView>::empty()
    } else {
        atoms_in_models(ms.drop_last()) + model_atoms(ms.last())
    }
}

/// All atoms of a structure, in file order.
pub open spec fn structure_atoms(s: StructureView) -> Seq<AtomView> {
    atoms_in_models(s.models)
}

impl Residue {
    /// The first atom of this residue carrying the given name.
    pub fn get_atom_by_name(&self, name: &str) -> (r: Option<&Atom>)
        ensures
            match r {
                Some(a) => find_atom(self@.atoms, name@) == Some(a@),
                None => find_atom(self@.atoms, name@) is None,
            },
    {
        let ghost av = self@.atoms;
        assert(av.skip(0) =~= av);
        let mut i: usize = 0;
        while i < self.atoms.len()
            invariant
                0 <= i <= self.atoms@.len(),
                av == atoms_view(self.atoms@),
                find_atom(av, name@) == find_atom(av.skip(i as int), name@),
            decreases self.atoms@.len() - i,
        {
            proof {
                assert(av.skip(i as int)[0] == av[i as int]);
                assert(av.skip(i as int).drop_first() =~= av.skip(i as int + 1));
            }
            if str_eq(self.atoms[i].name.as_str(), name) {
                return Some(&self.atoms[i]);
            }
            i = i + 1;
        }
        None
    }
}

impl Model {
    /// All atoms of the model, flattened over chains and residues in
    /// file order.
    pub fn get_atoms(&self) -> (r: Vec<&Atom>)
        ensures
            r@.map_values(|a: &Atom| a@) == model_atoms(self@),
    {
        let ghost cs = self@.chains;
        let mut r: Vec<&Atom> = Vec::new();
        assert(r@.map_values(|a: &Atom| a@) =~= atoms_in_chains(cs.take(0)));
        let mut i: usize = 0;
        while i < self.chains.len()
            invariant
                0 <= i <= self.chains@.len(),
                cs == chains_view(self.chains@),
                r@.map_values(|a: &Atom| a@) == atoms_in_chains(cs.take(i as int)),
            decreases self.chains@.len() - i,
        {
            let chain = &self.chains[i];
            let ghost rs = chain@.residues;
            let ghost base = atoms_in_chains(cs.take(i as int));
            assert(r@.map_values(|a: &Atom| a@) =~= base + atoms_in_residues(rs.take(0)));
            let mut j: usize = 0;
            while j < chain.residues.len()
                invariant
                    0 <= j <= chain.residues@.len(),
                    rs == residues_view(chain.residues@),
                    r@.map_values(|a: &Atom| a@) == base + atoms_in_residues(rs.take(j as int)),
                decreases chain.residues@.len() - j,
            {
                let residue = &chain.residues[j];
                let ghost atoms = residue@.atoms;
                let ghost base2 = base + atoms_in_residues(rs.take(j as int));
                assert(r@.map_values(|a: &Atom| a@) =~= base2 + atoms.take(0));
                let mut k: usize = 0;
                while k < residue.atoms.len()
                    invariant
                        0 <= k <= residue.atoms@.len(),
                        atoms == atoms_view(residue.atoms@),
                        r@.map_values(|a: &Atom| a@) == base2 + atoms.take(k as int),
                    decreases residue.atoms@.len() - k,
                {
                    let ghost old_r = r@;
                    r.push(&residue.atoms[k]);
                    proof {
                        assert(r@.map_values(|a: &Atom| a@) =~= old_r.map_values(
                            |a: &Atom| a@,
                        ).push(atoms[k as int]));
                        assert(base2 + atoms.take(k as int + 1) =~= (base2 + atoms.take(
                            k as int,
                        )).push(atoms[k as int]));
                    }
                    k = k + 1;
                }
                proof {
                    assert(atoms.take(atoms.len() as int) =~= atoms);
                    assert(rs.take(j as int + 1).drop_last() =~= rs.take(j as int));
                    assert(rs.take(j as int + 1).last() == rs[j as int]);
                    assert(base + atoms_in_residues(rs.take(j as int + 1)) =~= base2 + atoms);
                }
                j = j + 1;
            }
            proof {
                assert(rs.take(rs.len() as int) =~= rs);
                assert(cs.take(i as int + 1).drop_last() =~= cs.take(i as int));
                assert(cs.take(i as int + 1).last() == cs[i as int]);
                assert(atoms_in_chains(cs.take(i as int + 1)) =~= base + atoms_in_residues(rs));
            }
            i = i + 1;
        }
        assert(cs.take(cs.len() as int) =~= cs);
        r
    }

    /// The first atom of the model, in flattened order, carrying the
    /// given name.
    pub fn get_atom_by_name(&self, name: &str) -> (r: Option<&Atom>)
        ensures
            match r {
                Some(a) => find_atom(model_atoms(self@), name@) == Some(a@),
                None => find_atom(model_atoms(self@), name@) is None,
            },
    {
        let all = self.get_atoms();
        let ghost av = model_atoms(self@);
        assert(av.skip(0) =~= av);
        let mut i: usize = 0;
        while i < all.len()
            invariant
                0 <= i <= all@.len(),
                av == all@.map_values(|a: &Atom| a@),
                av == model_atoms(self@),
                find_atom(av, name@) == find_atom(av.skip(i as int), name@),
            decreases all@.len() - i,
        {
            proof {
                assert(av[i as int] == all@[i as int]@);
                assert(av.skip(i as int)[0] == av[i as int]);
                assert(av.skip(i as int).drop_first() =~= av.skip(i as int + 1));
            }
            if str_eq(all[i].name.as_str(), name) {
                proof {
                    assert(av[i as int].name == name@);
                    assert(find_atom(av.skip(i as int), name@) == Some(av[i as int]));
                }
                return Some(all[i]);
            }
            i = i + 1;
        }
        None
    }
}

// ---------------------------------------------------------------------------
// Invariants of parsed structures
// ---------------------------------------------------------------------------

/// All coordinates of a structure are within the fixed-point bound.
pub open spec fn structure_ok(s: StructureView) -> bool {
    forall|i: int| 0 <= i < structure_atoms(s).len() ==> coord_ok(#[trigger] structure_atoms(s)[i])
}

/// The residue grouping invariant: a residue holds at least one atom,
/// and every atom of it carries the residue's sequence number.
pub open spec fn residue_grouped(r: ResidueView) -> bool {
    &&& r.atoms.len() > 0
    &&& forall|i: int| 0 <= i < r.atoms.len() ==> #[trigger] r.atoms[i].res_seq == r.id
    &&& forall|i: int| 0 <= i < r.atoms.len() ==> coord_ok(#[trigger] r.atoms[i])
}

pub open spec fn chain_grouped(c: ChainView) -> bool {
    forall|i: int| 0 <= i < c.residues.len() ==> residue_grouped(#[trigger] c.residues[i])
}

pub open spec fn model_grouped(m: ModelView) -> bool {
    forall|i: int| 0 <= i < m.chains.len() ==> chain_grouped(#[trigger] m.chains[i])
}

/// Every residue of every chain of every model is non-empty, all its
/// atoms share its sequence number, and all coordinates are in bounds.
pub open spec fn structure_grouped(s: StructureView) -> bool {
    forall|i: int| 0 <= i < s.models.len() ==> model_grouped(#[trigger] s.models[i])
}

/// Invariant of the scan: everything already built is grouped, and the
/// open residue's atoms carry its sequence number and bounded
/// coordinates.
spec fn state_grouped(st: ParserState) -> bool {
    &&& forall|i: int| 0 <= i < st.done.len() ==> model_grouped(#[trigger] st.done[i])
    &&& model_grouped(st.model)
    &&& chain_grouped(st.chain)
    &&& forall|i: int|
        0 <= i < st.residue.atoms.len() ==> #[trigger] st.residue.atoms[i].res_seq
            == st.residue.id
    &&& forall|i: int| 0 <= i < st.residue.atoms.len() ==> coord_ok(#[trigger] st.residue.atoms[i])
}

proof fn lemma_flush_residue_grouped(st: ParserState)
    requires
        state_grouped(st),
    ensures
        state_grouped(flush_residue(st)),
{
    let st1 = flush_residue(st);
    if st.residue.atoms.len() > 0 {
        assert(residue_grouped(st.residue));
        assert forall|i: int| 0 <= i < st1.chain.residues.len() implies residue_grouped(
            #[trigger] st1.chain.residues[i],
        ) by {
            if i < st.chain.residues.len() {
                assert(st1.chain.residues[i] == st.chain.residues[i]);
            } else {
                assert(st1.chain.residues[i] == st.residue);
            }
        }
    }
}

proof fn lemma_flush_chain_grouped(st: ParserState)
    requires
        state_grouped(st),
    ensures
        state_grouped(flush_chain(st)),
{
    let st1 = flush_chain(st);
    if st.chain.residues.len() > 0 {
        assert forall|i: int| 0 <= i < st1.model.chains.len() implies chain_grouped(
            #[trigger] st1.model.chains[i],
        ) by {
            if i < st.model.chains.len() {
                assert(st1.model.chains[i] == st.model.chains[i]);
            } else {
                assert(st1.model.chains[i] == st.chain);
            }
        }
    }
}

/// An atom read from the fixed columns has bounded coordinates.
pub proof fn lemma_parse_atom_coord_ok(line: Seq<char>)
    requires
        parse_atom_spec(line) is Some,
    ensures
        coord_ok(parse_atom_spec(line)->Some_0),
{
    lemma_parse_fixed_bound(field(line, 30, 38), 3);
    lemma_parse_fixed_bound(field(line, 38, 46), 3);
    lemma_parse_fixed_bound(field(line, 46, 54), 3);
    lemma_pow10_values();
}

proof fn lemma_step_grouped(st: ParserState, line: Seq<char>)
    requires
        state_grouped(st),
        step(st, line) is Ok,
    ensures
        state_grouped(step(st, line)->Ok_0),
{
    match classify(line) {
        RecordKind::AtomRecord => {
            let a = parse_atom_spec(line)->Some_0;
            lemma_parse_atom_coord_ok(line);
            let st1 = if st.chain.residues.len() == 0 && st.residue.atoms.len() == 0 {
                ParserState {
                    chain: ChainView { id: a.chain_id, residues: st.chain.residues },
                    ..st
                }
            } else {
                st
            };
            assert(state_grouped(st1));
            if st1.residue.atoms.len() == 0 {
            } else if a.res_seq == st1.residue.id {
                let stn = step(st, line)->Ok_0;
                assert forall|i: int| 0 <= i < stn.residue.atoms.len() implies
                    #[trigger] stn.residue.atoms[i].res_seq == stn.residue.id by {
                    if i < st1.residue.atoms.len() {
                        assert(stn.residue.atoms[i] == st1.residue.atoms[i]);
                    } else {
                        assert(stn.residue.atoms[i] == a);
                    }
                }
                assert forall|i: int| 0 <= i < stn.residue.atoms.len() implies coord_ok(
                    #[trigger] stn.residue.atoms[i],
                ) by {
                    if i < st1.residue.atoms.len() {
                        assert(stn.residue.atoms[i] == st1.residue.atoms[i]);
                    } else {
                        assert(stn.residue.atoms[i] == a);
                    }
                }
            } else {
                lemma_flush_residue_grouped(st1);
            }
        },
        RecordKind::ChainTerm => {
            lemma_flush_residue_grouped(st);
            lemma_flush_chain_grouped(flush_residue(st));
        },
        RecordKind::EndModel => {
            lemma_flush_residue_grouped(st);
            lemma_flush_chain_grouped(flush_residue(st));
            let st1 = flush_chain(flush_residue(st));
            let stn = step(st, line)->Ok_0;
            assert forall|i: int| 0 <= i < stn.done.len() implies model_grouped(
                #[trigger] stn.done[i],
            ) by {
                if i < st1.done.len() {
                    assert(stn.done[i] == st1.done[i]);
                } else {
                    assert(stn.done[i] == st1.model);
                }
            }
        },
        _ => {},
    }
}

proof fn lemma_run_grouped(st: ParserState, lines: Seq<Seq<char>>)
    requires
        state_grouped(st),
        run_lines(st, lines) is Ok,
    ensures
        state_grouped(run_lines(st, lines)->Ok_0),
    decreases lines.len(),
{
    if lines.len() > 0 {
        lemma_step_grouped(st, lines[0]);
        lemma_run_grouped(step(st, lines[0])->Ok_0, lines.drop_first());
    }
}

/// The residue grouping invariant of every successfully parsed
/// structure: atoms that share a sequence number contiguously form one
/// residue, so each residue is non-empty and homogeneous in its
/// sequence number; and every parsed coordinate is within the
/// fixed-point bound, so the structure is ready for neighbor searches.
pub proof fn lemma_parse_grouped(content: Seq<char>)
    requires
        parse_pdb_spec(content) is Ok,
    ensures
        structure_grouped(parse_pdb_spec(content)->Ok_0),
        structure_ok(parse_pdb_spec(content)->Ok_0),
{
    let st = run_lines(init_state(), split_lines(content))->Ok_0;
    lemma_run_grouped(init_state(), split_lines(content));
    lemma_flush_residue_grouped(st);
    lemma_flush_chain_grouped(flush_residue(st));
    let st1 = flush_chain(flush_residue(st));
    let s = parse_pdb_spec(content)->Ok_0;
    assert forall|i: int| 0 <= i < s.models.len() implies model_grouped(
        #[trigger] s.models[i],
    ) by {
        if i < st1.done.len() {
            assert(s.models[i] == st1.done[i]);
        } else {
            assert(s.models[i] == st1.model);
        }
    }
    lemma_structure_grouped_ok(s);
}

/// A grouped structure has all its flattened atoms in bounds.
proof fn lemma_structure_grouped_ok(s: StructureView)
    requires
        forall|i: int| 0 <= i < s.models.len() ==> model_grouped(#[trigger] s.models[i]),
    ensures
        structure_ok(s),
{
    lemma_atoms_in_models_ok(s.models);
}

proof fn lemma_atoms_in_residues_ok(rs: Seq<ResidueView>)
    requires
        forall|i: int| 0 <= i < rs.len() ==> residue_grouped(#[trigger] rs[i]),
    ensures
        forall|i: int|
            0 <= i < atoms_in_residues(rs).len() ==> coord_ok(#[trigger] atoms_in_residues(rs)[i]),
    decreases rs.len(),
{
    if rs.len() > 0 {
        assert(forall|i: int| 0 <= i < rs.drop_last().len() ==> rs.drop_last()[i] == rs[i]);
        lemma_atoms_in_residues_ok(rs.drop_last());
        let front = atoms_in_residues(rs.drop_last());
        let full = atoms_in_residues(rs);
        assert(residue_grouped(rs.last()));
        assert forall|i: int| 0 <= i < full.len() implies coord_ok(#[trigger] full[i]) by {
            if i < front.len() {
                assert(full[i] == front[i]);
            } else {
                assert(full[i] == rs.last().atoms[i - front.len()]);
            }
        }
    }
}

proof fn lemma_atoms_in_chains_ok(cs: Seq<ChainView>)
    requires
        forall|i: int| 0 <= i < cs.len() ==> chain_grouped(#[trigger] cs[i]),
    ensures
        forall|i: int|
            0 <= i < atoms_in_chains(cs).len() ==> coord_ok(#[trigger] atoms_in_chains(cs)[i]),
    decreases cs.len(),
{
    if cs.len() > 0 {
        assert(forall|i: int| 0 <= i < cs.drop_last().len() ==> cs.drop_last()[i] == cs[i]);
        lemma_atoms_in_chains_ok(cs.drop_last());
        lemma_atoms_in_residues_ok(cs.last().residues);
        let front = atoms_in_chains(cs.drop_last());
        let full = atoms_in_chains(cs);
        assert forall|i: int| 0 <= i < full.len() implies coord_ok(#[trigger] full[i]) by {
            if i < front.len() {
                assert(full[i] == front[i]);
            } else {
                assert(full[i] == atoms_in_residues(cs.last().residues)[i - front.len()]);
            }
        }
    }
}

proof fn lemma_atoms_in_models_ok(ms: Seq<ModelView>)
    requires
        forall|i: int| 0 <= i < ms.len() ==> model_grouped(#[trigger] ms[i]),
    ensures
        forall|i: int|
            0 <= i < atoms_in_models(ms).len() ==> coord_ok(#[trigger] atoms_in_models(ms)[i]),
    decreases ms.len(),
{
    if ms.len() > 0 {
        assert(forall|i: int| 0 <= i < ms.drop_last().len() ==> ms.drop_last()[i] == ms[i]);
        lemma_atoms_in_models_ok(ms.drop_last());
        lemma_atoms_in_chains_ok(ms.last().chains);
        let front = atoms_in_models(ms.drop_last());
        let full = atoms_in_models(ms);
        assert forall|i: int| 0 <= i < full.len() implies coord_ok(#[trigger] full[i]) by {
            if i < front.len() {
                assert(full[i] == front[i]);
            } else {
                assert(full[i] == atoms_in_chains(ms.last().chains)[i - front.len()]);
            }
        }
    }
}

/// Folding one more line at the end of the scan.
proof fn lemma_run_snoc(st: ParserState, lines: Seq<Seq<char>>)
    requires
        lines.len() > 0,
    ensures
        run_lines(st, lines) == match run_lines(st, lines.drop_last()) {
            Ok(s) => step(s, lines.last()),
            Err(l) => Err::<ParserState, Seq<char>>(l),
        },
    decreases lines.len(),
{
    if lines.len() == 1 {
        assert(lines.drop_last() =~= Seq::<Seq<char>>::empty());
        assert(lines.drop_first() =~= Seq::<Seq<char>>::empty());
        assert(lines[0] == lines.last());
        assert(run_lines(st, lines.drop_last()) == Ok::<ParserState, Seq<char>>(st));
        match step(st, lines[0]) {
            Ok(s1) => {
                assert(run_lines(s1, lines.drop_first()) == Ok::<ParserState, Seq<char>>(s1));
            },
            Err(_) => {},
        }
        assert(run_lines(st, lines) == step(st, lines.last()));
    } else {
        match step(st, lines[0]) {
            Ok(s1) => {
                lemma_run_snoc(s1, lines.drop_first());
                assert(lines.drop_first().drop_last() =~= lines.drop_last().drop_first());
                assert(lines.drop_first().last() == lines.last());
                assert(lines.drop_last()[0] == lines[0]);
                assert(lines.drop_last().len() > 0);
                assert(run_lines(st, lines) == run_lines(s1, lines.drop_first()));
                assert(run_lines(st, lines.drop_last()) == run_lines(
                    s1,
                    lines.drop_last().drop_first(),
                ));
            },
            Err(_) => {
                assert(lines.drop_last()[0] == lines[0]);
                assert(lines.drop_last().len() > 0);
            },
        }
    }
}

/// The end-of-input flush: when the last line of a successfully parsed
/// text is an atom record, the final structure still holds that atom —
/// its residue, chain and model are all flushed, and the atom stands
/// last in the last residue of the last chain of the last model.
pub proof fn lemma_trailing_atom_flushed(content: Seq<char>)
    requires
        parse_pdb_spec(content) is Ok,
        split_lines(content).len() > 0,
        classify(split_lines(content).last()) is AtomRecord,
    ensures
        ({
            let s = parse_pdb_spec(content)->Ok_0;
            let a = parse_atom_spec(split_lines(content).last())->Some_0;
            &&& s.models.len() > 0
            &&& s.models.last().chains.len() > 0
            &&& s.models.last().chains.last().residues.len() > 0
            &&& s.models.last().chains.last().residues.last().atoms.len() > 0
            &&& s.models.last().chains.last().residues.last().atoms.last() == a
        }),
{
    let lines = split_lines(content);
    lemma_run_snoc(init_state(), lines);
    let st_mid = run_lines(init_state(), lines.drop_last())->Ok_0;
    let a = parse_atom_spec(lines.last())->Some_0;
    let st_end = add_atom(st_mid, a);
    assert(run_lines(init_state(), lines) == step(st_mid, lines.last()));
    assert(step(st_mid, lines.last()) == Ok::<ParserState, Seq<char>>(st_end));
    assert(st_end.residue.atoms.len() > 0);
    assert(st_end.residue.atoms.last() == a);
    let s = parse_pdb_spec(content)->Ok_0;
    let st1 = flush_residue(st_end);
    assert(st1.chain.residues.len() > 0);
    assert(st1.chain.residues.last() == st_end.residue);
    let st2 = flush_chain(st1);
    assert(st2.model.chains.len() > 0);
    assert(st2.model.chains.last() == st1.chain);
    assert(s.models.len() > 0);
    assert(s.models.last() == st2.model);
}

// ---------------------------------------------------------------------------
// The simplified fixed-format writer
// ---------------------------------------------------------------------------

/// One atom line of the writer's simplified projection.  The residue
/// name and number come from the owning residue, not from the atom's
/// own columns.
pub open spec fn render_atom_line(chain_id: char, res_name: Seq<char>, res_id: int, a: AtomView)
    -> Seq<char> {
    "ATOM  "@ + pad_left(int_str(a.serial), 5) + " "@ + pad_right(a.name, 4) + " "@ + pad_left(
        res_name,
        3,
    ) + " "@ + seq![chain_id] + " "@ + int_str(res_id) + pad_left(seq![a.icode], 4) + "    "@
        + pad_left(fixed_str(a.x, 3), 8) + " "@ + pad_left(fixed_str(a.y, 3), 8) + " "@ + pad_left(
        fixed_str(a.z, 3),
        8,
    ) + "  "@ + pad_left(fixed_str(a.occupancy, 2), 6) + " "@ + pad_left(
        fixed_str(a.temp_factor, 2),
        6,
    ) + "          "@ + pad_left(a.element, 2) + pad_left(a.charge, 2) + "\n"@
}

pub open spec fn render_atoms(chain_id: char, res_name: Seq<char>, res_id: int, atoms: Seq<
    AtomView,
>) -> Seq<char>
    decreases atoms.len(),
{
    if atoms.len() == 0 {
        Seq::<char>::empty()
    } else {
        render_atoms(chain_id, res_name, res_id, atoms.drop_last()) + render_atom_line(
            chain_id,
            res_name,
            res_id,
            atoms.last(),
        )
    }
}

/// One residue: its summary line, then its atom lines.
pub open spec fn render_residue(chain_id: char, r: ResidueView) -> Seq<char> {
    "RESIDUE "@ + pad_left(int_str(r.id), 3) + " "@ + pad_right(r.name, 3) + " "@ + pad_left(
        seq![chain_id],
        4,
    ) + "\n"@ + render_atoms(chain_id, r.name, r.id, r.atoms)
}

pub open spec fn render_residues(chain_id: char, rs: Seq<ResidueView>) -> Seq<char>
    decreases rs.len(),
{
    if rs.len() == 0 {
        Seq::<char>::empty()
    } else {
        render_residues(chain_id, rs.drop_last()) + render_residue(chain_id, rs.last())
    }
}

/// One chain: its identifier line, then its residues.
pub open spec fn render_chain(c: ChainView) -> Seq<char> {
    "CHAIN "@ + pad_left(seq![c.id], 2) + " \n"@ + render_residues(c.id, c.residues)
}

pub open spec fn render_chains(cs: Seq<ChainView>) -> Seq<char>
    decreases cs.len(),
{
    if cs.len() == 0 {
        Seq::<char>::empty()
    } else {
        render_chains(cs.drop_last()) + render_chain(cs.last())
    }
}

/// One model: its serial line, its chains, and its closing line.
pub open spec fn render_model(m: ModelView) -> Seq<char> {
    "MODEL "@ + pad_left(int_str(m.serial), 4) + "\n"@ + render_chains(m.chains) + "ENDMDL\n"@
}

pub open spec fn render_models(ms: Seq<ModelView>) -> Seq<char>
    decreases ms.len(),
{
    if ms.len() == 0 {
        Seq::<char>::empty()
    } else {
        render_models(ms.drop_last()) + render_model(ms.last())
    }
}

/// The writer's whole output for a structure: its models in order.
/// This is a simplified projection of the input format, not a
/// byte-exact re-encoding: only semantic field values are preserved.
pub open spec fn render_structure(s: StructureView) -> Seq<char> {
    render_models(s.models)
}

fn append_lit(out: &mut Vec<char>, lit: &str)
    ensures
        final(out)@ == old(out)@ + lit@,
{
    let mut piece = str_chars(lit);
    out.append(&mut piece);
}

/// Builds one atom line, exactly as `render_atom_line` lays it out.
fn build_atom_line(chain_id: char, res_name: &str, res_id: i64, a: &Atom) -> (r: Vec<char>)
    ensures
        r@ == render_atom_line(chain_id, res_name@, res_id as int, a@),
{
    let mut out: Vec<char> = Vec::new();
    assert(out@ =~= Seq::<char>::empty());
    append_lit(&mut out, "ATOM  ");
    assert(out@ =~= "ATOM  "@);
    let mut p = pad_left_exec(fmt_int(a.serial), 5);
    out.append(&mut p);
    append_lit(&mut out, " ");
    let mut p = pad_right_exec(str_chars(a.name.as_str()), 4);
    out.append(&mut p);
    append_lit(&mut out, " ");
    let mut p = pad_left_exec(str_chars(res_name), 3);
    out.append(&mut p);
    append_lit(&mut out, " ");
    out.push(chain_id);
    assert(out@ =~= ("ATOM  "@ + pad_left(int_str(a@.serial), 5) + " "@ + pad_right(a@.name, 4)
        + " "@ + pad_left(res_name@, 3) + " "@) + seq![chain_id]);
    append_lit(&mut out, " ");
    let mut p = fmt_int(res_id);
    out.append(&mut p);
    let mut icv: Vec<char> = Vec::new();
    icv.push(a.icode);
    assert(icv@ =~= seq![a@.icode]);
    let mut p = pad_left_exec(icv, 4);
    out.append(&mut p);
    append_lit(&mut out, "    ");
    let mut p = pad_left_exec(fmt_fixed(a.x, 3), 8);
    out.append(&mut p);
    append_lit(&mut out, " ");
    let mut p = pad_left_exec(fmt_fixed(a.y, 3), 8);
    out.append(&mut p);
    append_lit(&mut out, " ");
    let mut p = pad_left_exec(fmt_fixed(a.z, 3), 8);
    out.append(&mut p);
    append_lit(&mut out, "  ");
    let mut p = pad_left_exec(fmt_fixed(a.occupancy, 2), 6);
    out.append(&mut p);
    append_lit(&mut out, " ");
    let mut p = pad_left_exec(fmt_fixed(a.temp_factor, 2), 6);
    out.append(&mut p);
    append_lit(&mut out, "          ");
    let mut p = pad_left_exec(str_chars(a.element.as_str()), 2);
    out.append(&mut p);
    let mut p = pad_left_exec(str_chars(a.charge.as_str()), 2);
    out.append(&mut p);
    append_lit(&mut out, "\n");
    assert(out@ =~= render_atom_line(chain_id, res_name@, res_id as int, a@));
    out
}

/// Produces the simplified fixed-format text of a whole structure,
/// exactly as `render_structure` lays it out.
#[verifier::rlimit(100)]
pub fn write_pdb(structure: &Structure) -> (r: String)
    ensures
        r@ == render_structure(structure@),
{
    let ghost ms = structure@.models;
    let mut out: Vec<char> = Vec::new();
    assert(out@ =~= render_models(ms.take(0)));
    let mut mi: usize = 0;
    while mi < structure.models.len()
        invariant
            0 <= mi <= structure.models@.len(),
            ms == models_view(structure.models@),
            out@ == render_models(ms.take(mi as int)),
        decreases structure.models@.len() - mi,
    {
        let model = &structure.models[mi];
        let ghost cs = model@.chains;
        let ghost base0 = render_models(ms.take(mi as int));
        append_lit(&mut out, "MODEL ");
        let mut p = pad_left_exec(fmt_int(model.serial_number), 4);
        out.append(&mut p);
        append_lit(&mut out, "\n");
        let ghost header = "MODEL "@ + pad_left(int_str(model@.serial), 4) + "\n"@;
        assert(out@ =~= base0 + header);
        assert(out@ =~= base0 + header + render_chains(cs.take(0)));
        let mut ci: usize = 0;
        while ci < model.chains.len()
            invariant
                0 <= ci <= model.chains@.len(),
                cs == chains_view(model.chains@),
                0 <= mi < structure.models@.len(),
                model == &structure.models[mi as int],
                header == "MODEL "@ + pad_left(int_str(model@.serial), 4) + "\n"@,
                out@ == base0 + header + render_chains(cs.take(ci as int)),
            decreases model.chains@.len() - ci,
        {
            let chain = &model.chains[ci];
            let ghost rs = chain@.residues;
            let ghost base1 = base0 + header + render_chains(cs.take(ci as int));
            append_lit(&mut out, "CHAIN ");
            let mut idv: Vec<char> = Vec::new();
            idv.push(chain.id);
            assert(idv@ =~= seq![chain@.id]);
            let mut p = pad_left_exec(idv, 2);
            out.append(&mut p);
            append_lit(&mut out, " \n");
            let ghost cheader = "CHAIN "@ + pad_left(seq![chain@.id], 2) + " \n"@;
            assert(out@ =~= base1 + cheader);
            assert(out@ =~= base1 + cheader + render_residues(chain@.id, rs.take(0)));
            let mut ri: usize = 0;
            while ri < chain.residues.len()
                invariant
                    0 <= ri <= chain.residues@.len(),
                    rs == residues_view(chain.residues@),
                    0 <= mi < structure.models@.len(),
                    0 <= ci < model.chains@.len(),
                    model == &structure.models[mi as int],
                    chain == &model.chains[ci as int],
                    cheader == "CHAIN "@ + pad_left(seq![chain@.id], 2) + " \n"@,
                    out@ == base1 + cheader + render_residues(chain@.id, rs.take(ri as int)),
                decreases chain.residues@.len() - ri,
            {
                let residue = &chain.residues[ri];
                let ghost atoms = residue@.atoms;
                let ghost base2 = base1 + cheader + render_residues(chain@.id, rs.take(ri as int));
                append_lit(&mut out, "RESIDUE ");
                let mut p = pad_left_exec(fmt_int(residue.id), 3);
                out.append(&mut p);
                append_lit(&mut out, " ");
                let mut p = pad_right_exec(str_chars(residue.name.as_str()), 3);
                out.append(&mut p);
                append_lit(&mut out, " ");
                let mut idv: Vec<char> = Vec::new();
                idv.push(chain.id);
                assert(idv@ =~= seq![chain@.id]);
                let mut p = pad_left_exec(idv, 4);
                out.append(&mut p);
                append_lit(&mut out, "\n");
                let ghost rheader = "RESIDUE "@ + pad_left(int_str(residue@.id), 3) + " "@
                    + pad_right(residue@.name, 3) + " "@ + pad_left(seq![chain@.id], 4) + "\n"@;
                assert(out@ =~= base2 + rheader);
                assert(out@ =~= base2 + rheader + render_atoms(
                    chain@.id,
                    residue@.name,
                    residue@.id,
                    atoms.take(0),
                ));
                let mut ai: usize = 0;
                while ai < residue.atoms.len()
                    invariant
                        0 <= ai <= residue.atoms@.len(),
                        atoms == atoms_view(residue.atoms@),
                        0 <= mi < structure.models@.len(),
                        0 <= ci < model.chains@.len(),
                        0 <= ri < chain.residues@.len(),
                        model == &structure.models[mi as int],
                        chain == &model.chains[ci as int],
                        residue == &chain.residues[ri as int],
                        out@ == base2 + rheader + render_atoms(
                            chain@.id,
                            residue@.name,
                            residue@.id,
                            atoms.take(ai as int),
                        ),
                    decreases residue.atoms@.len() - ai,
                {
                    let mut line = build_atom_line(
                        chain.id,
                        residue.name.as_str(),
                        residue.id,
                        &residue.atoms[ai],
                    );
                    out.append(&mut line);
                    proof {
                        assert(atoms.take(ai as int + 1).drop_last() =~= atoms.take(ai as int));
                        assert(atoms.take(ai as int + 1).last() == atoms[ai as int]);
                        assert(out@ =~= base2 + rheader + render_atoms(
                            chain@.id,
                            residue@.name,
                            residue@.id,
                            atoms.take(ai as int + 1),
                        ));
                    }
                    ai = ai + 1;
                }
                proof {
                    assert(atoms.take(atoms.len() as int) =~= atoms);
                    assert(rs.take(ri as int + 1).drop_last() =~= rs.take(ri as int));
                    assert(rs.take(ri as int + 1).last() == rs[ri as int]);
                    assert(out@ =~= base1 + cheader + render_residues(
                        chain@.id,
                        rs.take(ri as int + 1),
                    ));
                }
                ri = ri + 1;
            }
            proof {
                assert(rs.take(rs.len() as int) =~= rs);
                assert(cs.take(ci as int + 1).drop_last() =~= cs.take(ci as int));
                assert(cs.take(ci as int + 1).last() == cs[ci as int]);
                assert(out@ =~= base0 + header + render_chains(cs.take(ci as int + 1)));
            }
            ci = ci + 1;
        }
        append_lit(&mut out, "ENDMDL\n");
        proof {
            assert(cs.take(cs.len() as int) =~= cs);
            assert(ms.take(mi as int + 1).drop_last() =~= ms.take(mi as int));
            assert(ms.take(mi as int + 1).last() == ms[mi as int]);
            assert(out@ =~= render_models(ms.take(mi as int + 1)));
        }
        mi = mi + 1;
    }
    assert(ms.take(ms.len() as int) =~= ms);
    chars_to_string(&out)
}

// ---------------------------------------------------------------------------
// Equality
// ---------------------------------------------------------------------------

/// Atom equality: every field, exactly.
pub open spec fn atom_eq_spec(a: AtomView, b: AtomView) -> bool {
    a == b
}

/// Residue equality as the original data model compares it: name and
/// sequence number, and the atoms pairwise over the shorter of the two
/// lists.
pub open spec fn residue_eq_spec(a: ResidueView, b: ResidueView) -> bool {
    &&& a.name == b.name
    &&& a.id == b.id
    &&& forall|i: int|
        0 <= i < a.atoms.len() && i < b.atoms.len() ==> atom_eq_spec(
            #[trigger] a.atoms[i],
            b.atoms[i],
        )
}

/// Chain equality: identifier, residue count, and the residues
/// pairwise.
pub open spec fn chain_eq_spec(a: ChainView, b: ChainView) -> bool {
    &&& a.id == b.id
    &&& a.residues.len() == b.residues.len()
    &&& forall|i: int|
        0 <= i < a.residues.len() ==> residue_eq_spec(#[trigger] a.residues[i], b.residues[i])
}

/// Model equality as the original data model compares it: serial
/// number, and the chains pairwise over the shorter of the two lists.
pub open spec fn model_eq_spec(a: ModelView, b: ModelView) -> bool {
    &&& a.serial == b.serial
    &&& forall|i: int|
        0 <= i < a.chains.len() && i < b.chains.len() ==> chain_eq_spec(
            #[trigger] a.chains[i],
            b.chains[i],
        )
}

/// Structure equality: model count and models pairwise, then the
/// residual chain list the same way.
pub open spec fn structure_eq_spec(a: StructureView, b: StructureView) -> bool {
    &&& a.models.len() == b.models.len()
    &&& forall|i: int|
        0 <= i < a.models.len() ==> model_eq_spec(#[trigger] a.models[i], b.models[i])
    &&& a.chains.len() == b.chains.len()
    &&& forall|i: int|
        0 <= i < a.chains.len() ==> chain_eq_spec(#[trigger] a.chains[i], b.chains[i])
}

impl PartialEq for Atom {
    fn eq(&self, other: &Self) -> (r: bool) {
        let r = self.serial == other.serial && str_eq(self.name.as_str(), other.name.as_str())
            && self.alt_loc == other.alt_loc && str_eq(
            self.res_name.as_str(),
            other.res_name.as_str(),
        ) && self.chain_id == other.chain_id && self.res_seq == other.res_seq && self.icode
            == other.icode && self.x == other.x && self.y == other.y && self.z == other.z
            && self.occupancy == other.occupancy && self.temp_factor == other.temp_factor
            && str_eq(self.element.as_str(), other.element.as_str()) && str_eq(
            self.charge.as_str(),
            other.charge.as_str(),
        );
        proof {
            if r {
                assert(self@ =~= other@);
            }
        }
        r
    }
}

impl vstd::std_specs::cmp::PartialEqSpecImpl for Atom {
    open spec fn obeys_eq_spec() -> bool {
        true
    }

    open spec fn eq_spec(&self, other: &Self) -> bool {
        atom_eq_spec(self@, other@)
    }
}

impl PartialEq for Residue {
    fn eq(&self, other: &Self) -> (r: bool) {
        if !str_eq(self.name.as_str(), other.name.as_str()) {
            return false;
        }
        if self.id != other.id {
            return false;
        }
        let n = if self.atoms.len() <= other.atoms.len() {
            self.atoms.len()
        } else {
            other.atoms.len()
        };
        let mut i: usize = 0;
        while i < n
            invariant
                0 <= i <= n,
                n <= self.atoms@.len(),
                n <= other.atoms@.len(),
                n == if self.atoms@.len() <= other.atoms@.len() {
                    self.atoms@.len()
                } else {
                    other.atoms@.len()
                },
                forall|j: int|
                    0 <= j < i ==> atom_eq_spec(#[trigger] self@.atoms[j], other@.atoms[j]),
            decreases n - i,
        {
            if !(self.atoms[i] == other.atoms[i]) {
                assert(!atom_eq_spec(self@.atoms[i as int], other@.atoms[i as int]));
                return false;
            }
            assert(atom_eq_spec(self@.atoms[i as int], other@.atoms[i as int]));
            i = i + 1;
        }
        true
    }
}

impl vstd::std_specs::cmp::PartialEqSpecImpl for Residue {
    open spec fn obeys_eq_spec() -> bool {
        true
    }

    open spec fn eq_spec(&self, other: &Self) -> bool {
        residue_eq_spec(self@, other@)
    }
}

impl PartialEq for Chain {
    fn eq(&self, other: &Self) -> (r: bool) {
        if self.id != other.id {
            return false;
        }
        if self.residues.len() != other.residues.len() {
            return false;
        }
        let mut i: usize = 0;
        while i < self.residues.len()
            invariant
                0 <= i <= self.residues@.len(),
                self.residues@.len() == other.residues@.len(),
                forall|j: int|
                    0 <= j < i ==> residue_eq_spec(#[trigger] self@.residues[j],
                        other@.residues[j]),
            decreases self.residues@.len() - i,
        {
            if !(self.residues[i] == other.residues[i]) {
                assert(!residue_eq_spec(self@.residues[i as int], other@.residues[i as int]));
                return false;
            }
            assert(residue_eq_spec(self@.residues[i as int], other@.residues[i as int]));
            i = i + 1;
        }
        true
    }
}

impl vstd::std_specs::cmp::PartialEqSpecImpl for Chain {
    open spec fn obeys_eq_spec() -> bool {
        true
    }

    open spec fn eq_spec(&self, other: &Self) -> bool {
        chain_eq_spec(self@, other@)
    }
}

impl PartialEq for Model {
    fn eq(&self, other: &Self) -> (r: bool) {
        if self.serial_number != other.serial_number {
            return false;
        }
        let n = if self.chains.len() <= other.chains.len() {
            self.chains.len()
        } else {
            other.chains.len()
        };
        let mut i: usize = 0;
        while i < n
            invariant
                0 <= i <= n,
                n <= self.chains@.len(),
                n <= other.chains@.len(),
                n == if self.chains@.len() <= other.chains@.len() {
                    self.chains@.len()
                } else {
                    other.chains@.len()
                },
                forall|j: int|
                    0 <= j < i ==> chain_eq_spec(#[trigger] self@.chains[j], other@.chains[j]),
            decreases n - i,
        {
            if !(self.chains[i] == other.chains[i]) {
                assert(!chain_eq_spec(self@.chains[i as int], other@.chains[i as int]));
                return false;
            }
            assert(chain_eq_spec(self@.chains[i as int], other@.chains[i as int]));
            i = i + 1;
        }
        true
    }
}

impl vstd::std_specs::cmp::PartialEqSpecImpl for Model {
    open spec fn obeys_eq_spec() -> bool {
        true
    }

    open spec fn eq_spec(&self, other: &Self) -> bool {
        model_eq_spec(self@, other@)
    }
}

impl Eq for Model {

}

impl PartialEq for Structure {
    fn eq(&self, other: &Self) -> (r: bool) {
        if self.models.len() != other.models.len() {
            return false;
        }
        if self.chains.len() != other.chains.len() {
            return false;
        }
        let mut i: usize = 0;
        while i < self.models.len()
            invariant
                0 <= i <= self.models@.len(),
                self.models@.len() == other.models@.len(),
                forall|j: int|
                    0 <= j < i ==> model_eq_spec(#[trigger] self@.models[j], other@.models[j]),
            decreases self.models@.len() - i,
        {
            if !(self.models[i] == other.models[i]) {
                assert(!model_eq_spec(self@.models[i as int], other@.models[i as int]));
                return false;
            }
            assert(model_eq_spec(self@.models[i as int], other@.models[i as int]));
            i = i + 1;
        }
        let mut i: usize = 0;
        while i < self.chains.len()
            invariant
                0 <= i <= self.chains@.len(),
                self.chains@.len() == other.chains@.len(),
                self.models@.len() == other.models@.len(),
                forall|j: int|
                    0 <= j < self.models@.len() ==> model_eq_spec(#[trigger] self@.models[j],
                        other@.models[j]),
                forall|j: int|
                    0 <= j < i ==> chain_eq_spec(#[trigger] self@.chains[j], other@.chains[j]),
            decreases self.chains@.len() - i,
        {
            if !(self.chains[i] == other.chains[i]) {
                assert(!chain_eq_spec(self@.chains[i as int], other@.chains[i as int]));
                return false;
            }
            assert(chain_eq_spec(self@.chains[i as int], other@.chains[i as int]));
            i = i + 1;
        }
        true
    }
}

impl vstd::std_specs::cmp::PartialEqSpecImpl for Structure {
    open spec fn obeys_eq_spec() -> bool {
        true
    }

    open spec fn eq_spec(&self, other: &Self) -> bool {
        structure_eq_spec(self@, other@)
    }
}

impl Clone for Atom {
    /// An exact copy.
    fn clone(&self) -> (res: Self)
        ensures
            res == *self,
    {
        Atom {
            serial: self.serial,
            name: self.name.clone(),
            alt_loc: self.alt_loc,
            res_name: self.res_name.clone(),
            chain_id: self.chain_id,
            res_seq: self.res_seq,
            icode: self.icode,
            x: self.x,
            y: self.y,
            z: self.z,
            occupancy: self.occupancy,
            temp_factor: self.temp_factor,
            element: self.element.clone(),
            charge: self.charge.clone(),
        }
    }
}

} // verus!
