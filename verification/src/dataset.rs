//! The template dataset tables and the list-file readers: the fixed
//! table mapping each template structure identifier to its receptor and
//! peptide chains, and the whitespace-delimited hydrogen-bond list
//! formats.

use vstd::prelude::*;

use crate::text::{
    chars_eq_str, chars_to_string, lines_view, split_lines, split_lines_exec, str_chars, str_eq,
    to_upper, tokens, tokens_exec, upper,
};

verus! {

/// View of a vector of strings.
pub open spec fn strings_view(s: Seq<String>) -> Seq<Seq<char>> {
    s.map_values(|x: String| x@)
}

// ---------------------------------------------------------------------------
// The template dataset chain table
// ---------------------------------------------------------------------------

/// The identifiers of the template dataset structures, in table order.
pub open spec fn pdb_ids() -> Seq<Seq<char>> {
    seq![
        "4B6H"@, "4WSF"@, "5J3T"@, "1L2Z"@, "3FMA"@, "4CW1"@, "5C0D"@, "1JK8"@, "3PDO"@, "4P57"@,
        "2ODD"@, "2V8F"@, "1CKA"@, "1GBQ"@, "1SEM"@, "1UTI"@, "1YWO"@, "2DF6"@, "2DRM"@, "2J6F"@,
        "2LCS"@, "2ROL"@, "2RPN"@, "2VKN"@, "2VWF"@, "3I5R"@, "3U23"@, "3ULR"@, "4CC2"@, "4F14"@,
        "4HVW"@, "4J9C"@, "4LNP"@, "4U5W"@, "1JMQ"@, "2EZ5"@, "2JO9"@, "2LAW"@, "2LAZ"@,
    ]
}

/// The receptor chain of each template structure, in table order.
pub open spec fn receptor_chains() -> Seq<Seq<char>> {
    seq![
        "A"@, "A"@, "A"@, "A"@, "A"@, "A"@, "A"@, "B"@, "B"@, "A"@, "A"@, "B"@, "A"@, "A"@, "A"@,
        "A"@, "A"@, "A"@, "A"@, "A"@, "A"@, "A"@, "A"@, "A"@, "A"@, "A"@, "A"@, "B"@, "A"@, "A"@,
        "A"@, "A"@, "A"@, "D"@, "A"@, "W"@, "A"@, "A"@, "A"@,
    ]
}

/// The peptide chain of each template structure, in table order.
pub open spec fn peptide_chains() -> Seq<Seq<char>> {
    seq![
        "C"@, "B"@, "C"@, "B"@, "L"@, "F"@, "C"@, "C"@, "C"@, "B"@, "B"@, "C"@, "B"@, "B"@, "C"@,
        "D"@, "P"@, "C"@, "E"@, "C"@, "B"@, "B"@, "B"@, "C"@, "B"@, "B"@, "B"@, "C"@, "B"@, "B"@,
        "B"@, "B"@, "B"@, "C"@, "P"@, "P"@, "B"@, "B"@, "B"@,
    ]
}

/// The template dataset table: identifiers with their receptor and
/// peptide chains, as three parallel lists in table order.
pub fn load_pdb_chains() -> (r: (Vec<String>, Vec<String>, Vec<String>))
    ensures
        strings_view(r.0@) == pdb_ids(),
        strings_view(r.1@) == receptor_chains(),
        strings_view(r.2@) == peptide_chains(),
{
    let mut ids: Vec<String> = Vec::new();
    let mut recs: Vec<String> = Vec::new();
    let mut peps: Vec<String> = Vec::new();
    ids.push("4B6H".to_owned());recs.push("A".to_owned());peps.push("C".to_owned());
    ids.push("4WSF".to_owned());recs.push("A".to_owned());peps.push("B".to_owned());
    ids.push("5J3T".to_owned());recs.push("A".to_owned());peps.push("C".to_owned());
    ids.push("1L2Z".to_owned());recs.push("A".to_owned());peps.push("B".to_owned());
    ids.push("3FMA".to_owned());recs.push("A".to_owned());peps.push("L".to_owned());
    ids.push("4CW1".to_owned());recs.push("A".to_owned());peps.push("F".to_owned());
    ids.push("5C0D".to_owned());recs.push("A".to_owned());peps.push("C".to_owned());
    ids.push("1JK8".to_owned());recs.push("B".to_owned());peps.push("C".to_owned());
    ids.push("3PDO".to_owned());recs.push("B".to_owned());peps.push("C".to_owned());
    ids.push("4P57".to_owned());recs.push("A".to_owned());peps.push("B".to_owned());
    ids.push("2ODD".to_owned());recs.push("A".to_owned());peps.push("B".to_owned());
    ids.push("2V8F".to_owned());recs.push("B".to_owned());peps.push("C".to_owned());
    ids.push("1CKA".to_owned());recs.push("A".to_owned());peps.push("B".to_owned());
    ids.push("1GBQ".to_owned());recs.push("A".to_owned());peps.push("B".to_owned());
    ids.push("1SEM".to_owned());recs.push("A".to_owned());peps.push("C".to_owned());
    ids.push("1UTI".to_owned());recs.push("A".to_owned());peps.push("D".to_owned());
    ids.push("1YWO".to_owned());recs.push("A".to_owned());peps.push("P".to_owned());
    ids.push("2DF6".to_owned());recs.push("A".to_owned());peps.push("C".to_owned());
    ids.push("2DRM".to_owned());recs.push("A".to_owned());peps.push("E".to_owned());
    ids.push("2J6F".to_owned());recs.push("A".to_owned());peps.push("C".to_owned());
    ids.push("2LCS".to_owned());recs.push("A".to_owned());peps.push("B".to_owned());
    ids.push("2ROL".to_owned());recs.push("A".to_owned());peps.push("B".to_owned());
    ids.push("2RPN".to_owned());recs.push("A".to_owned());peps.push("B".to_owned());
    ids.push("2VKN".to_owned());recs.push("A".to_owned());peps.push("C".to_owned());
    ids.push("2VWF".to_owned());recs.push("A".to_owned());peps.push("B".to_owned());
    ids.push("3I5R".to_owned());recs.push("A".to_owned());peps.push("B".to_owned());
    ids.push("3U23".to_owned());recs.push("A".to_owned());peps.push("B".to_owned());
    ids.push("3ULR".to_owned());recs.push("B".to_owned());peps.push("C".to_owned());
    ids.push("4CC2".to_owned());recs.push("A".to_owned());peps.push("B".to_owned());
    ids.push("4F14".to_owned());recs.push("A".to_owned());peps.push("B".to_owned());
    ids.push("4HVW".to_owned());recs.push("A".to_owned());peps.push("B".to_owned());
    ids.push("4J9C".to_owned());recs.push("A".to_owned());peps.push("B".to_owned());
    ids.push("4LNP".to_owned());recs.push("A".to_owned());peps.push("B".to_owned());
    ids.push("4U5W".to_owned());recs.push("D".to_owned());peps.push("C".to_owned());
    ids.push("1JMQ".to_owned());recs.push("A".to_owned());peps.push("P".to_owned());
    ids.push("2EZ5".to_owned());recs.push("W".to_owned());peps.push("P".to_owned());
    ids.push("2JO9".to_owned());recs.push("A".to_owned());peps.push("B".to_owned());
    ids.push("2LAW".to_owned());recs.push("A".to_owned());peps.push("B".to_owned());
    ids.push("2LAZ".to_owned());recs.push("A".to_owned());peps.push("B".to_owned());
    assert(strings_view(ids@) =~= pdb_ids());
    assert(strings_view(recs@) =~= receptor_chains());
    assert(strings_view(peps@) =~= peptide_chains());
    (ids, recs, peps)
}

/// The value paired with the first identifier equal to `id`, walking
/// two parallel lists.
pub open spec fn chain_lookup(ids: Seq<Seq<char>>, vals: Seq<Seq<char>>, id: Seq<char>) -> Option<
    Seq<char>,
>
    decreases ids.len(),
{
    if ids.len() == 0 || vals.len() == 0 {
        None
    } else if ids[0] == id {
        Some(vals[0])
    } else {
        chain_lookup(ids.drop_first(), vals.drop_first(), id)
    }
}

/// The peptide chain of a template structure, looked up by its
/// identifier with letters raised to upper case; absent identifiers
/// yield nothing.
pub fn get_pep_chain(input_pdb: &str) -> (r: Option<String>)
    ensures
        match r {
            Some(v) => chain_lookup(pdb_ids(), peptide_chains(), upper(input_pdb@)) == Some(v@),
            None => chain_lookup(pdb_ids(), peptide_chains(), upper(input_pdb@)) is None,
        },
{
    let (ids, _recs, peps) = load_pdb_chains();
    lookup_chain(&ids, &peps, input_pdb)
}

/// The receptor chain of a template structure, looked up by its
/// identifier with letters raised to upper case; absent identifiers
/// yield nothing.
pub fn get_rec_chain(input_pdb: &str) -> (r: Option<String>)
    ensures
        match r {
            Some(v) => chain_lookup(pdb_ids(), receptor_chains(), upper(input_pdb@)) == Some(v@),
            None => chain_lookup(pdb_ids(), receptor_chains(), upper(input_pdb@)) is None,
        },
{
    let (ids, recs, _peps) = load_pdb_chains();
    lookup_chain(&ids, &recs, input_pdb)
}

/// Walks two parallel lists for the first identifier matching the
/// upper-cased input.
fn lookup_chain(ids: &Vec<String>, vals: &Vec<String>, input: &str) -> (r: Option<String>)
    requires
        ids@.len() == vals@.len(),
    ensures
        match r {
            Some(v) => chain_lookup(strings_view(ids@), strings_view(vals@), upper(input@))
                == Some(v@),
            None => chain_lookup(strings_view(ids@), strings_view(vals@), upper(input@)) is None,
        },
{
    let up = to_upper(input);
    let ghost iv = strings_view(ids@);
    let ghost vv = strings_view(vals@);
    assert(iv.skip(0) =~= iv);
    assert(vv.skip(0) =~= vv);
    let mut i: usize = 0;
    while i < ids.len()
        invariant
            0 <= i <= ids@.len(),
            ids@.len() == vals@.len(),
            iv == strings_view(ids@),
            vv == strings_view(vals@),
            up@ == upper(input@),
            chain_lookup(iv, vv, up@) == chain_lookup(iv.skip(i as int), vv.skip(i as int), up@),
        decreases ids@.len() - i,
    {
        proof {
            assert(iv.skip(i as int)[0] == iv[i as int]);
            assert(vv.skip(i as int)[0] == vv[i as int]);
            assert(iv.skip(i as int).drop_first() =~= iv.skip(i as int + 1));
            assert(vv.skip(i as int).drop_first() =~= vv.skip(i as int + 1));
        }
        if str_eq(ids[i].as_str(), up.as_str()) {
            let v = vals[i].clone();
            return Some(v);
        }
        i = i + 1;
    }
    assert(iv.skip(iv.len() as int) =~= Seq::<Seq<char>>::empty());
    None
}

// ---------------------------------------------------------------------------
// Hydrogen-bond list files
// ---------------------------------------------------------------------------

/// The entries of an acceptor list: each line carries at least three
/// whitespace-delimited tokens, read as (key, value, value); a shorter
/// line makes the whole file unreadable.
pub open spec fn acceptor_entries(lines: Seq<Seq<char>>) -> Option<
    Seq<(Seq<char>, Seq<char>, Seq<char>)>,
>
    decreases lines.len(),
{
    if lines.len() == 0 {
        Some(Seq::<(Seq<char>, Seq<char>, Seq<char>)>::empty())
    } else {
        let toks = tokens(lines.last());
        if toks.len() < 3 {
            None
        } else {
            match acceptor_entries(lines.drop_last()) {
                Some(front) => Some(front.push((toks[0], toks[1], toks[2]))),
                None => None,
            }
        }
    }
}

pub open spec fn acceptor_view(s: Seq<(String, String, String)>) -> Seq<
    (Seq<char>, Seq<char>, Seq<char>),
> {
    s.map_values(|t: (String, String, String)| (t.0@, t.1@, t.2@))
}

/// Reads an acceptor list: one entry per line, key and two values in
/// line order; later entries shadow earlier ones with the same key, as
/// the last-wins map insertion they stand for.
pub fn read_acceptor_list(content: &str) -> (r: Option<Vec<(String, String, String)>>)
    ensures
        match r {
            Some(v) => acceptor_entries(split_lines(content@)) == Some(acceptor_view(v@)),
            None => acceptor_entries(split_lines(content@)) is None,
        },
{
    let chars = str_chars(content);
    let lines = split_lines_exec(&chars);
    let ghost lseq = split_lines(content@);
    let mut out: Vec<(String, String, String)> = Vec::new();
    assert(acceptor_entries(lseq.take(0)) =~= Some(
        Seq::<(Seq<char>, Seq<char>, Seq<char>)>::empty(),
    ));
    assert(acceptor_view(out@) =~= Seq::<(Seq<char>, Seq<char>, Seq<char>)>::empty());
    let mut i: usize = 0;
    while i < lines.len()
        invariant
            0 <= i <= lines@.len(),
            lines_view(lines@) == lseq,
            lseq == split_lines(content@),
            acceptor_entries(lseq.take(i as int)) == Some(acceptor_view(out@)),
        decreases lines@.len() - i,
    {
        proof {
            assert(lseq.take(i as int + 1).drop_last() =~= lseq.take(i as int));
            assert(lseq.take(i as int + 1).last() == lseq[i as int]);
            assert(lseq[i as int] == lines@[i as int]@);
        }
        let toks = tokens_exec(&lines[i]);
        if toks.len() < 3 {
            proof {
                lemma_entries_poisoned(lseq, i as int);
            }
            return None;
        }
        let ghost old_out = out@;
        let entry = (
            chars_to_string(&toks[0]),
            chars_to_string(&toks[1]),
            chars_to_string(&toks[2]),
        );
        out.push(entry);
        proof {
            assert(lines_view(toks@)[0] == toks@[0]@);
            assert(lines_view(toks@)[1] == toks@[1]@);
            assert(lines_view(toks@)[2] == toks@[2]@);
            assert(acceptor_view(out@) =~= acceptor_view(old_out).push(
                (
                    tokens(lseq[i as int])[0],
                    tokens(lseq[i as int])[1],
                    tokens(lseq[i as int])[2],
                ),
            ));
        }
        i = i + 1;
    }
    assert(lseq.take(lseq.len() as int) =~= lseq);
    Some(out)
}

/// A short line anywhere leaves the whole list unreadable.
proof fn lemma_entries_poisoned(lines: Seq<Seq<char>>, i: int)
    requires
        0 <= i < lines.len(),
        tokens(lines[i]).len() < 3,
    ensures
        acceptor_entries(lines) is None,
    decreases lines.len(),
{
    if lines.len() > 0 {
        if i == lines.len() - 1 {
        } else {
            assert(lines.drop_last()[i] == lines[i]);
            lemma_entries_poisoned(lines.drop_last(), i);
        }
    }
}

/// The entries of a donor list: each line carries at least two
/// whitespace-delimited tokens, read as (key, value); a shorter line
/// makes the whole file unreadable.
pub open spec fn donor_entries(lines: Seq<Seq<char>>) -> Option<Seq<(Seq<char>, Seq<char>)>>
    decreases lines.len(),
{
    if lines.len() == 0 {
        Some(Seq::<(Seq<char>, Seq<char>)>::empty())
    } else {
        let toks = tokens(lines.last());
        if toks.len() < 2 {
            None
        } else {
            match donor_entries(lines.drop_last()) {
                Some(front) => Some(front.push((toks[0], toks[1]))),
                None => None,
            }
        }
    }
}

pub open spec fn donor_view(s: Seq<(String, String)>) -> Seq<(Seq<char>, Seq<char>)> {
    s.map_values(|t: (String, String)| (t.0@, t.1@))
}

/// Reads a donor list: one entry per line, key and value in line order;
/// later entries shadow earlier ones with the same key, as the
/// last-wins map insertion they stand for.
pub fn read_donor_list(content: &str) -> (r: Option<Vec<(String, String)>>)
    ensures
        match r {
            Some(v) => donor_entries(split_lines(content@)) == Some(donor_view(v@)),
            None => donor_entries(split_lines(content@)) is None,
        },
{
    let chars = str_chars(content);
    let lines = split_lines_exec(&chars);
    let ghost lseq = split_lines(content@);
    let mut out: Vec<(String, String)> = Vec::new();
    assert(donor_entries(lseq.take(0)) =~= Some(Seq::<(Seq<char>, Seq<char>)>::empty()));
    assert(donor_view(out@) =~= Seq::<(Seq<char>, Seq<char>)>::empty());
    let mut i: usize = 0;
    while i < lines.len()
        invariant
            0 <= i <= lines@.len(),
            lines_view(lines@) == lseq,
            lseq == split_lines(content@),
            donor_entries(lseq.take(i as int)) == Some(donor_view(out@)),
        decreases lines@.len() - i,
    {
        proof {
            assert(lseq.take(i as int + 1).drop_last() =~= lseq.take(i as int));
            assert(lseq.take(i as int + 1).last() == lseq[i as int]);
            assert(lseq[i as int] == lines@[i as int]@);
        }
        let toks = tokens_exec(&lines[i]);
        if toks.len() < 2 {
            proof {
                lemma_donor_entries_poisoned(lseq, i as int);
            }
            return None;
        }
        let ghost old_out = out@;
        let entry = (chars_to_string(&toks[0]), chars_to_string(&toks[1]));
        out.push(entry);
        proof {
            assert(lines_view(toks@)[0] == toks@[0]@);
            assert(lines_view(toks@)[1] == toks@[1]@);
            assert(donor_view(out@) =~= donor_view(old_out).push(
                (tokens(lseq[i as int])[0], tokens(lseq[i as int])[1]),
            ));
        }
        i = i + 1;
    }
    assert(lseq.take(lseq.len() as int) =~= lseq);
    Some(out)
}

/// A short line anywhere leaves the whole list unreadable.
proof fn lemma_donor_entries_poisoned(lines: Seq<Seq<char>>, i: int)
    requires
        0 <= i < lines.len(),
        tokens(lines[i]).len() < 2,
    ensures
        donor_entries(lines) is None,
    decreases lines.len(),
{
    if lines.len() > 0 {
        if i == lines.len() - 1 {
        } else {
            assert(lines.drop_last()[i] == lines[i]);
            lemma_donor_entries_poisoned(lines.drop_last(), i);
        }
    }
}

// ---------------------------------------------------------------------------
// Tryptophan hydrogen-bond records of the template dataset
// ---------------------------------------------------------------------------

/// Index of the first token equal to `t`, or the number of tokens.
pub open spec fn find_tok(toks: Seq<Seq<char>>, t: Seq<char>) -> int
    decreases toks.len(),
{
    if toks.len() == 0 {
        0
    } else if toks[0] == t {
        0
    } else {
        1 + find_tok(toks.drop_first(), t)
    }
}

pub proof fn lemma_find_tok_props(toks: Seq<Seq<char>>, t: Seq<char>)
    ensures
        0 <= find_tok(toks, t) <= toks.len(),
        find_tok(toks, t) < toks.len() ==> toks[find_tok(toks, t)] == t,
        forall|j: int| 0 <= j < find_tok(toks, t) ==> toks[j] != t,
    decreases toks.len(),
{
    if toks.len() > 0 && toks[0] != t {
        lemma_find_tok_props(toks.drop_first(), t);
        assert forall|j: int| 0 <= j < find_tok(toks, t) implies toks[j] != t by {
            if j > 0 {
                assert(toks.drop_first()[j - 1] != t);
            }
        }
    }
}

/// Effect of one line on the tryptophan list: a line whose first token
/// is the structure identifier and which mentions a tryptophan residue
/// contributes the token after the first mention, unless that token is
/// missing or already listed.
pub open spec fn hbond_step(acc: Seq<Seq<char>>, line: Seq<char>, pdb: Seq<char>) -> Seq<
    Seq<char>,
> {
    let toks = tokens(line);
    let p = find_tok(toks, "TRP"@);
    if toks.len() > 0 && toks[0] == pdb && p < toks.len() && p + 1 < toks.len() && !acc.contains(
        toks[p + 1],
    ) {
        acc.push(toks[p + 1])
    } else {
        acc
    }
}

pub open spec fn hbond_fold(lines: Seq<Seq<char>>, pdb: Seq<char>, acc: Seq<Seq<char>>) -> Seq<
    Seq<char>,
>
    decreases lines.len(),
{
    if lines.len() == 0 {
        acc
    } else {
        hbond_fold(lines.drop_first(), pdb, hbond_step(acc, lines[0], pdb))
    }
}

/// The tryptophan residue identifiers that the hydrogen-bond records of
/// one structure mention, in first-mention order, without repetition.
pub open spec fn hbond_trp_spec(content: Seq<char>, pdb: Seq<char>) -> Seq<Seq<char>> {
    hbond_fold(split_lines(content), pdb, Seq::<Seq<char>>::empty())
}

/// Whether a string with this view is already listed.
fn vec_contains_chars(v: &Vec<String>, w: &Vec<char>) -> (r: bool)
    ensures
        r == strings_view(v@).contains(w@),
{
    let ghost sv = strings_view(v@);
    let mut i: usize = 0;
    while i < v.len()
        invariant
            0 <= i <= v@.len(),
            sv == strings_view(v@),
            forall|j: int| 0 <= j < i ==> sv[j] != w@,
        decreases v@.len() - i,
    {
        let s = chars_to_string(w);
        if str_eq(v[i].as_str(), s.as_str()) {
            assert(sv[i as int] == w@);
            return true;
        }
        i = i + 1;
    }
    assert(!sv.contains(w@)) by {
        if sv.contains(w@) {
            let j = choose|j: int| 0 <= j < sv.len() && sv[j] == w@;
        }
    }
    false
}

/// The tryptophan residues involved in hydrogen bonds for one template
/// structure, read from the hydrogen-bond record text, exactly as
/// `hbond_trp_spec` folds it.
pub fn hbond_trp(input_pdb: &str, content: &str) -> (r: Vec<String>)
    ensures
        strings_view(r@) == hbond_trp_spec(content@, input_pdb@),
{
    let chars = str_chars(content);
    let lines = split_lines_exec(&chars);
    let ghost lseq = split_lines(content@);
    let mut out: Vec<String> = Vec::new();
    assert(lseq.skip(0) =~= lseq);
    assert(strings_view(out@) =~= Seq::<Seq<char>>::empty());
    let mut i: usize = 0;
    while i < lines.len()
        invariant
            0 <= i <= lines@.len(),
            lines_view(lines@) == lseq,
            hbond_fold(lseq.skip(i as int), input_pdb@, strings_view(out@)) == hbond_fold(
                lseq,
                input_pdb@,
                Seq::<Seq<char>>::empty(),
            ),
        decreases lines@.len() - i,
    {
        let ghost accv = strings_view(out@);
        proof {
            assert(lseq.skip(i as int)[0] == lseq[i as int]);
            assert(lseq.skip(i as int).drop_first() =~= lseq.skip(i as int + 1));
            assert(lseq[i as int] == lines@[i as int]@);
        }
        let toks = tokens_exec(&lines[i]);
        let ghost tv = tokens(lseq[i as int]);
        let mut p: usize = 0;
        assert(tv.skip(0) =~= tv);
        while p < toks.len() && !chars_eq_str(&toks[p], "TRP")
            invariant
                0 <= p <= toks@.len(),
                lines_view(toks@) == tv,
                forall|j: int| 0 <= j < p ==> tv[j] != "TRP"@,
            decreases toks@.len() - p,
        {
            assert(tv[p as int] == toks@[p as int]@);
            p = p + 1;
        }
        let hit = p < toks.len();
        proof {
            if hit {
                lemma_find_tok_at(tv, "TRP"@, p as int);
            } else {
                lemma_find_tok_at(tv, "TRP"@, tv.len() as int);
            }
        }
        if toks.len() > 0 && chars_eq_str(&toks[0], input_pdb) && hit && p + 1 < toks.len() {
            assert(tv[0] == toks@[0 as int]@);
            assert(tv[p as int + 1] == toks@[p as int + 1]@);
            let fresh = !vec_contains_chars(&out, &toks[p + 1]);
            if fresh {
                let ghost old_out = out@;
                let s = chars_to_string(&toks[p + 1]);
                out.push(s);
                proof {
                    assert(strings_view(out@) =~= strings_view(old_out).push(tv[p as int + 1]));
                }
            }
        }
        proof {
            assert(hbond_step(accv, lseq[i as int], input_pdb@) == strings_view(out@));
        }
        i = i + 1;
    }
    assert(lseq.skip(lseq.len() as int) =~= Seq::<Seq<char>>::empty());
    out
}

/// `find_tok` agrees with a left-to-right scan that stops at the first
/// match.
proof fn lemma_find_tok_at(toks: Seq<Seq<char>>, t: Seq<char>, m: int)
    requires
        0 <= m <= toks.len(),
        forall|j: int| 0 <= j < m ==> toks[j] != t,
        m == toks.len() || toks[m] == t,
    ensures
        find_tok(toks, t) == m,
    decreases m,
{
    if m > 0 {
        assert(toks[0] != t);
        lemma_find_tok_at(toks.drop_first(), t, m - 1);
    }
}

} // verus!
