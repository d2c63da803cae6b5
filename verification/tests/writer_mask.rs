use pp2predictor::mask::{
    carve, mask_query_atoms, mask_temp_atoms, select_chain_lines, unmask_atoms, MaskError,
};
use pp2predictor::pdb_parser::{parse_pdb_file, write_pdb};

fn atom_line(
    serial: i64,
    name: &str,
    res: &str,
    chain: char,
    seq: i64,
    x: &str,
    y: &str,
    z: &str,
) -> String {
    format!(
        "ATOM  {:>5} {:<4} {:<3} {}{:>4}    {:>8}{:>8}{:>8}{:>6}{:>6}          {:>2}{:>2}",
        serial, name, res, chain, seq, x, y, z, "1.00", "10.00", "N", ""
    )
}

#[test]
fn writer_emits_the_simplified_projection() {
    let l1 = atom_line(1, "N", "LYS", 'A', 1, "26.963", "27.470", "38.749");
    let content = format!("{}\nTER   \nENDMDL\n", l1);
    let s = parse_pdb_file(&content).unwrap();
    let out = write_pdb(&s);
    let expected = concat_lines(&[
        "MODEL    1",
        "CHAIN  A ",
        "RESIDUE   1 LYS    A",
        "ATOM      1 N    LYS A 1          26.963   27.470   38.749    1.00  10.00           N  ",
        "ENDMDL",
    ]);
    assert_eq!(out, expected);
}

fn concat_lines(lines: &[&str]) -> String {
    let mut s = String::new();
    for l in lines {
        s.push_str(l);
        s.push('\n');
    }
    s
}

#[test]
fn writer_renders_negative_and_fractional_coordinates() {
    let l1 = atom_line(7, "CA", "GLY", 'B', 12, "-0.500", "0.125", "-113.001");
    let content = format!("{}\nTER   \nENDMDL\n", l1);
    let s = parse_pdb_file(&content).unwrap();
    let out = write_pdb(&s);
    assert!(out.contains("  -0.500"));
    assert!(out.contains("   0.125"));
    assert!(out.contains("-113.001"));
}

#[test]
fn masking_renames_the_anchor_and_donor_atoms() {
    let lines = vec![
        atom_line(1, "NE1", "TRP", 'A', 1, "0.000", "0.000", "0.000"),
        atom_line(2, "CA", "TRP", 'A', 1, "1.000", "0.000", "0.000"),
        atom_line(3, "CZ3", "TRP", 'A', 1, "2.000", "0.000", "0.000"),
        atom_line(4, "OG", "SER", 'A', 2, "3.000", "0.000", "0.000"),
        atom_line(5, "CB", "SER", 'A', 2, "4.000", "0.000", "0.000"),
        atom_line(6, "N", "GLY", 'A', 3, "5.000", "0.000", "0.000"),
        "TER   ".to_string(),
        "ENDMDL".to_string(),
    ];
    let content = lines.join("\n") + "\n";
    let mut s = parse_pdb_file(&content).unwrap();
    mask_temp_atoms(&mut s, "OG", "SER");
    let names: Vec<String> = s.models[0].chains[0]
        .residues
        .iter()
        .flat_map(|r| r.atoms.iter().map(|a| a.name.clone()))
        .collect();
    assert_eq!(names, vec!["AA ", "BB", "CC ", "NX", "EE", "N"]);
}

#[test]
fn masking_pads_the_donor_name_by_its_width() {
    let lines = vec![
        atom_line(1, "OG1", "THR", 'A', 1, "0.000", "0.000", "0.000"),
        "TER   ".to_string(),
        "ENDMDL".to_string(),
    ];
    let content = lines.join("\n") + "\n";
    let mut s = parse_pdb_file(&content).unwrap();
    mask_temp_atoms(&mut s, "OG1", "THR");
    assert_eq!(s.models[0].chains[0].residues[0].atoms[0].name, "NX ");
}

#[test]
fn query_masking_rewrites_matching_atom_lines() {
    let l1 = atom_line(1, "NE1", "TRP", 'A', 5, "0.000", "0.000", "0.000");
    let l2 = atom_line(2, "NZ", "LYS", 'A', 9, "3.000", "0.000", "0.000");
    let l3 = atom_line(3, "CB", "LYS", 'A', 9, "4.000", "0.000", "0.000");
    let other = "REMARK    untouched";
    let content = format!("{}\n{}\n{}\n{}\nTER   \nENDMDL\n", l1, l2, l3, other);
    let out = mask_query_atoms(&content, "TRP", "LYS", "NZ").unwrap();
    let out_lines: Vec<&str> = out.lines().collect();
    assert_eq!(out_lines[0], l1.replace("NE1", "AA "));
    assert_eq!(out_lines[1], l2.replacen("NZ", "NX", 1));
    assert_eq!(out_lines[2], l3.replace("CB", "EE"));
    assert_eq!(out_lines[3], other);
}

#[test]
fn query_masking_reports_a_missing_residue() {
    let l1 = atom_line(1, "NE1", "TRP", 'A', 5, "0.000", "0.000", "0.000");
    let content = format!("{}\nTER   \nENDMDL\n", l1);
    match mask_query_atoms(&content, "TRP", "LYS", "NZ") {
        Err(MaskError::MissingResidue) => {},
        _ => panic!("a missing neighbor residue must be reported"),
    }
}

#[test]
fn unmasking_restores_the_original_names() {
    let masked1 = atom_line(1, "AA", "TRP", 'A', 5, "0.000", "0.000", "0.000");
    let masked2 = atom_line(2, "NX", "LYS", 'A', 9, "3.000", "0.000", "0.000");
    let other_chain = atom_line(3, "AA", "TRP", 'B', 5, "1.000", "0.000", "0.000");
    let content = format!("{}\n{}\n{}\n", masked1, masked2, other_chain);
    let out = unmask_atoms(&content, 'A', "NZ").unwrap();
    let out_lines: Vec<&str> = out.lines().collect();
    assert_eq!(out_lines[0], masked1.replace("AA", "NE1"));
    assert_eq!(out_lines[1], masked2.replacen("NX", "NZ", 1));
    assert_eq!(out_lines[2], other_chain);
}

#[test]
fn chain_selection_keeps_only_matching_atom_lines() {
    let a = atom_line(1, "N", "ALA", 'A', 1, "0.000", "0.000", "0.000");
    let b = atom_line(2, "N", "GLY", 'B', 1, "1.000", "0.000", "0.000");
    let content = format!("HEADER    x\n{}\n{}\nTER   \n", a, b);
    let out = select_chain_lines(&content, 'A').unwrap();
    assert_eq!(out, format!("{}\n", a));
}

#[test]
fn carving_keeps_the_chosen_chains_and_residues() {
    let lines = vec![
        atom_line(1, "N", "ALA", 'A', 1, "0.000", "0.000", "0.000"),
        atom_line(2, "N", "GLY", 'A', 2, "1.000", "0.000", "0.000"),
        "TER   ".to_string(),
        atom_line(3, "N", "SER", 'B', 1, "2.000", "0.000", "0.000"),
        "TER   ".to_string(),
        "ENDMDL".to_string(),
    ];
    let content = lines.join("\n") + "\n";
    let s = parse_pdb_file(&content).unwrap();
    let chains = ['A'];
    let ids = [2i64];
    let carved = carve(&s, &chains, &ids);
    assert_eq!(carved.models.len(), 1);
    assert_eq!(carved.models[0].serial_number, 1);
    assert_eq!(carved.models[0].chains.len(), 1);
    assert_eq!(carved.models[0].chains[0].id, 'A');
    assert_eq!(carved.models[0].chains[0].residues.len(), 1);
    assert_eq!(carved.models[0].chains[0].residues[0].name, "GLY");
}

#[test]
fn carving_everything_away_yields_an_empty_structure() {
    let l = atom_line(1, "N", "ALA", 'A', 1, "0.000", "0.000", "0.000");
    let content = format!("{}\nTER   \nENDMDL\n", l);
    let s = parse_pdb_file(&content).unwrap();
    let chains = ['Z'];
    let ids = [1i64];
    let carved = carve(&s, &chains, &ids);
    assert_eq!(carved.models.len(), 0);
}
