use pp2predictor::pdb_parser::{parse_atom, parse_pdb_file, Structure};

fn atom_line(
    serial: i64,
    name: &str,
    alt: char,
    res: &str,
    chain: char,
    seq: i64,
    icode: char,
    x: &str,
    y: &str,
    z: &str,
    occ: &str,
    tf: &str,
    el: &str,
    ch: &str,
) -> String {
    format!(
        "ATOM  {:>5} {:<4}{}{:<3} {}{:>4}{}   {:>8}{:>8}{:>8}{:>6}{:>6}          {:>2}{:>2}",
        serial, name, alt, res, chain, seq, icode, x, y, z, occ, tf, el, ch
    )
}

#[test]
fn parses_every_field_from_its_columns() {
    let line = atom_line(
        1, "N", 'B', "LYS", 'A', 7, 'C', "26.963", "27.470", "38.749", "1.00", "10.00", "N", "1+",
    );
    let a = parse_atom(&line).unwrap();
    assert_eq!(a.serial, 1);
    assert_eq!(a.name, "N");
    assert_eq!(a.alt_loc, 'B');
    assert_eq!(a.res_name, "LYS");
    assert_eq!(a.chain_id, 'A');
    assert_eq!(a.res_seq, 7);
    assert_eq!(a.icode, 'C');
    assert_eq!(a.x, 26963);
    assert_eq!(a.y, 27470);
    assert_eq!(a.z, 38749);
    assert_eq!(a.occupancy, 100);
    assert_eq!(a.temp_factor, 1000);
    assert_eq!(a.element, "N");
    assert_eq!(a.charge, "1+");
}

#[test]
fn negative_coordinates_are_exact() {
    let line = atom_line(
        2, "CA", ' ', "GLY", 'B', -3, ' ', "-13.500", "0.001", "-0.250", "0.50", "0.00", "C", "",
    );
    let a = parse_atom(&line).unwrap();
    assert_eq!(a.serial, 2);
    assert_eq!(a.res_seq, -3);
    assert_eq!(a.x, -13500);
    assert_eq!(a.y, 1);
    assert_eq!(a.z, -250);
    assert_eq!(a.occupancy, 50);
    assert_eq!(a.temp_factor, 0);
    assert_eq!(a.charge, "");
}

#[test]
fn blank_occupancy_and_temp_factor_default_to_zero() {
    let line = atom_line(
        3, "O", ' ', "SER", 'A', 1, ' ', "1.000", "2.000", "3.000", "", "", "O", "",
    );
    let a = parse_atom(&line).unwrap();
    assert_eq!(a.occupancy, 0);
    assert_eq!(a.temp_factor, 0);
}

#[test]
fn malformed_serial_is_a_hard_error_with_the_line() {
    let line = atom_line(
        0, "N", ' ', "LYS", 'A', 1, ' ', "1.000", "2.000", "3.000", "1.00", "0.00", "N", "",
    );
    let bad = line.replacen("    0", "   xq", 1);
    let e = parse_atom(&bad).unwrap_err();
    assert_eq!(e.line, bad);
}

#[test]
fn malformed_coordinate_is_a_hard_error() {
    let line = atom_line(
        4, "N", ' ', "LYS", 'A', 1, ' ', "1.0.0", "2.000", "3.000", "1.00", "0.00", "N", "",
    );
    assert!(parse_atom(&line).is_err());
}

#[test]
fn short_line_is_a_hard_error() {
    assert!(parse_atom("ATOM      5").is_err());
}

#[test]
fn residue_grouping_follows_the_sequence_number() {
    let l1 = atom_line(1, "N", ' ', "LYS", 'A', 1, ' ', "0.000", "0.000", "0.000", "1.00", "0.00", "N", "");
    let l2 = atom_line(2, "CA", ' ', "LYS", 'A', 1, ' ', "1.000", "0.000", "0.000", "1.00", "0.00", "C", "");
    let l3 = atom_line(3, "N", ' ', "GLY", 'A', 2, ' ', "2.000", "0.000", "0.000", "1.00", "0.00", "N", "");
    let content = format!("{}\n{}\n{}\nTER   \nENDMDL\n", l1, l2, l3);
    let s = parse_pdb_file(&content).unwrap();
    assert_eq!(s.models.len(), 1);
    assert_eq!(s.models[0].serial_number, 1);
    assert_eq!(s.models[0].chains.len(), 1);
    let chain = &s.models[0].chains[0];
    assert_eq!(chain.id, 'A');
    assert_eq!(chain.residues.len(), 2);
    assert_eq!(chain.residues[0].id, 1);
    assert_eq!(chain.residues[0].name, "LYS");
    assert_eq!(chain.residues[0].atoms.len(), 2);
    assert_eq!(chain.residues[1].id, 2);
    assert_eq!(chain.residues[1].name, "GLY");
    assert_eq!(chain.residues[1].atoms.len(), 1);
}

#[test]
fn trailing_atom_without_terminator_is_still_flushed() {
    let l1 = atom_line(1, "N", ' ', "TRP", 'Q', 9, ' ', "0.000", "0.000", "0.000", "1.00", "0.00", "N", "");
    let s = parse_pdb_file(&l1).unwrap();
    assert_eq!(s.models.len(), 1);
    assert_eq!(s.models[0].chains.len(), 1);
    assert_eq!(s.models[0].chains[0].id, 'Q');
    assert_eq!(s.models[0].chains[0].residues.len(), 1);
    let r = &s.models[0].chains[0].residues[0];
    assert_eq!(r.id, 9);
    assert_eq!(r.atoms.len(), 1);
    assert_eq!(r.atoms[0].serial, 1);
}

#[test]
fn explicit_models_take_their_serial_and_implicit_increment() {
    let l1 = atom_line(1, "N", ' ', "ALA", 'A', 1, ' ', "0.000", "0.000", "0.000", "1.00", "0.00", "N", "");
    let l2 = atom_line(2, "N", ' ', "ALA", 'B', 1, ' ', "1.000", "0.000", "0.000", "1.00", "0.00", "N", "");
    let content = format!("MODEL        3\n{}\nENDMDL\n{}\nENDMDL\n", l1, l2);
    let s = parse_pdb_file(&content).unwrap();
    assert_eq!(s.models.len(), 2);
    assert_eq!(s.models[0].serial_number, 3);
    assert_eq!(s.models[1].serial_number, 4);
}

#[test]
fn malformed_model_serial_is_a_hard_error() {
    let content = "MODEL      abc\n";
    let e = parse_pdb_file(content).unwrap_err();
    assert_eq!(e.line, "MODEL      abc");
}

#[test]
fn unrecognized_records_are_skipped() {
    let l1 = atom_line(1, "N", ' ', "ALA", 'A', 1, ' ', "0.000", "0.000", "0.000", "1.00", "0.00", "N", "");
    let content = format!("HEADER    something\nREMARK  1\n{}\nTER   \nENDMDL\n", l1);
    let s = parse_pdb_file(&content).unwrap();
    assert_eq!(s.models.len(), 1);
    assert_eq!(s.models[0].chains[0].residues.len(), 1);
}

#[test]
fn terminator_separates_chains() {
    let l1 = atom_line(1, "N", ' ', "ALA", 'A', 1, ' ', "0.000", "0.000", "0.000", "1.00", "0.00", "N", "");
    let l2 = atom_line(2, "N", ' ', "GLY", 'B', 1, ' ', "5.000", "0.000", "0.000", "1.00", "0.00", "N", "");
    let content = format!("{}\nTER   \n{}\nTER   \nENDMDL\n", l1, l2);
    let s = parse_pdb_file(&content).unwrap();
    assert_eq!(s.models[0].chains.len(), 2);
    assert_eq!(s.models[0].chains[0].id, 'A');
    assert_eq!(s.models[0].chains[1].id, 'B');
}

#[test]
fn structure_new_is_empty() {
    let s = Structure::new();
    assert_eq!(s.models.len(), 0);
    assert_eq!(s.chains.len(), 0);
}

#[test]
fn navigation_finds_atoms_by_name() {
    let l1 = atom_line(1, "N", ' ', "TRP", 'A', 1, ' ', "0.000", "0.000", "0.000", "1.00", "0.00", "N", "");
    let l2 = atom_line(2, "NE1", ' ', "TRP", 'A', 1, ' ', "1.000", "0.000", "0.000", "1.00", "0.00", "N", "");
    let content = format!("{}\n{}\nTER   \nENDMDL\n", l1, l2);
    let s = parse_pdb_file(&content).unwrap();
    let residue = &s.models[0].chains[0].residues[0];
    let ne1 = residue.get_atom_by_name("NE1").unwrap();
    assert_eq!(ne1.serial, 2);
    assert_eq!(ne1.get_atom_id(), 2);
    assert!(residue.get_atom_by_name("CZ3").is_none());
    let model = &s.models[0];
    assert_eq!(model.get_atoms().len(), 2);
    assert_eq!(model.get_atom_by_name("N").unwrap().serial, 1);
    assert!(model.get_atom_by_name("XX").is_none());
}

#[test]
fn atom_equality_compares_every_field() {
    let line = atom_line(1, "N", ' ', "LYS", 'A', 1, ' ', "1.000", "2.000", "3.000", "1.00", "0.00", "N", "");
    let a = parse_atom(&line).unwrap();
    let b = parse_atom(&line).unwrap();
    assert!(a == b);
    let line2 = atom_line(1, "N", ' ', "LYS", 'A', 1, ' ', "1.001", "2.000", "3.000", "1.00", "0.00", "N", "");
    let c = parse_atom(&line2).unwrap();
    assert!(a != c);
}

#[test]
fn heteroatom_records_join_the_tree_like_atoms() {
    let l1 = atom_line(1, "N", ' ', "ALA", 'A', 1, ' ', "0.000", "0.000", "0.000", "1.00", "0.00", "N", "");
    let het = l1.replacen("ATOM  ", "HETATM", 1).replacen("ALA", "HOH", 1);
    let content = format!("{}\nTER   \nENDMDL\n", het);
    let s = parse_pdb_file(&content).unwrap();
    assert_eq!(s.models[0].chains[0].residues[0].name, "HOH");
}

#[test]
fn carriage_return_line_endings_are_stripped() {
    let l1 = atom_line(1, "N", ' ', "ALA", 'A', 1, ' ', "0.000", "0.000", "0.000", "1.00", "0.00", "N", "");
    let content = format!("{}\r\nTER   \r\nENDMDL\r\n", l1);
    let s = parse_pdb_file(&content).unwrap();
    assert_eq!(s.models.len(), 1);
    assert_eq!(s.models[0].chains[0].residues[0].atoms[0].element, "N");
}

#[test]
fn atoms_before_an_explicit_model_land_in_it() {
    // a stray atom before the first model record stays in the
    // accumulators and is flushed when that model closes
    let l1 = atom_line(1, "N", ' ', "ALA", 'A', 1, ' ', "0.000", "0.000", "0.000", "1.00", "0.00", "N", "");
    let content = format!("{}\nMODEL        5\nENDMDL\n", l1);
    let s = parse_pdb_file(&content).unwrap();
    assert_eq!(s.models.len(), 1);
    assert_eq!(s.models[0].serial_number, 5);
    assert_eq!(s.models[0].chains.len(), 1);
    assert_eq!(s.models[0].chains[0].residues[0].atoms[0].serial, 1);
}

#[test]
fn garbage_occupancy_is_a_hard_error() {
    let line = atom_line(
        1, "N", ' ', "LYS", 'A', 1, ' ', "1.000", "2.000", "3.000", "x.yz", "0.00", "N", "",
    );
    assert!(parse_atom(&line).is_err());
}

#[test]
fn a_plus_sign_and_missing_fraction_digits_parse() {
    let line = atom_line(
        1, "N", ' ', "LYS", 'A', 1, ' ', "+1.5", ".25", "3.", "1.00", "0.00", "N", "",
    );
    let a = parse_atom(&line).unwrap();
    assert_eq!(a.x, 1500);
    assert_eq!(a.y, 250);
    assert_eq!(a.z, 3000);
}

#[test]
fn structure_equality_compares_the_tree() {
    let l1 = atom_line(1, "N", ' ', "ALA", 'A', 1, ' ', "0.000", "0.000", "0.000", "1.00", "0.00", "N", "");
    let content = format!("{}\nTER   \nENDMDL\n", l1);
    let s1 = parse_pdb_file(&content).unwrap();
    let s2 = parse_pdb_file(&content).unwrap();
    assert!(s1 == s2);
    let l2 = atom_line(2, "N", ' ', "ALA", 'A', 1, ' ', "0.000", "0.000", "0.000", "1.00", "0.00", "N", "");
    let other = format!("{}\nTER   \nENDMDL\n", l2);
    let s3 = parse_pdb_file(&other).unwrap();
    assert!(s1 != s3);
}
