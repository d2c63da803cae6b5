use pp2predictor::detect::{analyze_structure, dedup_keys, is_donor, neighbour_search, NeighborKey};
use pp2predictor::neighbor::{calculate_distance_sq, NeighborSearch};
use pp2predictor::pdb_parser::{parse_atom, parse_pdb_file};

fn atom_line(
    serial: i64,
    name: &str,
    res: &str,
    chain: char,
    seq: i64,
    x: &str,
    y: &str,
    z: &str,
) -> String {
    format!(
        "ATOM  {:>5} {:<4} {:<3} {}{:>4}    {:>8}{:>8}{:>8}{:>6}{:>6}          {:>2}{:>2}",
        serial, name, res, chain, seq, x, y, z, "1.00", "0.00", "N", ""
    )
}

fn atom_at(serial: i64, name: &str, res: &str, seq: i64, x: &str, y: &str, z: &str)
    -> pp2predictor::pdb_parser::Atom {
    parse_atom(&atom_line(serial, name, res, 'A', seq, x, y, z)).unwrap()
}

#[test]
fn squared_distance_is_exact() {
    let a = atom_at(1, "N", "ALA", 1, "0.000", "0.000", "0.000");
    let b = atom_at(2, "O", "ALA", 1, "3.000", "4.000", "0.000");
    assert_eq!(calculate_distance_sq(&a, &b), 25_000_000);
    assert_eq!(calculate_distance_sq(&a, &a), 0);
}

#[test]
fn query_includes_exactly_the_atoms_within_the_radius() {
    let center = atom_at(1, "N", "ALA", 1, "0.000", "0.000", "0.000");
    let near = atom_at(2, "O", "ALA", 1, "3.000", "0.000", "0.000");
    let boundary = atom_at(3, "C", "ALA", 1, "0.000", "5.000", "0.000");
    let far = atom_at(4, "S", "ALA", 1, "5.001", "0.000", "0.000");
    let atoms = vec![center.clone(), near.clone(), boundary.clone(), far.clone()];
    let search = NeighborSearch::new(&atoms);
    let result = search.search_neighbors(&center, 5000);
    let serials: Vec<i64> = result.iter().map(|a| a.serial).collect();
    // boundary distance is included, the center itself appears, the far atom does not
    assert_eq!(serials, vec![1, 2, 3]);
}

#[test]
fn self_inclusion_is_consistent() {
    let center = atom_at(1, "N", "ALA", 1, "7.000", "8.000", "9.000");
    let atoms = vec![center.clone()];
    let search = NeighborSearch::new(&atoms);
    let result = search.search_neighbors(&center, 0);
    assert_eq!(result.len(), 1);
    assert_eq!(result[0].serial, 1);
}

#[test]
fn two_atoms_at_one_point_are_both_returned() {
    let a = atom_at(1, "N", "ALA", 1, "1.000", "1.000", "1.000");
    let b = atom_at(2, "O", "GLY", 2, "1.000", "1.000", "1.000");
    let atoms = vec![a.clone(), b.clone()];
    let search = NeighborSearch::new(&atoms);
    let result = search.search_neighbors(&a, 1000);
    assert_eq!(result.len(), 2);
}

#[test]
fn donor_table_holds_the_side_chain_donors() {
    assert!(is_donor("LYS", "NZ"));
    assert!(!is_donor("ALA", "CA"));
    assert!(is_donor("ARG", "NH2"));
    assert!(is_donor("TRP", "NE1"));
    assert!(is_donor("SER", "OG"));
    assert!(is_donor("HSP", "NE2"));
    assert!(!is_donor("LYS", "CA"));
    assert!(!is_donor("lys", "NZ"));
    assert!(!is_donor("GLY", "N"));
}

#[test]
fn merged_repeated_queries_hold_no_duplicate_tuples() {
    let key = |serial: i64| NeighborKey {
        atom_name: "NZ".to_string(),
        res_name: "LYS".to_string(),
        chain_id: 'A',
        model_serial: 1,
        res_seq: 2,
        serial,
    };
    // the same query issued twice and merged
    let mut merged: Vec<NeighborKey> = Vec::new();
    for _ in 0..2 {
        merged.push(key(7));
        merged.push(key(8));
    }
    let unique = dedup_keys(&merged);
    assert_eq!(unique.len(), 2);
    for i in 0..unique.len() {
        for j in 0..unique.len() {
            if i != j {
                let a = &unique[i];
                let b = &unique[j];
                let same = a.atom_name == b.atom_name && a.res_name == b.res_name
                    && a.chain_id == b.chain_id && a.model_serial == b.model_serial
                    && a.res_seq == b.res_seq && a.serial == b.serial;
                assert!(!same);
            }
        }
    }
    assert_eq!(unique[0].serial, 7);
    assert_eq!(unique[1].serial, 8);
}

#[test]
fn tryptophan_site_detects_the_lysine_donor() {
    // one model, one chain A, a tryptophan with its indole nitrogen at
    // the origin, and a lysine with its terminal nitrogen three units away
    let lines = vec![
        atom_line(1, "CA", "TRP", 'A', 1, "-1.000", "0.000", "0.000"),
        atom_line(2, "NE1", "TRP", 'A', 1, "0.000", "0.000", "0.000"),
        atom_line(3, "CA", "LYS", 'A', 2, "2.000", "0.000", "0.000"),
        atom_line(4, "NZ", "LYS", 'A', 2, "3.000", "0.000", "0.000"),
        "TER   ".to_string(),
        "ENDMDL".to_string(),
    ];
    let content = lines.join("\n") + "\n";
    let s = parse_pdb_file(&content).unwrap();
    let sites = neighbour_search(&s);
    assert_eq!(sites.len(), 1);
    let site = &sites[0];
    assert_eq!(site.model_serial, 1);
    assert_eq!(site.chain_id, 'A');
    assert_eq!(site.res_id, 1);
    assert_eq!(site.res_name, "TRP");
    assert_eq!(site.ne1.serial, 2);
    // the coarse 12.0 neighborhood holds every other atom
    let unique_serials: Vec<i64> = site.unique_neighbors.iter().map(|k| k.serial).collect();
    assert_eq!(unique_serials, vec![1, 3, 4]);
    // the donor-qualifying subset is exactly the lysine terminal nitrogen
    assert_eq!(site.donor_neighbors.len(), 1);
    let donor = &site.donor_neighbors[0];
    assert_eq!(donor.atom_name, "NZ");
    assert_eq!(donor.res_name, "LYS");
    assert_eq!(donor.chain_id, 'A');
    assert_eq!(donor.model_serial, 1);
    assert_eq!(donor.res_seq, 2);
    assert_eq!(donor.serial, 4);
    // a 2.0 radius around the indole nitrogen no longer reaches the donor
    let all: Vec<pp2predictor::pdb_parser::Atom> =
        pp2predictor::detect::collect_atoms(&s);
    let search = NeighborSearch::new(&all);
    let narrow = search.search_neighbors(&site.ne1, 2000);
    assert!(narrow.iter().all(|a| a.serial != 4));
}

#[test]
fn narrow_radius_around_the_minimal_pair_is_empty() {
    // only the indole nitrogen at the origin and the terminal nitrogen
    // three units away: at 12.0 the donor appears, at 2.0 nothing but
    // the center itself remains
    let lines = vec![
        atom_line(1, "NE1", "TRP", 'A', 1, "0.000", "0.000", "0.000"),
        atom_line(2, "NZ", "LYS", 'A', 2, "3.000", "0.000", "0.000"),
        "TER   ".to_string(),
        "ENDMDL".to_string(),
    ];
    let content = lines.join("\n") + "\n";
    let s = parse_pdb_file(&content).unwrap();
    let all = pp2predictor::detect::collect_atoms(&s);
    let search = NeighborSearch::new(&all);
    let ne1 = all[0].clone();
    let coarse = search.search_neighbors(&ne1, 12000);
    assert!(coarse.iter().any(|a| a.serial == 2));
    let narrow = search.search_neighbors(&ne1, 2000);
    let others: Vec<i64> = narrow.iter().map(|a| a.serial).filter(|s| *s != 1).collect();
    assert!(others.is_empty());
    let sites = neighbour_search(&s);
    assert_eq!(sites.len(), 1);
    assert_eq!(sites[0].donor_neighbors.len(), 1);
    assert_eq!(sites[0].donor_neighbors[0].serial, 2);
    assert_eq!(sites[0].donor_neighbors[0].atom_name, "NZ");
}

#[test]
fn tryptophan_without_indole_nitrogen_is_skipped() {
    let lines = vec![
        atom_line(1, "CA", "TRP", 'A', 1, "0.000", "0.000", "0.000"),
        atom_line(2, "NZ", "LYS", 'A', 2, "3.000", "0.000", "0.000"),
        "TER   ".to_string(),
        "ENDMDL".to_string(),
    ];
    let content = lines.join("\n") + "\n";
    let s = parse_pdb_file(&content).unwrap();
    let sites = neighbour_search(&s);
    assert_eq!(sites.len(), 0);
}

#[test]
fn coincident_duplicate_of_the_center_is_excluded() {
    // an atom at the center's own position is excluded by the positive
    // distance rule, whatever its serial
    let lines = vec![
        atom_line(1, "NE1", "TRP", 'A', 1, "0.000", "0.000", "0.000"),
        atom_line(2, "NZ", "LYS", 'A', 2, "0.000", "0.000", "0.000"),
        "TER   ".to_string(),
        "ENDMDL".to_string(),
    ];
    let content = lines.join("\n") + "\n";
    let s = parse_pdb_file(&content).unwrap();
    let sites = neighbour_search(&s);
    assert_eq!(sites.len(), 1);
    assert_eq!(sites[0].unique_neighbors.len(), 0);
    assert_eq!(sites[0].donor_neighbors.len(), 0);
}

#[test]
fn structure_coordinates_within_bounds_are_accepted() {
    let lines = vec![
        atom_line(1, "NE1", "TRP", 'A', 1, "0.000", "0.000", "0.000"),
        "TER   ".to_string(),
        "ENDMDL".to_string(),
    ];
    let content = lines.join("\n") + "\n";
    let s = parse_pdb_file(&content).unwrap();
    assert!(pp2predictor::detect::structure_coords_ok(&s));
}

#[test]
fn the_whole_pipeline_runs_from_raw_text() {
    let lines = vec![
        atom_line(1, "NE1", "TRP", 'A', 1, "0.000", "0.000", "0.000"),
        atom_line(2, "NZ", "LYS", 'A', 2, "3.000", "0.000", "0.000"),
        "TER   ".to_string(),
        "ENDMDL".to_string(),
    ];
    let content = lines.join("\n") + "\n";
    let sites = analyze_structure(&content).unwrap();
    assert_eq!(sites.len(), 1);
    assert_eq!(sites[0].donor_neighbors.len(), 1);
    assert!(analyze_structure("MODEL     bad\n").is_err());
}
