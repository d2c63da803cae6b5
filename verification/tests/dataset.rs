use pp2predictor::dataset::{
    get_pep_chain, get_rec_chain, hbond_trp, load_pdb_chains, read_acceptor_list, read_donor_list,
};

#[test]
fn the_template_table_holds_every_entry() {
    let (ids, recs, peps) = load_pdb_chains();
    assert_eq!(ids.len(), 39);
    assert_eq!(recs.len(), 39);
    assert_eq!(peps.len(), 39);
    assert_eq!(ids[0], "4B6H");
    assert_eq!(recs[0], "A");
    assert_eq!(peps[0], "C");
    assert_eq!(ids[35], "2EZ5");
    assert_eq!(recs[35], "W");
    assert_eq!(peps[35], "P");
    assert_eq!(ids[38], "2LAZ");
}

#[test]
fn chain_lookups_fold_case_and_miss_cleanly() {
    assert_eq!(get_pep_chain("4b6h").unwrap(), "C");
    assert_eq!(get_rec_chain("4b6h").unwrap(), "A");
    assert_eq!(get_pep_chain("2EZ5").unwrap(), "P");
    assert_eq!(get_rec_chain("2ez5").unwrap(), "W");
    assert_eq!(get_pep_chain("1ywo").unwrap(), "P");
    assert!(get_pep_chain("0XXX").is_none());
    assert!(get_rec_chain("").is_none());
}

#[test]
fn acceptor_list_reads_three_tokens_per_line() {
    let content = "SER OG HB\nTHR OG1 HG1\n";
    let entries = read_acceptor_list(content).unwrap();
    assert_eq!(entries.len(), 2);
    assert_eq!(entries[0].0, "SER");
    assert_eq!(entries[0].1, "OG");
    assert_eq!(entries[0].2, "HB");
    assert_eq!(entries[1].0, "THR");
    assert_eq!(entries[1].1, "OG1");
    assert_eq!(entries[1].2, "HG1");
}

#[test]
fn short_acceptor_line_makes_the_file_unreadable() {
    assert!(read_acceptor_list("SER OG HB\nTHR OG1\n").is_none());
}

#[test]
fn donor_list_reads_two_tokens_per_line() {
    let content = "LYS NZ\nARG  NH1\n";
    let entries = read_donor_list(content).unwrap();
    assert_eq!(entries.len(), 2);
    assert_eq!(entries[0].0, "LYS");
    assert_eq!(entries[0].1, "NZ");
    assert_eq!(entries[1].0, "ARG");
    assert_eq!(entries[1].1, "NH1");
}

#[test]
fn short_donor_line_makes_the_file_unreadable() {
    assert!(read_donor_list("LYS NZ\nARG\n").is_none());
}

#[test]
fn hbond_records_yield_the_tryptophans_without_repetition() {
    let content = "\
1CKA bond TRP 169 LYS 12\n\
1CKA bond TRP 169 SER 3\n\
1CKA bond TRP 141 THR 5\n\
2EZ5 bond TRP 999 LYS 1\n\
1CKA no match here\n";
    let trp = hbond_trp("1CKA", content);
    assert_eq!(trp, vec!["169".to_string(), "141".to_string()]);
    let other = hbond_trp("2EZ5", content);
    assert_eq!(other, vec!["999".to_string()]);
    let none = hbond_trp("4B6H", content);
    assert!(none.is_empty());
}

#[test]
fn a_trailing_tryptophan_token_contributes_nothing() {
    let content = "1CKA bond TRP\n";
    let trp = hbond_trp("1CKA", content);
    assert!(trp.is_empty());
}
