use sts_convert::naming::sheet_file_part;

#[test]
fn separators_become_underscores() {
    assert_eq!(sheet_file_part("a.xdts->cut/1:b\\c"), b"a.xdts->cut_1_b_c".to_vec());
}

#[test]
fn name_part_cut_to_100_bytes() {
    let name = "x".repeat(150);
    assert_eq!(sheet_file_part(&name).len(), 100);
    assert_eq!(sheet_file_part("short").len(), 5);
}
