use fo_data::datafiles::parse_datafile_inner;

#[test]
fn archive_list_keeps_archive_lines() {
    let text = "# comment\r\ndata/a.zip\r\n\r\ninclude other.cfg\ndata/b.dat\n#\nc.zip";
    assert_eq!(
        parse_datafile_inner(text),
        vec!["data/a.zip".to_string(), "data/b.dat".to_string(), "c.zip".to_string()]
    );
}

#[test]
fn empty_archive_list() {
    assert!(parse_datafile_inner("").is_empty());
    assert!(parse_datafile_inner("\n\r\n# x\n").is_empty());
    assert_eq!(parse_datafile_inner("includes.zip"), vec!["includes.zip".to_string()]);
    assert_eq!(parse_datafile_inner("include"), vec!["include".to_string()]);
}
