use pg_split_dump::output::{materialize_file, OutputFormat};

#[test]
fn format_flag_values() {
    assert_eq!(OutputFormat::from_string("t"), Some(OutputFormat::TarArchive));
    assert_eq!(OutputFormat::from_string("d"), Some(OutputFormat::Directory));
    assert_eq!(OutputFormat::from_string(""), None);
    assert_eq!(OutputFormat::from_string("x"), None);
    assert_eq!(OutputFormat::from_string("tar"), None);
    assert_eq!(OutputFormat::from_string("dir"), None);
}

#[test]
fn file_blocks_materialize_newline_joined_with_a_trailing_newline() {
    let blocks = vec![b"CREATE TABLE t ();".to_vec(), b"ALTER TABLE t OWNER TO a;".to_vec()];
    assert_eq!(
        materialize_file(&blocks),
        b"CREATE TABLE t ();\nALTER TABLE t OWNER TO a;\n".to_vec()
    );
}

#[test]
fn single_block_gets_one_trailing_newline() {
    let blocks = vec![b"SET client_encoding = 'UTF8';".to_vec()];
    assert_eq!(materialize_file(&blocks), b"SET client_encoding = 'UTF8';\n".to_vec());
}

#[test]
fn empty_file_materializes_as_one_blank_line() {
    assert_eq!(materialize_file(&Vec::new()), b"\n".to_vec());
}

#[test]
fn empty_blocks_keep_their_newlines() {
    let blocks = vec![b"REVOKE ALL ON t FROM public;".to_vec(), Vec::new()];
    assert_eq!(materialize_file(&blocks), b"REVOKE ALL ON t FROM public;\n\n".to_vec());
}
