use pg_split_dump::custom_dump::CustomDump;

fn sort(def: &[u8]) -> Vec<Vec<u8>> {
    CustomDump::new().sort_acl(def)
}

fn join(blocks: &[Vec<u8>]) -> Vec<u8> {
    let mut out = Vec::new();
    for (i, b) in blocks.iter().enumerate() {
        if i > 0 {
            out.extend_from_slice(b"\n");
        }
        out.extend_from_slice(b);
    }
    out
}

#[test]
fn revoke_statements_come_before_grant_statements() {
    let def = b"GRANT SELECT ON t TO bob;\nREVOKE ALL ON t FROM public;\nGRANT INSERT ON t TO alice;\n";
    let sorted = sort(def);
    assert_eq!(
        sorted,
        vec![
            b"REVOKE ALL ON t FROM public;".to_vec(),
            b"GRANT INSERT ON t TO alice;".to_vec(),
            b"GRANT SELECT ON t TO bob;".to_vec(),
            Vec::new(),
        ]
    );
}

#[test]
fn ties_break_by_plain_lexical_order() {
    let def = b"REVOKE UPDATE ON t FROM a;\nREVOKE ALL ON t FROM b;\n";
    let sorted = sort(def);
    assert_eq!(
        sorted,
        vec![
            b"REVOKE ALL ON t FROM b;".to_vec(),
            b"REVOKE UPDATE ON t FROM a;".to_vec(),
            Vec::new(),
        ]
    );
}

#[test]
fn sorting_a_sorted_definition_changes_nothing() {
    let def = b"GRANT SELECT ON t TO bob;\nREVOKE ALL ON t FROM public;\nGRANT INSERT ON t TO alice;\n";
    let once = sort(def);
    let rejoined = join(&once);
    let twice = sort(&rejoined);
    assert_eq!(once, twice);
}

#[test]
fn empty_definition_keeps_only_the_trailing_blank_line() {
    assert_eq!(sort(b""), vec![Vec::<u8>::new()]);
    assert_eq!(sort(b";\n"), vec![Vec::<u8>::new()]);
}

#[test]
fn single_statement_is_kept_terminated() {
    assert_eq!(
        sort(b"GRANT ALL ON t TO carol;\n"),
        vec![b"GRANT ALL ON t TO carol;".to_vec(), Vec::new()]
    );
}
