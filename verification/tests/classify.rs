use pg_split_dump::auxiliary_data::AuxiliaryData;
use pg_split_dump::custom_dump::CustomDump;
use pg_split_dump::custom_dump_reader::{CustomDumpItem, DumpReadError};
use pg_split_dump::split_directory::SplitDumpDirectory;

fn item(
    table_oid: u32,
    oid: u32,
    tag: &str,
    desc: &str,
    definition: &str,
    namespace: &str,
    owner: &str,
) -> CustomDumpItem {
    CustomDumpItem {
        table_oid,
        oid,
        tag: tag.as_bytes().to_vec(),
        desc: desc.as_bytes().to_vec(),
        definition: definition.as_bytes().to_vec(),
        namespace: namespace.as_bytes().to_vec(),
        owner: owner.as_bytes().to_vec(),
    }
}

fn lookup<'a>(dir: &'a SplitDumpDirectory, path: &[&str]) -> Option<&'a Vec<Vec<u8>>> {
    if path.len() == 1 {
        dir.files
            .iter()
            .find(|(n, _)| n.as_slice() == path[0].as_bytes())
            .map(|(_, blocks)| blocks)
    } else {
        dir.dirs
            .iter()
            .find(|(n, _)| n.as_slice() == path[0].as_bytes())
            .and_then(|(_, sub)| lookup(sub, &path[1..]))
    }
}

fn index_lines(dump: &CustomDump) -> Vec<Vec<u8>> {
    lookup(&dump.split_root, &["index.sql"]).expect("index file always exists").clone()
}

#[test]
fn database_entry_is_dropped() {
    let aux = AuxiliaryData::new();
    let mut dump = CustomDump::new();
    dump.add_item(item(1262, 1, "mydb", "DATABASE", "CREATE DATABASE mydb;", "", "boss"), &aux)
        .unwrap();
    assert!(dump.split_root.dirs.is_empty());
    assert_eq!(index_lines(&dump), Vec::<Vec<u8>>::new());
}

#[test]
fn public_schema_marker_produces_no_file() {
    let aux = AuxiliaryData::new();
    let mut dump = CustomDump::new();
    dump.add_item(item(2615, 1, "public", "SCHEMA", "CREATE SCHEMA public;", "", "boss"), &aux)
        .unwrap();
    assert!(dump.split_root.dirs.is_empty());
    assert_eq!(index_lines(&dump), Vec::<Vec<u8>>::new());
}

#[test]
fn named_schema_gets_a_file_and_a_directive() {
    let aux = AuxiliaryData::new();
    let mut dump = CustomDump::new();
    dump.add_item(item(2615, 1, "app", "SCHEMA", "CREATE SCHEMA app;", "", "boss"), &aux)
        .unwrap();
    assert_eq!(
        lookup(&dump.split_root, &["SCHEMAS", "app.sql"]).unwrap(),
        &vec![b"CREATE SCHEMA app;".to_vec()]
    );
    assert_eq!(index_lines(&dump), vec![b"\\ir SCHEMAS/app.sql".to_vec()]);
}

#[test]
fn trigger_function_routing_and_ownership() {
    // the same function entry lands in TRIGGER_FUNCTIONS exactly when its
    // oid is in the trigger-function set, with the ownership statement
    // appended after the raw definition in both cases
    let def = "CREATE FUNCTION compute_total(integer, integer) ...;";
    let fi = || {
        item(
            1255,
            900,
            "compute_total(integer, integer)",
            "FUNCTION",
            def,
            "billing",
            "carl",
        )
    };
    let owner_line = b"ALTER FUNCTION billing.compute_total(integer, integer) OWNER TO carl;\n";

    let mut aux = AuxiliaryData::new();
    assert!(aux.add_trigger_function(900));
    let mut dump = CustomDump::new();
    dump.add_item(fi(), &aux).unwrap();
    assert_eq!(
        lookup(&dump.split_root, &["billing", "TRIGGER_FUNCTIONS", "compute_total.sql"]).unwrap(),
        &vec![def.as_bytes().to_vec(), owner_line.to_vec()]
    );
    assert!(lookup(&dump.split_root, &["billing", "FUNCTIONS", "compute_total.sql"]).is_none());

    let aux2 = AuxiliaryData::new();
    let mut dump2 = CustomDump::new();
    dump2.add_item(fi(), &aux2).unwrap();
    assert_eq!(
        lookup(&dump2.split_root, &["billing", "FUNCTIONS", "compute_total.sql"]).unwrap(),
        &vec![def.as_bytes().to_vec(), owner_line.to_vec()]
    );
}

#[test]
fn index_entries_append_to_the_owning_table_file() {
    let mut aux = AuxiliaryData::new();
    assert!(aux.add_index_table(501, b"users".to_vec()));
    let mut dump = CustomDump::new();
    dump.add_item(
        item(1259, 400, "users", "TABLE", "CREATE TABLE users ();", "public", "alice"),
        &aux,
    )
    .unwrap();
    dump.add_item(
        item(1259, 501, "users_pkey", "INDEX", "CREATE UNIQUE INDEX users_pkey ...;", "public", "alice"),
        &aux,
    )
    .unwrap();
    assert_eq!(
        lookup(&dump.split_root, &["public", "TABLES", "users.sql"]).unwrap(),
        &vec![
            b"CREATE TABLE users ();".to_vec(),
            b"ALTER TABLE public.users OWNER TO alice;\n".to_vec(),
            b"CREATE UNIQUE INDEX users_pkey ...;".to_vec(),
        ]
    );
    // one directive for the one file
    assert_eq!(index_lines(&dump), vec![b"\\ir public/TABLES/users.sql".to_vec()]);
}

#[test]
fn missing_index_table_mapping_is_a_fault() {
    let aux = AuxiliaryData::new();
    let mut dump = CustomDump::new();
    let r = dump.add_item(
        item(1259, 501, "users_pkey", "INDEX", "CREATE INDEX ...;", "public", "alice"),
        &aux,
    );
    assert!(matches!(r, Err(DumpReadError::MissingIndexTable { oid: 501 })));
}

#[test]
fn view_entries_use_the_pretty_printed_body_and_register_the_view() {
    let mut aux = AuxiliaryData::new();
    assert!(aux.add_view_definition(600, b" SELECT 1;".to_vec()));
    let mut dump = CustomDump::new();
    dump.add_item(item(1259, 600, "v_totals", "VIEW", "ignored raw body", "public", "dana"), &aux)
        .unwrap();
    assert_eq!(
        lookup(&dump.split_root, &["public", "VIEWS", "v_totals.sql"]).unwrap(),
        &vec![
            b"CREATE OR REPLACE VIEW v_totals AS".to_vec(),
            b" SELECT 1;".to_vec(),
            b"ALTER VIEW public.v_totals OWNER TO dana;\n".to_vec(),
        ]
    );
    assert!(dump.is_view(b"public", b"v_totals"));
    assert!(!dump.is_view(b"public", b"other"));
}

#[test]
fn missing_view_body_is_a_fault() {
    let aux = AuxiliaryData::new();
    let mut dump = CustomDump::new();
    let r = dump.add_item(item(1259, 600, "v", "VIEW", "raw", "public", "dana"), &aux);
    assert!(matches!(r, Err(DumpReadError::MissingViewDefinition { oid: 600 })));
}

#[test]
fn acl_for_a_relation_resolves_by_earlier_view_entry() {
    // before the view's own entry, a permissions entry for it lands under
    // TABLES; after it, under VIEWS: the documented order dependency
    let mut aux = AuxiliaryData::new();
    assert!(aux.add_view_definition(600, b" SELECT 1;".to_vec()));

    let acl = || item(0, 0, "TABLE v_x", "ACL", "GRANT SELECT ON v_x TO bob;\n", "public", "");
    let view = || item(1259, 600, "v_x", "VIEW", "raw", "public", "dana");

    let mut early = CustomDump::new();
    early.add_item(acl(), &aux).unwrap();
    early.add_item(view(), &aux).unwrap();
    assert!(lookup(&early.split_root, &["public", "TABLES", "v_x.sql"]).is_some());

    let mut late = CustomDump::new();
    late.add_item(view(), &aux).unwrap();
    late.add_item(acl(), &aux).unwrap();
    assert!(lookup(&late.split_root, &["public", "TABLES", "v_x.sql"]).is_none());
    let blocks = lookup(&late.split_root, &["public", "VIEWS", "v_x.sql"]).unwrap();
    assert!(blocks.contains(&b"GRANT SELECT ON v_x TO bob;".to_vec()));
}

#[test]
fn table_and_its_acl_fill_the_same_file_in_either_order() {
    let aux = AuxiliaryData::new();
    let tbl = || item(1259, 400, "users", "TABLE", "CREATE TABLE users ();", "public", "alice");
    let acl = || {
        item(
            0,
            0,
            "TABLE users",
            "ACL",
            "GRANT SELECT ON users TO bob;\nREVOKE ALL ON users FROM public;\n",
            "public",
            "",
        )
    };

    let mut first = CustomDump::new();
    first.add_item(tbl(), &aux).unwrap();
    first.add_item(acl(), &aux).unwrap();
    let mut second = CustomDump::new();
    second.add_item(acl(), &aux).unwrap();
    second.add_item(tbl(), &aux).unwrap();

    let mut a = lookup(&first.split_root, &["public", "TABLES", "users.sql"]).unwrap().clone();
    let mut b = lookup(&second.split_root, &["public", "TABLES", "users.sql"]).unwrap().clone();
    assert_eq!(a.len(), b.len());
    a.sort();
    b.sort();
    assert_eq!(a, b);
}

#[test]
fn duplicate_session_setup_entries_fault() {
    let aux = AuxiliaryData::new();
    let mut dump = CustomDump::new();
    dump.add_item(item(0, 0, "ENCODING", "ENCODING", "SET client_encoding = 'UTF8';", "", ""), &aux)
        .unwrap();
    let r = dump.add_item(
        item(0, 0, "ENCODING", "ENCODING", "SET client_encoding = 'UTF8';", "", ""),
        &aux,
    );
    assert!(matches!(r, Err(DumpReadError::DuplicateEncoding)));

    dump.add_item(
        item(0, 0, "STDSTRINGS", "STDSTRINGS", "SET standard_conforming_strings = 'on';", "", ""),
        &aux,
    )
    .unwrap();
    let r = dump.add_item(item(0, 0, "STDSTRINGS", "STDSTRINGS", "SET ...;", "", ""), &aux);
    assert!(matches!(r, Err(DumpReadError::DuplicateStdStrings)));

    dump.add_item(item(0, 0, "SEARCHPATH", "SEARCHPATH", "SELECT pg_catalog.set_config(...);", "", ""), &aux)
        .unwrap();
    let r = dump.add_item(item(0, 0, "SEARCHPATH", "SEARCHPATH", "SELECT ...;", "", ""), &aux);
    assert!(matches!(r, Err(DumpReadError::DuplicateSearchPath)));
}

#[test]
fn session_setup_lines_reach_the_index_in_order() {
    let aux = AuxiliaryData::new();
    let mut dump = CustomDump::new();
    dump.add_item(item(0, 0, "ENCODING", "ENCODING", "SET client_encoding = 'UTF8';", "", ""), &aux)
        .unwrap();
    dump.add_item(
        item(0, 0, "STDSTRINGS", "STDSTRINGS", "SET standard_conforming_strings = 'on';", "", ""),
        &aux,
    )
    .unwrap();
    dump.add_item(
        item(0, 0, "SEARCHPATH", "SEARCHPATH", "SELECT pg_catalog.set_config('search_path', '', false);", "", ""),
        &aux,
    )
    .unwrap();
    assert_eq!(
        index_lines(&dump),
        vec![
            b"SET client_encoding = 'UTF8';".to_vec(),
            b"SET standard_conforming_strings = 'on';".to_vec(),
            b"SET check_function_bodies = false;\n".to_vec(),
            b"SELECT pg_catalog.set_config('search_path', '', false);".to_vec(),
        ]
    );
    assert_eq!(dump.set_client_encoding, Some(b"SET client_encoding = 'UTF8';".to_vec()));
    assert_eq!(
        dump.set_standard_conforming_strings,
        Some(b"SET standard_conforming_strings = 'on';".to_vec())
    );
    assert_eq!(
        dump.set_search_path,
        Some(b"SELECT pg_catalog.set_config('search_path', '', false);".to_vec())
    );
}

#[test]
fn unknown_catalog_pair_is_a_fault() {
    let aux = AuxiliaryData::new();
    let mut dump = CustomDump::new();
    let r = dump.add_item(item(9999, 1, "x", "MYSTERY", "?", "public", ""), &aux);
    assert!(matches!(r, Err(DumpReadError::UnknownItemKind { table_oid: 9999 })));
}

#[test]
fn combo_tag_without_space_is_a_fault() {
    let aux = AuxiliaryData::new();
    let mut dump = CustomDump::new();
    let r = dump.add_item(item(0, 0, "TABLEusers", "ACL", "GRANT ...;\n", "public", ""), &aux);
    assert!(matches!(r, Err(DumpReadError::MalformedTag)));
}

#[test]
fn combo_tag_with_unknown_kind_is_a_fault() {
    let aux = AuxiliaryData::new();
    let mut dump = CustomDump::new();
    let r = dump.add_item(item(0, 0, "GADGET thing", "COMMENT", "COMMENT ON ...;", "public", ""), &aux);
    assert!(matches!(r, Err(DumpReadError::UnknownComboKind)));
}

#[test]
fn column_comment_routes_to_the_table_file() {
    let aux = AuxiliaryData::new();
    let mut dump = CustomDump::new();
    dump.add_item(
        item(0, 0, "COLUMN users.name", "COMMENT", "COMMENT ON COLUMN users.name IS 'x';", "public", ""),
        &aux,
    )
    .unwrap();
    assert_eq!(
        lookup(&dump.split_root, &["public", "TABLES", "users.sql"]).unwrap(),
        &vec![b"COMMENT ON COLUMN users.name IS 'x';".to_vec()]
    );
}

#[test]
fn foreign_keys_route_to_their_own_directory() {
    let aux = AuxiliaryData::new();
    let mut dump = CustomDump::new();
    dump.add_item(
        item(2606, 0, "orders fk_user", "FK CONSTRAINT", "ALTER TABLE ... FOREIGN KEY ...;", "public", ""),
        &aux,
    )
    .unwrap();
    assert!(lookup(&dump.split_root, &["public", "FK_CONSTRAINTS", "orders.sql"]).is_some());
    assert!(lookup(&dump.split_root, &["public", "TABLES", "orders.sql"]).is_none());
}

#[test]
fn publication_table_nests_under_its_publication() {
    let aux = AuxiliaryData::new();
    let mut dump = CustomDump::new();
    dump.add_item(item(6104, 0, "mypub", "PUBLICATION", "CREATE PUBLICATION mypub;", "", "ed"), &aux)
        .unwrap();
    dump.add_item(
        item(6106, 0, "mypub users", "PUBLICATION TABLE", "ALTER PUBLICATION mypub ADD TABLE users;", "", ""),
        &aux,
    )
    .unwrap();
    assert!(lookup(&dump.split_root, &["PUBLICATIONS", "mypub", "mypub.sql"]).is_some());
    assert!(lookup(&dump.split_root, &["PUBLICATIONS", "mypub", "users.sql"]).is_some());
}

#[test]
fn sequences_carry_their_ownership_statement() {
    let aux = AuxiliaryData::new();
    let mut dump = CustomDump::new();
    dump.add_item(
        item(1259, 0, "users_id_seq", "SEQUENCE", "CREATE SEQUENCE users_id_seq;", "public", "alice"),
        &aux,
    )
    .unwrap();
    assert_eq!(
        lookup(&dump.split_root, &["public", "SEQUENCES", "users_id_seq.sql"]).unwrap(),
        &vec![
            b"CREATE SEQUENCE users_id_seq;".to_vec(),
            b"ALTER SEQUENCE public.users_id_seq OWNER TO alice;\n".to_vec(),
        ]
    );
}

#[test]
fn acl_contents_are_sorted_before_appending() {
    let aux = AuxiliaryData::new();
    let mut dump = CustomDump::new();
    dump.add_item(
        item(
            0,
            0,
            "TABLE users",
            "ACL",
            "GRANT SELECT ON users TO bob;\nREVOKE ALL ON users FROM public;\n",
            "public",
            "",
        ),
        &aux,
    )
    .unwrap();
    assert_eq!(
        lookup(&dump.split_root, &["public", "TABLES", "users.sql"]).unwrap(),
        &vec![
            b"REVOKE ALL ON users FROM public;".to_vec(),
            b"GRANT SELECT ON users TO bob;".to_vec(),
            Vec::new(),
        ]
    );
}

#[test]
fn duplicate_auxiliary_keys_are_refused() {
    let mut aux = AuxiliaryData::new();
    assert!(aux.add_index_table(1, b"users".to_vec()));
    assert!(!aux.add_index_table(1, b"other".to_vec()));
    assert_eq!(aux.lookup_index_table(1), Some(b"users".to_vec()));

    assert!(aux.add_view_definition(2, b"SELECT 1;".to_vec()));
    assert!(!aux.add_view_definition(2, b"SELECT 2;".to_vec()));
    assert_eq!(aux.lookup_view_definition(2), Some(b"SELECT 1;".to_vec()));

    assert!(aux.add_trigger_function(3));
    assert!(!aux.add_trigger_function(3));
    assert!(aux.is_trigger_function(3));
    assert!(!aux.is_trigger_function(4));
}
