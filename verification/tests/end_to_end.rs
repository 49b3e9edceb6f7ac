use pg_split_dump::auxiliary_data::AuxiliaryData;
use pg_split_dump::custom_dump::read_dump;
use pg_split_dump::split_directory::SplitDumpDirectory;

const INT_SIZE: usize = 4;
const OFF_SIZE: usize = 8;

fn put_int(out: &mut Vec<u8>, val: i64) {
    if val < 0 {
        out.push(1);
        let mag = (-val) as u64;
        for i in 0..INT_SIZE {
            out.push(((mag >> (8 * i)) & 0xff) as u8);
        }
    } else {
        out.push(0);
        for i in 0..INT_SIZE {
            out.push(((val as u64 >> (8 * i)) & 0xff) as u8);
        }
    }
}

fn put_str(out: &mut Vec<u8>, s: &str) {
    put_int(out, s.len() as i64);
    out.extend_from_slice(s.as_bytes());
}

fn put_offset(out: &mut Vec<u8>, val: u64) {
    out.push(0);
    for i in 0..OFF_SIZE {
        out.push(((val >> (8 * i)) & 0xff) as u8);
    }
}

fn header_prologue(num_items: i64) -> Vec<u8> {
    let mut out = vec![b'P', b'G', b'D', b'M', b'P'];
    out.push(1);
    out.push(14);
    out.push(0);
    out.push(INT_SIZE as u8);
    out.push(OFF_SIZE as u8);
    out.push(1);
    put_int(&mut out, 0);
    for _ in 0..7 {
        put_int(&mut out, 0);
    }
    put_str(&mut out, "testdb");
    put_str(&mut out, "14.0");
    put_str(&mut out, "14.0");
    put_int(&mut out, num_items);
    out
}

#[allow(clippy::too_many_arguments)]
fn put_item(
    out: &mut Vec<u8>,
    table_oid: &str,
    oid: &str,
    tag: &str,
    desc: &str,
    definition: &str,
    namespace: &str,
    owner: &str,
) {
    put_int(out, 1);
    put_int(out, 0);
    put_str(out, table_oid);
    put_str(out, oid);
    put_str(out, tag);
    put_str(out, desc);
    put_int(out, 0);
    put_str(out, definition);
    put_str(out, "");
    put_str(out, "");
    put_str(out, namespace);
    put_str(out, "");
    put_str(out, ""); // table access method, present in 1.14
    put_str(out, owner);
    put_str(out, "");
    put_str(out, ""); // end of dependencies
    put_offset(out, 0);
}

fn lookup<'a>(dir: &'a SplitDumpDirectory, path: &[&str]) -> Option<&'a Vec<Vec<u8>>> {
    if path.len() == 1 {
        dir.files
            .iter()
            .find(|(n, _)| n.as_slice() == path[0].as_bytes())
            .map(|(_, blocks)| blocks)
    } else {
        dir.dirs
            .iter()
            .find(|(n, _)| n.as_slice() == path[0].as_bytes())
            .and_then(|(_, sub)| lookup(sub, &path[1..]))
    }
}

#[test]
fn whole_archive_splits_into_the_expected_tree() {
    let mut input = header_prologue(4);
    put_item(&mut input, "0", "0", "ENCODING", "ENCODING", "SET client_encoding = 'UTF8';", "", "");
    put_item(
        &mut input,
        "0",
        "0",
        "STDSTRINGS",
        "STDSTRINGS",
        "SET standard_conforming_strings = 'on';",
        "",
        "",
    );
    put_item(
        &mut input,
        "1259",
        "400",
        "users",
        "TABLE",
        "CREATE TABLE users (id integer);",
        "public",
        "alice",
    );
    put_item(
        &mut input,
        "1259",
        "501",
        "users_pkey",
        "INDEX",
        "CREATE UNIQUE INDEX users_pkey ON users (id);",
        "public",
        "alice",
    );

    let mut aux = AuxiliaryData::new();
    assert!(aux.add_index_table(501, b"users".to_vec()));

    let dump = read_dump(input, &aux).expect("the archive classifies completely");

    assert_eq!(
        lookup(&dump.split_root, &["index.sql"]).unwrap(),
        &vec![
            b"SET client_encoding = 'UTF8';".to_vec(),
            b"SET standard_conforming_strings = 'on';".to_vec(),
            b"SET check_function_bodies = false;\n".to_vec(),
            b"\\ir public/TABLES/users.sql".to_vec(),
        ]
    );
    assert_eq!(
        lookup(&dump.split_root, &["public", "TABLES", "users.sql"]).unwrap(),
        &vec![
            b"CREATE TABLE users (id integer);".to_vec(),
            b"ALTER TABLE public.users OWNER TO alice;\n".to_vec(),
            b"CREATE UNIQUE INDEX users_pkey ON users (id);".to_vec(),
        ]
    );
    assert_eq!(dump.set_client_encoding, Some(b"SET client_encoding = 'UTF8';".to_vec()));
    // only one subdirectory and one file beside the index
    assert_eq!(dump.split_root.dirs.len(), 1);
    assert_eq!(dump.split_root.files.len(), 1);
}

#[test]
fn classification_fault_aborts_the_run() {
    let mut input = header_prologue(2);
    put_item(&mut input, "9999", "0", "x", "MYSTERY", "?", "public", "");
    put_item(&mut input, "2615", "1", "app", "SCHEMA", "CREATE SCHEMA app;", "", "boss");
    let aux = AuxiliaryData::new();
    assert!(read_dump(input, &aux).is_err());
}

#[test]
fn decode_fault_aborts_the_run() {
    let mut input = header_prologue(2);
    put_item(&mut input, "2615", "1", "app", "SCHEMA", "CREATE SCHEMA app;", "", "boss");
    // second declared entry is missing entirely
    let aux = AuxiliaryData::new();
    assert!(read_dump(input, &aux).is_err());
}

#[test]
fn empty_archive_still_has_its_index_file() {
    let input = header_prologue(0);
    let aux = AuxiliaryData::new();
    let dump = read_dump(input, &aux).expect("an empty archive classifies");
    assert_eq!(lookup(&dump.split_root, &["index.sql"]).unwrap(), &Vec::<Vec<u8>>::new());
    assert!(dump.split_root.dirs.is_empty());
    assert!(dump.file_order.is_empty());
}
