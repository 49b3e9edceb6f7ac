use pg_split_dump::custom_dump_reader::{CustomDumpReader, DumpReadError};

const INT_SIZE: usize = 4;
const OFF_SIZE: usize = 8;

fn put_int(out: &mut Vec<u8>, val: i64) {
    if val < 0 {
        out.push(1);
        let mag = (-val) as u64;
        for i in 0..INT_SIZE {
            out.push(((mag >> (8 * i)) & 0xff) as u8);
        }
    } else {
        out.push(0);
        for i in 0..INT_SIZE {
            out.push(((val as u64 >> (8 * i)) & 0xff) as u8);
        }
    }
}

fn put_bytes(out: &mut Vec<u8>, s: &[u8]) {
    put_int(out, s.len() as i64);
    out.extend_from_slice(s);
}

fn put_str(out: &mut Vec<u8>, s: &str) {
    put_bytes(out, s.as_bytes());
}

fn put_offset(out: &mut Vec<u8>, val: u64) {
    out.push(0);
    for i in 0..OFF_SIZE {
        out.push(((val >> (8 * i)) & 0xff) as u8);
    }
}

fn static_header(major: u8, minor: u8, int_size: u8, off_size: u8) -> Vec<u8> {
    let mut out = vec![b'P', b'G', b'D', b'M', b'P'];
    out.push(major);
    out.push(minor);
    out.push(0); // revision
    out.push(int_size);
    out.push(off_size);
    out.push(1); // format indicator
    out
}

fn header_prologue(num_items: i64) -> Vec<u8> {
    let mut out = static_header(1, 14, INT_SIZE as u8, OFF_SIZE as u8);
    put_int(&mut out, 0); // compression (full integer before 1.15)
    for _ in 0..7 {
        put_int(&mut out, 0); // timestamp fields and DST flag
    }
    put_str(&mut out, "testdb");
    put_str(&mut out, "14.0");
    put_str(&mut out, "14.0");
    put_int(&mut out, num_items);
    out
}

#[allow(clippy::too_many_arguments)]
fn put_item(
    out: &mut Vec<u8>,
    table_oid: &str,
    oid: &str,
    tag: &str,
    desc: &str,
    definition: &str,
    namespace: &str,
    owner: &str,
) {
    put_int(out, 1); // dump id
    put_int(out, 0); // data dumper
    put_str(out, table_oid);
    put_str(out, oid);
    put_str(out, tag);
    put_str(out, desc);
    put_int(out, 0); // section
    put_str(out, definition);
    put_str(out, ""); // drop statement
    put_str(out, ""); // copy statement
    put_str(out, namespace);
    put_str(out, ""); // tablespace
    put_str(out, ""); // table access method (version 1.14)
    put_str(out, owner);
    put_str(out, ""); // with oids
    put_str(out, ""); // end of dependencies
    put_offset(out, 0);
}

#[test]
fn reads_header_and_single_item() {
    let mut input = header_prologue(1);
    put_item(
        &mut input,
        "1259",
        "17001",
        "users",
        "TABLE",
        "CREATE TABLE users ();",
        "public",
        "alice",
    );
    let reader = CustomDumpReader::new(input).expect("archive must open");
    assert_eq!(reader.dump_version(), (1, 14));
    let mut iter = reader.contents();
    let item = iter.next().expect("one item").expect("decodes");
    assert_eq!(item.table_oid, 1259);
    assert_eq!(item.oid, 17001);
    assert_eq!(item.tag, b"users".to_vec());
    assert_eq!(item.desc, b"TABLE".to_vec());
    assert_eq!(item.definition, b"CREATE TABLE users ();".to_vec());
    assert_eq!(item.namespace, b"public".to_vec());
    assert_eq!(item.owner, b"alice".to_vec());
    assert!(iter.next().is_none());
}

#[test]
fn lenient_about_magic_marker() {
    // mismatched magic bytes are consumed, not validated
    let mut input = header_prologue(0);
    input[0] = b'X';
    input[4] = b'Y';
    assert!(CustomDumpReader::new(input).is_ok());
}

#[test]
fn declared_count_limits_decoding_despite_trailing_bytes() {
    // exactly one entry is decoded even though a second one, and garbage,
    // follow in the input
    let mut input = header_prologue(1);
    put_item(&mut input, "1259", "1", "t1", "TABLE", "CREATE", "public", "o");
    put_item(&mut input, "1259", "2", "t2", "TABLE", "CREATE", "public", "o");
    input.extend_from_slice(&[0xff, 0x00, 0x13, 0x37]);
    let reader = CustomDumpReader::new(input).expect("archive must open");
    let mut iter = reader.contents();
    assert!(iter.next().unwrap().is_ok());
    assert!(iter.next().is_none());
    assert!(iter.next().is_none());
}

#[test]
fn zero_entries_need_no_entry_bytes() {
    let input = header_prologue(0);
    let reader = CustomDumpReader::new(input).expect("archive must open");
    let mut iter = reader.contents();
    assert!(iter.next().is_none());
}

#[test]
fn negative_length_string_is_empty_without_reading() {
    // an item whose namespace has an encoded length of -1 decodes it as the
    // empty string; the bytes that follow are the next fields, untouched
    let mut input = header_prologue(1);
    put_int(&mut input, 1);
    put_int(&mut input, 0);
    put_str(&mut input, "1259");
    put_str(&mut input, "42");
    put_str(&mut input, "users");
    put_str(&mut input, "TABLE");
    put_int(&mut input, 0);
    put_str(&mut input, "CREATE");
    put_str(&mut input, "");
    put_str(&mut input, "");
    put_int(&mut input, -1); // namespace: negative length, no payload
    put_str(&mut input, "");
    put_str(&mut input, "");
    put_str(&mut input, "bob");
    put_str(&mut input, "");
    put_str(&mut input, "");
    put_offset(&mut input, 0);
    let reader = CustomDumpReader::new(input).expect("archive must open");
    let mut iter = reader.contents();
    let item = iter.next().unwrap().expect("decodes");
    assert_eq!(item.namespace, Vec::<u8>::new());
    assert_eq!(item.owner, b"bob".to_vec());
}

#[test]
fn unsupported_versions_are_rejected() {
    let mut input = static_header(1, 11, 4, 8);
    put_int(&mut input, 0);
    assert!(matches!(
        CustomDumpReader::new(input),
        Err(DumpReadError::UnsupportedVersion { major: 1, minor: 11 })
    ));
    let input = static_header(1, 16, 4, 8);
    assert!(matches!(
        CustomDumpReader::new(input),
        Err(DumpReadError::UnsupportedVersion { major: 1, minor: 16 })
    ));
    let input = static_header(2, 0, 4, 8);
    assert!(matches!(
        CustomDumpReader::new(input),
        Err(DumpReadError::UnsupportedVersion { major: 2, minor: 0 })
    ));
}

#[test]
fn supported_version_boundaries_are_accepted() {
    for minor in [12u8, 13, 15] {
        let mut input = static_header(1, minor, 4, 8);
        if minor >= 15 {
            input.push(0); // compression algorithm is one byte from 1.15 on
        } else {
            put_int(&mut input, 0);
        }
        for _ in 0..7 {
            put_int(&mut input, 0);
        }
        put_str(&mut input, "db");
        put_str(&mut input, "");
        put_str(&mut input, "");
        put_int(&mut input, 0);
        assert!(CustomDumpReader::new(input).is_ok(), "version 1.{} must open", minor);
    }
}

#[test]
fn unusable_numeric_widths_are_rejected() {
    let input = static_header(1, 14, 0, 8);
    assert!(matches!(
        CustomDumpReader::new(input),
        Err(DumpReadError::InvalidIntegerWidth { width: 0 })
    ));
    let input = static_header(1, 14, 9, 8);
    assert!(matches!(
        CustomDumpReader::new(input),
        Err(DumpReadError::InvalidIntegerWidth { width: 9 })
    ));
    let input = static_header(1, 14, 4, 200);
    assert!(matches!(
        CustomDumpReader::new(input),
        Err(DumpReadError::InvalidIntegerWidth { width: 200 })
    ));
}

#[test]
fn negative_entry_count_is_rejected() {
    let input = header_prologue(-1);
    assert!(matches!(CustomDumpReader::new(input), Err(DumpReadError::NegativeItemCount)));
}

#[test]
fn invalid_sign_byte_is_a_fault() {
    let mut input = static_header(1, 14, 4, 8);
    input.push(7); // compression integer with an impossible sign byte
    input.extend_from_slice(&[0, 0, 0, 0]);
    assert!(matches!(
        CustomDumpReader::new(input),
        Err(DumpReadError::InvalidSignByte { value: 7 })
    ));
}

#[test]
fn truncated_input_is_a_fault() {
    let mut input = header_prologue(1);
    put_int(&mut input, 1);
    // the rest of the entry is missing
    let reader = CustomDumpReader::new(input).expect("archive must open");
    let mut iter = reader.contents();
    assert!(matches!(iter.next(), Some(Err(DumpReadError::UnexpectedEnd))));
}

#[test]
fn invalid_utf8_in_a_string_is_a_fault() {
    let mut input = header_prologue(1);
    put_int(&mut input, 1);
    put_int(&mut input, 0);
    put_bytes(&mut input, &[0xff, 0xfe]); // table oid: not UTF-8
    let reader = CustomDumpReader::new(input).expect("archive must open");
    let mut iter = reader.contents();
    assert!(matches!(iter.next(), Some(Err(DumpReadError::InvalidUtf8))));
}

#[test]
fn non_decimal_oid_is_a_fault() {
    let mut input = header_prologue(1);
    put_int(&mut input, 1);
    put_int(&mut input, 0);
    put_str(&mut input, "12x9");
    let reader = CustomDumpReader::new(input).expect("archive must open");
    let mut iter = reader.contents();
    assert!(matches!(iter.next(), Some(Err(DumpReadError::InvalidOidString))));
}

#[test]
fn oversized_oid_is_a_fault() {
    let mut input = header_prologue(1);
    put_int(&mut input, 1);
    put_int(&mut input, 0);
    put_str(&mut input, "4294967296"); // one past the 32-bit range
    let reader = CustomDumpReader::new(input).expect("archive must open");
    let mut iter = reader.contents();
    assert!(matches!(iter.next(), Some(Err(DumpReadError::InvalidOidString))));
}

#[test]
fn table_access_method_field_is_version_gated() {
    // in a 1.13 archive the table-access-method field must not be consumed
    let mut input = static_header(1, 13, INT_SIZE as u8, OFF_SIZE as u8);
    put_int(&mut input, 0);
    for _ in 0..7 {
        put_int(&mut input, 0);
    }
    put_str(&mut input, "db");
    put_str(&mut input, "");
    put_str(&mut input, "");
    put_int(&mut input, 1);
    put_int(&mut input, 1);
    put_int(&mut input, 0);
    put_str(&mut input, "1259");
    put_str(&mut input, "7");
    put_str(&mut input, "t");
    put_str(&mut input, "TABLE");
    put_int(&mut input, 0);
    put_str(&mut input, "CREATE");
    put_str(&mut input, "");
    put_str(&mut input, "");
    put_str(&mut input, "public");
    put_str(&mut input, ""); // tablespace; no table-access-method here
    put_str(&mut input, "carol");
    put_str(&mut input, "");
    put_str(&mut input, "");
    let mut offset = vec![0u8];
    offset.extend_from_slice(&[0; OFF_SIZE]);
    input.extend_from_slice(&offset);
    let reader = CustomDumpReader::new(input).expect("archive must open");
    let mut iter = reader.contents();
    let item = iter.next().unwrap().expect("decodes");
    assert_eq!(item.owner, b"carol".to_vec());
}

#[test]
fn dependency_list_is_consumed_up_to_the_empty_string() {
    let mut input = header_prologue(1);
    put_int(&mut input, 1);
    put_int(&mut input, 0);
    put_str(&mut input, "1259");
    put_str(&mut input, "7");
    put_str(&mut input, "t");
    put_str(&mut input, "TABLE");
    put_int(&mut input, 0);
    put_str(&mut input, "CREATE");
    put_str(&mut input, "");
    put_str(&mut input, "");
    put_str(&mut input, "public");
    put_str(&mut input, "");
    put_str(&mut input, "");
    put_str(&mut input, "dave");
    put_str(&mut input, "");
    put_str(&mut input, "100"); // first dependency
    put_str(&mut input, "200"); // second dependency
    put_str(&mut input, ""); // terminator
    put_offset(&mut input, 99);
    let reader = CustomDumpReader::new(input).expect("archive must open");
    let mut iter = reader.contents();
    let item = iter.next().unwrap().expect("decodes");
    assert_eq!(item.owner, b"dave".to_vec());
    assert!(iter.next().is_none());
}

#[test]
fn oid_at_the_32_bit_limit_is_accepted() {
    let mut input = header_prologue(1);
    put_int(&mut input, 1);
    put_int(&mut input, 0);
    put_str(&mut input, "4294967295"); // table oid at the limit
    put_str(&mut input, "1");
    put_str(&mut input, "t");
    put_str(&mut input, "TABLE");
    put_int(&mut input, 0);
    put_str(&mut input, "CREATE");
    put_str(&mut input, "");
    put_str(&mut input, "");
    put_str(&mut input, "public");
    put_str(&mut input, "");
    put_str(&mut input, "");
    put_str(&mut input, "eva");
    put_str(&mut input, "");
    put_str(&mut input, "");
    put_offset(&mut input, 0);
    let reader = CustomDumpReader::new(input).expect("archive must open");
    let mut iter = reader.contents();
    let item = iter.next().unwrap().expect("decodes");
    assert_eq!(item.table_oid, u32::MAX);
}

#[test]
fn magnitude_with_its_top_bit_set_sign_extends() {
    // a length field of four 0xff bytes under a positive sign byte reads as
    // minus one, so the string is empty and nothing follows it is misread
    let mut input = header_prologue(1);
    put_int(&mut input, 1);
    put_int(&mut input, 0);
    put_str(&mut input, "1259");
    put_str(&mut input, "42");
    put_str(&mut input, "users");
    put_str(&mut input, "TABLE");
    put_int(&mut input, 0);
    put_str(&mut input, "CREATE");
    put_str(&mut input, "");
    put_str(&mut input, "");
    input.push(0); // namespace length: positive sign byte ...
    input.extend_from_slice(&[0xff, 0xff, 0xff, 0xff]); // ... minus-one magnitude
    put_str(&mut input, "");
    put_str(&mut input, "");
    put_str(&mut input, "fred");
    put_str(&mut input, "");
    put_str(&mut input, "");
    put_offset(&mut input, 0);
    let reader = CustomDumpReader::new(input).expect("archive must open");
    let mut iter = reader.contents();
    let item = iter.next().unwrap().expect("decodes");
    assert_eq!(item.namespace, Vec::<u8>::new());
    assert_eq!(item.owner, b"fred".to_vec());
}
