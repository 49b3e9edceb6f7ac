//! The fixed tags, directory names and statement fragments of the archive
//! format and of the generated SQL tree, as byte strings: a spec-level
//! sequence and an executable vector for each, proved equal.

use vstd::prelude::*;
use vstd::slice::slice_to_vec;

verus! {

pub open spec fn lit_database() -> Seq<u8> {
    seq!['D' as u8, 'A' as u8, 'T' as u8, 'A' as u8, 'B' as u8, 'A' as u8, 'S' as u8, 'E' as u8]
}

pub fn word_database() -> (r: Vec<u8>)
    ensures
        r@ == lit_database(),
{
    let a: [u8; 8] = ['D' as u8, 'A' as u8, 'T' as u8, 'A' as u8, 'B' as u8, 'A' as u8, 'S' as u8, 'E' as u8];
    let v = slice_to_vec(a.as_slice());
    assert(v@ =~= lit_database());
    v
}

pub open spec fn lit_encoding() -> Seq<u8> {
    seq!['E' as u8, 'N' as u8, 'C' as u8, 'O' as u8, 'D' as u8, 'I' as u8, 'N' as u8, 'G' as u8]
}

pub fn word_encoding() -> (r: Vec<u8>)
    ensures
        r@ == lit_encoding(),
{
    let a: [u8; 8] = ['E' as u8, 'N' as u8, 'C' as u8, 'O' as u8, 'D' as u8, 'I' as u8, 'N' as u8, 'G' as u8];
    let v = slice_to_vec(a.as_slice());
    assert(v@ =~= lit_encoding());
    v
}

pub open spec fn lit_stdstrings() -> Seq<u8> {
    seq!['S' as u8, 'T' as u8, 'D' as u8, 'S' as u8, 'T' as u8, 'R' as u8, 'I' as u8, 'N' as u8, 'G' as u8, 'S' as u8]
}

pub fn word_stdstrings() -> (r: Vec<u8>)
    ensures
        r@ == lit_stdstrings(),
{
    let a: [u8; 10] = ['S' as u8, 'T' as u8, 'D' as u8, 'S' as u8, 'T' as u8, 'R' as u8, 'I' as u8, 'N' as u8, 'G' as u8, 'S' as u8];
    let v = slice_to_vec(a.as_slice());
    assert(v@ =~= lit_stdstrings());
    v
}

pub open spec fn lit_searchpath() -> Seq<u8> {
    seq!['S' as u8, 'E' as u8, 'A' as u8, 'R' as u8, 'C' as u8, 'H' as u8, 'P' as u8, 'A' as u8, 'T' as u8, 'H' as u8]
}

pub fn word_searchpath() -> (r: Vec<u8>)
    ensures
        r@ == lit_searchpath(),
{
    let a: [u8; 10] = ['S' as u8, 'E' as u8, 'A' as u8, 'R' as u8, 'C' as u8, 'H' as u8, 'P' as u8, 'A' as u8, 'T' as u8, 'H' as u8];
    let v = slice_to_vec(a.as_slice());
    assert(v@ =~= lit_searchpath());
    v
}

pub open spec fn lit_acl() -> Seq<u8> {
    seq!['A' as u8, 'C' as u8, 'L' as u8]
}

pub fn word_acl() -> (r: Vec<u8>)
    ensures
        r@ == lit_acl(),
{
    let a: [u8; 3] = ['A' as u8, 'C' as u8, 'L' as u8];
    let v = slice_to_vec(a.as_slice());
    assert(v@ =~= lit_acl());
    v
}

pub open spec fn lit_comment() -> Seq<u8> {
    seq!['C' as u8, 'O' as u8, 'M' as u8, 'M' as u8, 'E' as u8, 'N' as u8, 'T' as u8]
}

pub fn word_comment() -> (r: Vec<u8>)
    ensures
        r@ == lit_comment(),
{
    let a: [u8; 7] = ['C' as u8, 'O' as u8, 'M' as u8, 'M' as u8, 'E' as u8, 'N' as u8, 'T' as u8];
    let v = slice_to_vec(a.as_slice());
    assert(v@ =~= lit_comment());
    v
}

pub open spec fn lit_schema() -> Seq<u8> {
    seq!['S' as u8, 'C' as u8, 'H' as u8, 'E' as u8, 'M' as u8, 'A' as u8]
}

pub fn word_schema() -> (r: Vec<u8>)
    ensures
        r@ == lit_schema(),
{
    let a: [u8; 6] = ['S' as u8, 'C' as u8, 'H' as u8, 'E' as u8, 'M' as u8, 'A' as u8];
    let v = slice_to_vec(a.as_slice());
    assert(v@ =~= lit_schema());
    v
}

pub open spec fn lit_extension() -> Seq<u8> {
    seq!['E' as u8, 'X' as u8, 'T' as u8, 'E' as u8, 'N' as u8, 'S' as u8, 'I' as u8, 'O' as u8, 'N' as u8]
}

pub fn word_extension() -> (r: Vec<u8>)
    ensures
        r@ == lit_extension(),
{
    let a: [u8; 9] = ['E' as u8, 'X' as u8, 'T' as u8, 'E' as u8, 'N' as u8, 'S' as u8, 'I' as u8, 'O' as u8, 'N' as u8];
    let v = slice_to_vec(a.as_slice());
    assert(v@ =~= lit_extension());
    v
}

pub open spec fn lit_shell_type() -> Seq<u8> {
    seq!['S' as u8, 'H' as u8, 'E' as u8, 'L' as u8, 'L' as u8, ' ' as u8, 'T' as u8, 'Y' as u8, 'P' as u8, 'E' as u8]
}

pub fn word_shell_type() -> (r: Vec<u8>)
    ensures
        r@ == lit_shell_type(),
{
    let a: [u8; 10] = ['S' as u8, 'H' as u8, 'E' as u8, 'L' as u8, 'L' as u8, ' ' as u8, 'T' as u8, 'Y' as u8, 'P' as u8, 'E' as u8];
    let v = slice_to_vec(a.as_slice());
    assert(v@ =~= lit_shell_type());
    v
}

pub open spec fn lit_type_name() -> Seq<u8> {
    seq!['T' as u8, 'Y' as u8, 'P' as u8, 'E' as u8]
}

pub fn word_type_name() -> (r: Vec<u8>)
    ensures
        r@ == lit_type_name(),
{
    let a: [u8; 4] = ['T' as u8, 'Y' as u8, 'P' as u8, 'E' as u8];
    let v = slice_to_vec(a.as_slice());
    assert(v@ =~= lit_type_name());
    v
}

pub open spec fn lit_domain() -> Seq<u8> {
    seq!['D' as u8, 'O' as u8, 'M' as u8, 'A' as u8, 'I' as u8, 'N' as u8]
}

pub fn word_domain() -> (r: Vec<u8>)
    ensures
        r@ == lit_domain(),
{
    let a: [u8; 6] = ['D' as u8, 'O' as u8, 'M' as u8, 'A' as u8, 'I' as u8, 'N' as u8];
    let v = slice_to_vec(a.as_slice());
    assert(v@ =~= lit_domain());
    v
}

pub open spec fn lit_function() -> Seq<u8> {
    seq!['F' as u8, 'U' as u8, 'N' as u8, 'C' as u8, 'T' as u8, 'I' as u8, 'O' as u8, 'N' as u8]
}

pub fn word_function() -> (r: Vec<u8>)
    ensures
        r@ == lit_function(),
{
    let a: [u8; 8] = ['F' as u8, 'U' as u8, 'N' as u8, 'C' as u8, 'T' as u8, 'I' as u8, 'O' as u8, 'N' as u8];
    let v = slice_to_vec(a.as_slice());
    assert(v@ =~= lit_function());
    v
}

pub open spec fn lit_aggregate() -> Seq<u8> {
    seq!['A' as u8, 'G' as u8, 'G' as u8, 'R' as u8, 'E' as u8, 'G' as u8, 'A' as u8, 'T' as u8, 'E' as u8]
}

pub fn word_aggregate() -> (r: Vec<u8>)
    ensures
        r@ == lit_aggregate(),
{
    let a: [u8; 9] = ['A' as u8, 'G' as u8, 'G' as u8, 'R' as u8, 'E' as u8, 'G' as u8, 'A' as u8, 'T' as u8, 'E' as u8];
    let v = slice_to_vec(a.as_slice());
    assert(v@ =~= lit_aggregate());
    v
}

pub open spec fn lit_operator() -> Seq<u8> {
    seq!['O' as u8, 'P' as u8, 'E' as u8, 'R' as u8, 'A' as u8, 'T' as u8, 'O' as u8, 'R' as u8]
}

pub fn word_operator() -> (r: Vec<u8>)
    ensures
        r@ == lit_operator(),
{
    let a: [u8; 8] = ['O' as u8, 'P' as u8, 'E' as u8, 'R' as u8, 'A' as u8, 'T' as u8, 'O' as u8, 'R' as u8];
    let v = slice_to_vec(a.as_slice());
    assert(v@ =~= lit_operator());
    v
}

pub open spec fn lit_table() -> Seq<u8> {
    seq!['T' as u8, 'A' as u8, 'B' as u8, 'L' as u8, 'E' as u8]
}

pub fn word_table() -> (r: Vec<u8>)
    ensures
        r@ == lit_table(),
{
    let a: [u8; 5] = ['T' as u8, 'A' as u8, 'B' as u8, 'L' as u8, 'E' as u8];
    let v = slice_to_vec(a.as_slice());
    assert(v@ =~= lit_table());
    v
}

pub open spec fn lit_index() -> Seq<u8> {
    seq!['I' as u8, 'N' as u8, 'D' as u8, 'E' as u8, 'X' as u8]
}

pub fn word_index() -> (r: Vec<u8>)
    ensures
        r@ == lit_index(),
{
    let a: [u8; 5] = ['I' as u8, 'N' as u8, 'D' as u8, 'E' as u8, 'X' as u8];
    let v = slice_to_vec(a.as_slice());
    assert(v@ =~= lit_index());
    v
}

pub open spec fn lit_constraint() -> Seq<u8> {
    seq!['C' as u8, 'O' as u8, 'N' as u8, 'S' as u8, 'T' as u8, 'R' as u8, 'A' as u8, 'I' as u8, 'N' as u8, 'T' as u8]
}

pub fn word_constraint() -> (r: Vec<u8>)
    ensures
        r@ == lit_constraint(),
{
    let a: [u8; 10] = ['C' as u8, 'O' as u8, 'N' as u8, 'S' as u8, 'T' as u8, 'R' as u8, 'A' as u8, 'I' as u8, 'N' as u8, 'T' as u8];
    let v = slice_to_vec(a.as_slice());
    assert(v@ =~= lit_constraint());
    v
}

pub open spec fn lit_check_constraint() -> Seq<u8> {
    seq!['C' as u8, 'H' as u8, 'E' as u8, 'C' as u8, 'K' as u8, ' ' as u8, 'C' as u8, 'O' as u8, 'N' as u8, 'S' as u8, 'T' as u8, 'R' as u8, 'A' as u8, 'I' as u8, 'N' as u8, 'T' as u8]
}

pub fn word_check_constraint() -> (r: Vec<u8>)
    ensures
        r@ == lit_check_constraint(),
{
    let a: [u8; 16] = ['C' as u8, 'H' as u8, 'E' as u8, 'C' as u8, 'K' as u8, ' ' as u8, 'C' as u8, 'O' as u8, 'N' as u8, 'S' as u8, 'T' as u8, 'R' as u8, 'A' as u8, 'I' as u8, 'N' as u8, 'T' as u8];
    let v = slice_to_vec(a.as_slice());
    assert(v@ =~= lit_check_constraint());
    v
}

pub open spec fn lit_default_marker() -> Seq<u8> {
    seq!['D' as u8, 'E' as u8, 'F' as u8, 'A' as u8, 'U' as u8, 'L' as u8, 'T' as u8]
}

pub fn word_default_marker() -> (r: Vec<u8>)
    ensures
        r@ == lit_default_marker(),
{
    let a: [u8; 7] = ['D' as u8, 'E' as u8, 'F' as u8, 'A' as u8, 'U' as u8, 'L' as u8, 'T' as u8];
    let v = slice_to_vec(a.as_slice());
    assert(v@ =~= lit_default_marker());
    v
}

pub open spec fn lit_trigger() -> Seq<u8> {
    seq!['T' as u8, 'R' as u8, 'I' as u8, 'G' as u8, 'G' as u8, 'E' as u8, 'R' as u8]
}

pub fn word_trigger() -> (r: Vec<u8>)
    ensures
        r@ == lit_trigger(),
{
    let a: [u8; 7] = ['T' as u8, 'R' as u8, 'I' as u8, 'G' as u8, 'G' as u8, 'E' as u8, 'R' as u8];
    let v = slice_to_vec(a.as_slice());
    assert(v@ =~= lit_trigger());
    v
}

pub open spec fn lit_fk_constraint() -> Seq<u8> {
    seq!['F' as u8, 'K' as u8, ' ' as u8, 'C' as u8, 'O' as u8, 'N' as u8, 'S' as u8, 'T' as u8, 'R' as u8, 'A' as u8, 'I' as u8, 'N' as u8, 'T' as u8]
}

pub fn word_fk_constraint() -> (r: Vec<u8>)
    ensures
        r@ == lit_fk_constraint(),
{
    let a: [u8; 13] = ['F' as u8, 'K' as u8, ' ' as u8, 'C' as u8, 'O' as u8, 'N' as u8, 'S' as u8, 'T' as u8, 'R' as u8, 'A' as u8, 'I' as u8, 'N' as u8, 'T' as u8];
    let v = slice_to_vec(a.as_slice());
    assert(v@ =~= lit_fk_constraint());
    v
}

pub open spec fn lit_sequence() -> Seq<u8> {
    seq!['S' as u8, 'E' as u8, 'Q' as u8, 'U' as u8, 'E' as u8, 'N' as u8, 'C' as u8, 'E' as u8]
}

pub fn word_sequence() -> (r: Vec<u8>)
    ensures
        r@ == lit_sequence(),
{
    let a: [u8; 8] = ['S' as u8, 'E' as u8, 'Q' as u8, 'U' as u8, 'E' as u8, 'N' as u8, 'C' as u8, 'E' as u8];
    let v = slice_to_vec(a.as_slice());
    assert(v@ =~= lit_sequence());
    v
}

pub open spec fn lit_sequence_owned_by() -> Seq<u8> {
    seq!['S' as u8, 'E' as u8, 'Q' as u8, 'U' as u8, 'E' as u8, 'N' as u8, 'C' as u8, 'E' as u8, ' ' as u8, 'O' as u8, 'W' as u8, 'N' as u8, 'E' as u8, 'D' as u8, ' ' as u8, 'B' as u8, 'Y' as u8]
}

pub fn word_sequence_owned_by() -> (r: Vec<u8>)
    ensures
        r@ == lit_sequence_owned_by(),
{
    let a: [u8; 17] = ['S' as u8, 'E' as u8, 'Q' as u8, 'U' as u8, 'E' as u8, 'N' as u8, 'C' as u8, 'E' as u8, ' ' as u8, 'O' as u8, 'W' as u8, 'N' as u8, 'E' as u8, 'D' as u8, ' ' as u8, 'B' as u8, 'Y' as u8];
    let v = slice_to_vec(a.as_slice());
    assert(v@ =~= lit_sequence_owned_by());
    v
}

pub open spec fn lit_view_desc() -> Seq<u8> {
    seq!['V' as u8, 'I' as u8, 'E' as u8, 'W' as u8]
}

pub fn word_view_desc() -> (r: Vec<u8>)
    ensures
        r@ == lit_view_desc(),
{
    let a: [u8; 4] = ['V' as u8, 'I' as u8, 'E' as u8, 'W' as u8];
    let v = slice_to_vec(a.as_slice());
    assert(v@ =~= lit_view_desc());
    v
}

pub open spec fn lit_rule() -> Seq<u8> {
    seq!['R' as u8, 'U' as u8, 'L' as u8, 'E' as u8]
}

pub fn word_rule() -> (r: Vec<u8>)
    ensures
        r@ == lit_rule(),
{
    let a: [u8; 4] = ['R' as u8, 'U' as u8, 'L' as u8, 'E' as u8];
    let v = slice_to_vec(a.as_slice());
    assert(v@ =~= lit_rule());
    v
}

pub open spec fn lit_publication() -> Seq<u8> {
    seq!['P' as u8, 'U' as u8, 'B' as u8, 'L' as u8, 'I' as u8, 'C' as u8, 'A' as u8, 'T' as u8, 'I' as u8, 'O' as u8, 'N' as u8]
}

pub fn word_publication() -> (r: Vec<u8>)
    ensures
        r@ == lit_publication(),
{
    let a: [u8; 11] = ['P' as u8, 'U' as u8, 'B' as u8, 'L' as u8, 'I' as u8, 'C' as u8, 'A' as u8, 'T' as u8, 'I' as u8, 'O' as u8, 'N' as u8];
    let v = slice_to_vec(a.as_slice());
    assert(v@ =~= lit_publication());
    v
}

pub open spec fn lit_publication_table() -> Seq<u8> {
    seq!['P' as u8, 'U' as u8, 'B' as u8, 'L' as u8, 'I' as u8, 'C' as u8, 'A' as u8, 'T' as u8, 'I' as u8, 'O' as u8, 'N' as u8, ' ' as u8, 'T' as u8, 'A' as u8, 'B' as u8, 'L' as u8, 'E' as u8]
}

pub fn word_publication_table() -> (r: Vec<u8>)
    ensures
        r@ == lit_publication_table(),
{
    let a: [u8; 17] = ['P' as u8, 'U' as u8, 'B' as u8, 'L' as u8, 'I' as u8, 'C' as u8, 'A' as u8, 'T' as u8, 'I' as u8, 'O' as u8, 'N' as u8, ' ' as u8, 'T' as u8, 'A' as u8, 'B' as u8, 'L' as u8, 'E' as u8];
    let v = slice_to_vec(a.as_slice());
    assert(v@ =~= lit_publication_table());
    v
}

pub open spec fn lit_column() -> Seq<u8> {
    seq!['C' as u8, 'O' as u8, 'L' as u8, 'U' as u8, 'M' as u8, 'N' as u8]
}

pub fn word_column() -> (r: Vec<u8>)
    ensures
        r@ == lit_column(),
{
    let a: [u8; 6] = ['C' as u8, 'O' as u8, 'L' as u8, 'U' as u8, 'M' as u8, 'N' as u8];
    let v = slice_to_vec(a.as_slice());
    assert(v@ =~= lit_column());
    v
}

pub open spec fn lit_public_schema() -> Seq<u8> {
    seq!['p' as u8, 'u' as u8, 'b' as u8, 'l' as u8, 'i' as u8, 'c' as u8]
}

pub fn word_public_schema() -> (r: Vec<u8>)
    ensures
        r@ == lit_public_schema(),
{
    let a: [u8; 6] = ['p' as u8, 'u' as u8, 'b' as u8, 'l' as u8, 'i' as u8, 'c' as u8];
    let v = slice_to_vec(a.as_slice());
    assert(v@ =~= lit_public_schema());
    v
}

pub open spec fn lit_index_sql() -> Seq<u8> {
    seq!['i' as u8, 'n' as u8, 'd' as u8, 'e' as u8, 'x' as u8, '.' as u8, 's' as u8, 'q' as u8, 'l' as u8]
}

pub fn word_index_sql() -> (r: Vec<u8>)
    ensures
        r@ == lit_index_sql(),
{
    let a: [u8; 9] = ['i' as u8, 'n' as u8, 'd' as u8, 'e' as u8, 'x' as u8, '.' as u8, 's' as u8, 'q' as u8, 'l' as u8];
    let v = slice_to_vec(a.as_slice());
    assert(v@ =~= lit_index_sql());
    v
}

pub open spec fn lit_schemas_dir() -> Seq<u8> {
    seq!['S' as u8, 'C' as u8, 'H' as u8, 'E' as u8, 'M' as u8, 'A' as u8, 'S' as u8]
}

pub fn word_schemas_dir() -> (r: Vec<u8>)
    ensures
        r@ == lit_schemas_dir(),
{
    let a: [u8; 7] = ['S' as u8, 'C' as u8, 'H' as u8, 'E' as u8, 'M' as u8, 'A' as u8, 'S' as u8];
    let v = slice_to_vec(a.as_slice());
    assert(v@ =~= lit_schemas_dir());
    v
}

pub open spec fn lit_extensions_dir() -> Seq<u8> {
    seq!['E' as u8, 'X' as u8, 'T' as u8, 'E' as u8, 'N' as u8, 'S' as u8, 'I' as u8, 'O' as u8, 'N' as u8, 'S' as u8]
}

pub fn word_extensions_dir() -> (r: Vec<u8>)
    ensures
        r@ == lit_extensions_dir(),
{
    let a: [u8; 10] = ['E' as u8, 'X' as u8, 'T' as u8, 'E' as u8, 'N' as u8, 'S' as u8, 'I' as u8, 'O' as u8, 'N' as u8, 'S' as u8];
    let v = slice_to_vec(a.as_slice());
    assert(v@ =~= lit_extensions_dir());
    v
}

pub open spec fn lit_shell_types_dir() -> Seq<u8> {
    seq!['S' as u8, 'H' as u8, 'E' as u8, 'L' as u8, 'L' as u8, '_' as u8, 'T' as u8, 'Y' as u8, 'P' as u8, 'E' as u8, 'S' as u8]
}

pub fn word_shell_types_dir() -> (r: Vec<u8>)
    ensures
        r@ == lit_shell_types_dir(),
{
    let a: [u8; 11] = ['S' as u8, 'H' as u8, 'E' as u8, 'L' as u8, 'L' as u8, '_' as u8, 'T' as u8, 'Y' as u8, 'P' as u8, 'E' as u8, 'S' as u8];
    let v = slice_to_vec(a.as_slice());
    assert(v@ =~= lit_shell_types_dir());
    v
}

pub open spec fn lit_types_dir() -> Seq<u8> {
    seq!['T' as u8, 'Y' as u8, 'P' as u8, 'E' as u8, 'S' as u8]
}

pub fn word_types_dir() -> (r: Vec<u8>)
    ensures
        r@ == lit_types_dir(),
{
    let a: [u8; 5] = ['T' as u8, 'Y' as u8, 'P' as u8, 'E' as u8, 'S' as u8];
    let v = slice_to_vec(a.as_slice());
    assert(v@ =~= lit_types_dir());
    v
}

pub open spec fn lit_domains_dir() -> Seq<u8> {
    seq!['D' as u8, 'O' as u8, 'M' as u8, 'A' as u8, 'I' as u8, 'N' as u8, 'S' as u8]
}

pub fn word_domains_dir() -> (r: Vec<u8>)
    ensures
        r@ == lit_domains_dir(),
{
    let a: [u8; 7] = ['D' as u8, 'O' as u8, 'M' as u8, 'A' as u8, 'I' as u8, 'N' as u8, 'S' as u8];
    let v = slice_to_vec(a.as_slice());
    assert(v@ =~= lit_domains_dir());
    v
}

pub open spec fn lit_functions_dir() -> Seq<u8> {
    seq!['F' as u8, 'U' as u8, 'N' as u8, 'C' as u8, 'T' as u8, 'I' as u8, 'O' as u8, 'N' as u8, 'S' as u8]
}

pub fn word_functions_dir() -> (r: Vec<u8>)
    ensures
        r@ == lit_functions_dir(),
{
    let a: [u8; 9] = ['F' as u8, 'U' as u8, 'N' as u8, 'C' as u8, 'T' as u8, 'I' as u8, 'O' as u8, 'N' as u8, 'S' as u8];
    let v = slice_to_vec(a.as_slice());
    assert(v@ =~= lit_functions_dir());
    v
}

pub open spec fn lit_trigger_functions_dir() -> Seq<u8> {
    seq!['T' as u8, 'R' as u8, 'I' as u8, 'G' as u8, 'G' as u8, 'E' as u8, 'R' as u8, '_' as u8, 'F' as u8, 'U' as u8, 'N' as u8, 'C' as u8, 'T' as u8, 'I' as u8, 'O' as u8, 'N' as u8, 'S' as u8]
}

pub fn word_trigger_functions_dir() -> (r: Vec<u8>)
    ensures
        r@ == lit_trigger_functions_dir(),
{
    let a: [u8; 17] = ['T' as u8, 'R' as u8, 'I' as u8, 'G' as u8, 'G' as u8, 'E' as u8, 'R' as u8, '_' as u8, 'F' as u8, 'U' as u8, 'N' as u8, 'C' as u8, 'T' as u8, 'I' as u8, 'O' as u8, 'N' as u8, 'S' as u8];
    let v = slice_to_vec(a.as_slice());
    assert(v@ =~= lit_trigger_functions_dir());
    v
}

pub open spec fn lit_operators_sql() -> Seq<u8> {
    seq!['o' as u8, 'p' as u8, 'e' as u8, 'r' as u8, 'a' as u8, 't' as u8, 'o' as u8, 'r' as u8, 's' as u8, '.' as u8, 's' as u8, 'q' as u8, 'l' as u8]
}

pub fn word_operators_sql() -> (r: Vec<u8>)
    ensures
        r@ == lit_operators_sql(),
{
    let a: [u8; 13] = ['o' as u8, 'p' as u8, 'e' as u8, 'r' as u8, 'a' as u8, 't' as u8, 'o' as u8, 'r' as u8, 's' as u8, '.' as u8, 's' as u8, 'q' as u8, 'l' as u8];
    let v = slice_to_vec(a.as_slice());
    assert(v@ =~= lit_operators_sql());
    v
}

pub open spec fn lit_tables_dir() -> Seq<u8> {
    seq!['T' as u8, 'A' as u8, 'B' as u8, 'L' as u8, 'E' as u8, 'S' as u8]
}

pub fn word_tables_dir() -> (r: Vec<u8>)
    ensures
        r@ == lit_tables_dir(),
{
    let a: [u8; 6] = ['T' as u8, 'A' as u8, 'B' as u8, 'L' as u8, 'E' as u8, 'S' as u8];
    let v = slice_to_vec(a.as_slice());
    assert(v@ =~= lit_tables_dir());
    v
}

pub open spec fn lit_fk_constraints_dir() -> Seq<u8> {
    seq!['F' as u8, 'K' as u8, '_' as u8, 'C' as u8, 'O' as u8, 'N' as u8, 'S' as u8, 'T' as u8, 'R' as u8, 'A' as u8, 'I' as u8, 'N' as u8, 'T' as u8, 'S' as u8]
}

pub fn word_fk_constraints_dir() -> (r: Vec<u8>)
    ensures
        r@ == lit_fk_constraints_dir(),
{
    let a: [u8; 14] = ['F' as u8, 'K' as u8, '_' as u8, 'C' as u8, 'O' as u8, 'N' as u8, 'S' as u8, 'T' as u8, 'R' as u8, 'A' as u8, 'I' as u8, 'N' as u8, 'T' as u8, 'S' as u8];
    let v = slice_to_vec(a.as_slice());
    assert(v@ =~= lit_fk_constraints_dir());
    v
}

pub open spec fn lit_sequences_dir() -> Seq<u8> {
    seq!['S' as u8, 'E' as u8, 'Q' as u8, 'U' as u8, 'E' as u8, 'N' as u8, 'C' as u8, 'E' as u8, 'S' as u8]
}

pub fn word_sequences_dir() -> (r: Vec<u8>)
    ensures
        r@ == lit_sequences_dir(),
{
    let a: [u8; 9] = ['S' as u8, 'E' as u8, 'Q' as u8, 'U' as u8, 'E' as u8, 'N' as u8, 'C' as u8, 'E' as u8, 'S' as u8];
    let v = slice_to_vec(a.as_slice());
    assert(v@ =~= lit_sequences_dir());
    v
}

pub open spec fn lit_views_dir() -> Seq<u8> {
    seq!['V' as u8, 'I' as u8, 'E' as u8, 'W' as u8, 'S' as u8]
}

pub fn word_views_dir() -> (r: Vec<u8>)
    ensures
        r@ == lit_views_dir(),
{
    let a: [u8; 5] = ['V' as u8, 'I' as u8, 'E' as u8, 'W' as u8, 'S' as u8];
    let v = slice_to_vec(a.as_slice());
    assert(v@ =~= lit_views_dir());
    v
}

pub open spec fn lit_rules_dir() -> Seq<u8> {
    seq!['R' as u8, 'U' as u8, 'L' as u8, 'E' as u8, 'S' as u8]
}

pub fn word_rules_dir() -> (r: Vec<u8>)
    ensures
        r@ == lit_rules_dir(),
{
    let a: [u8; 5] = ['R' as u8, 'U' as u8, 'L' as u8, 'E' as u8, 'S' as u8];
    let v = slice_to_vec(a.as_slice());
    assert(v@ =~= lit_rules_dir());
    v
}

pub open spec fn lit_publications_dir() -> Seq<u8> {
    seq!['P' as u8, 'U' as u8, 'B' as u8, 'L' as u8, 'I' as u8, 'C' as u8, 'A' as u8, 'T' as u8, 'I' as u8, 'O' as u8, 'N' as u8, 'S' as u8]
}

pub fn word_publications_dir() -> (r: Vec<u8>)
    ensures
        r@ == lit_publications_dir(),
{
    let a: [u8; 12] = ['P' as u8, 'U' as u8, 'B' as u8, 'L' as u8, 'I' as u8, 'C' as u8, 'A' as u8, 'T' as u8, 'I' as u8, 'O' as u8, 'N' as u8, 'S' as u8];
    let v = slice_to_vec(a.as_slice());
    assert(v@ =~= lit_publications_dir());
    v
}

pub open spec fn lit_sql_suffix() -> Seq<u8> {
    seq!['.' as u8, 's' as u8, 'q' as u8, 'l' as u8]
}

pub fn word_sql_suffix() -> (r: Vec<u8>)
    ensures
        r@ == lit_sql_suffix(),
{
    let a: [u8; 4] = ['.' as u8, 's' as u8, 'q' as u8, 'l' as u8];
    let v = slice_to_vec(a.as_slice());
    assert(v@ =~= lit_sql_suffix());
    v
}

pub open spec fn lit_check_function_bodies() -> Seq<u8> {
    seq!['S' as u8, 'E' as u8, 'T' as u8, ' ' as u8, 'c' as u8, 'h' as u8, 'e' as u8, 'c' as u8, 'k' as u8, '_' as u8, 'f' as u8, 'u' as u8, 'n' as u8, 'c' as u8, 't' as u8, 'i' as u8, 'o' as u8, 'n' as u8, '_' as u8, 'b' as u8, 'o' as u8, 'd' as u8, 'i' as u8, 'e' as u8, 's' as u8, ' ' as u8, '=' as u8, ' ' as u8, 'f' as u8, 'a' as u8, 'l' as u8, 's' as u8, 'e' as u8, ';' as u8, '\n' as u8]
}

pub fn word_check_function_bodies() -> (r: Vec<u8>)
    ensures
        r@ == lit_check_function_bodies(),
{
    let a: [u8; 35] = ['S' as u8, 'E' as u8, 'T' as u8, ' ' as u8, 'c' as u8, 'h' as u8, 'e' as u8, 'c' as u8, 'k' as u8, '_' as u8, 'f' as u8, 'u' as u8, 'n' as u8, 'c' as u8, 't' as u8, 'i' as u8, 'o' as u8, 'n' as u8, '_' as u8, 'b' as u8, 'o' as u8, 'd' as u8, 'i' as u8, 'e' as u8, 's' as u8, ' ' as u8, '=' as u8, ' ' as u8, 'f' as u8, 'a' as u8, 'l' as u8, 's' as u8, 'e' as u8, ';' as u8, '\n' as u8];
    let v = slice_to_vec(a.as_slice());
    assert(v@ =~= lit_check_function_bodies());
    v
}

pub open spec fn lit_alter_function() -> Seq<u8> {
    seq!['A' as u8, 'L' as u8, 'T' as u8, 'E' as u8, 'R' as u8, ' ' as u8, 'F' as u8, 'U' as u8, 'N' as u8, 'C' as u8, 'T' as u8, 'I' as u8, 'O' as u8, 'N' as u8, ' ' as u8]
}

pub fn word_alter_function() -> (r: Vec<u8>)
    ensures
        r@ == lit_alter_function(),
{
    let a: [u8; 15] = ['A' as u8, 'L' as u8, 'T' as u8, 'E' as u8, 'R' as u8, ' ' as u8, 'F' as u8, 'U' as u8, 'N' as u8, 'C' as u8, 'T' as u8, 'I' as u8, 'O' as u8, 'N' as u8, ' ' as u8];
    let v = slice_to_vec(a.as_slice());
    assert(v@ =~= lit_alter_function());
    v
}

pub open spec fn lit_alter_table() -> Seq<u8> {
    seq!['A' as u8, 'L' as u8, 'T' as u8, 'E' as u8, 'R' as u8, ' ' as u8, 'T' as u8, 'A' as u8, 'B' as u8, 'L' as u8, 'E' as u8, ' ' as u8]
}

pub fn word_alter_table() -> (r: Vec<u8>)
    ensures
        r@ == lit_alter_table(),
{
    let a: [u8; 12] = ['A' as u8, 'L' as u8, 'T' as u8, 'E' as u8, 'R' as u8, ' ' as u8, 'T' as u8, 'A' as u8, 'B' as u8, 'L' as u8, 'E' as u8, ' ' as u8];
    let v = slice_to_vec(a.as_slice());
    assert(v@ =~= lit_alter_table());
    v
}

pub open spec fn lit_alter_sequence() -> Seq<u8> {
    seq!['A' as u8, 'L' as u8, 'T' as u8, 'E' as u8, 'R' as u8, ' ' as u8, 'S' as u8, 'E' as u8, 'Q' as u8, 'U' as u8, 'E' as u8, 'N' as u8, 'C' as u8, 'E' as u8, ' ' as u8]
}

pub fn word_alter_sequence() -> (r: Vec<u8>)
    ensures
        r@ == lit_alter_sequence(),
{
    let a: [u8; 15] = ['A' as u8, 'L' as u8, 'T' as u8, 'E' as u8, 'R' as u8, ' ' as u8, 'S' as u8, 'E' as u8, 'Q' as u8, 'U' as u8, 'E' as u8, 'N' as u8, 'C' as u8, 'E' as u8, ' ' as u8];
    let v = slice_to_vec(a.as_slice());
    assert(v@ =~= lit_alter_sequence());
    v
}

pub open spec fn lit_alter_view() -> Seq<u8> {
    seq!['A' as u8, 'L' as u8, 'T' as u8, 'E' as u8, 'R' as u8, ' ' as u8, 'V' as u8, 'I' as u8, 'E' as u8, 'W' as u8, ' ' as u8]
}

pub fn word_alter_view() -> (r: Vec<u8>)
    ensures
        r@ == lit_alter_view(),
{
    let a: [u8; 11] = ['A' as u8, 'L' as u8, 'T' as u8, 'E' as u8, 'R' as u8, ' ' as u8, 'V' as u8, 'I' as u8, 'E' as u8, 'W' as u8, ' ' as u8];
    let v = slice_to_vec(a.as_slice());
    assert(v@ =~= lit_alter_view());
    v
}

pub open spec fn lit_owner_to() -> Seq<u8> {
    seq![' ' as u8, 'O' as u8, 'W' as u8, 'N' as u8, 'E' as u8, 'R' as u8, ' ' as u8, 'T' as u8, 'O' as u8, ' ' as u8]
}

pub fn word_owner_to() -> (r: Vec<u8>)
    ensures
        r@ == lit_owner_to(),
{
    let a: [u8; 10] = [' ' as u8, 'O' as u8, 'W' as u8, 'N' as u8, 'E' as u8, 'R' as u8, ' ' as u8, 'T' as u8, 'O' as u8, ' ' as u8];
    let v = slice_to_vec(a.as_slice());
    assert(v@ =~= lit_owner_to());
    v
}

pub open spec fn lit_semi_nl() -> Seq<u8> {
    seq![';' as u8, '\n' as u8]
}

pub fn word_semi_nl() -> (r: Vec<u8>)
    ensures
        r@ == lit_semi_nl(),
{
    let a: [u8; 2] = [';' as u8, '\n' as u8];
    let v = slice_to_vec(a.as_slice());
    assert(v@ =~= lit_semi_nl());
    v
}

pub open spec fn lit_create_view_prefix() -> Seq<u8> {
    seq!['C' as u8, 'R' as u8, 'E' as u8, 'A' as u8, 'T' as u8, 'E' as u8, ' ' as u8, 'O' as u8, 'R' as u8, ' ' as u8, 'R' as u8, 'E' as u8, 'P' as u8, 'L' as u8, 'A' as u8, 'C' as u8, 'E' as u8, ' ' as u8, 'V' as u8, 'I' as u8, 'E' as u8, 'W' as u8, ' ' as u8]
}

pub fn word_create_view_prefix() -> (r: Vec<u8>)
    ensures
        r@ == lit_create_view_prefix(),
{
    let a: [u8; 23] = ['C' as u8, 'R' as u8, 'E' as u8, 'A' as u8, 'T' as u8, 'E' as u8, ' ' as u8, 'O' as u8, 'R' as u8, ' ' as u8, 'R' as u8, 'E' as u8, 'P' as u8, 'L' as u8, 'A' as u8, 'C' as u8, 'E' as u8, ' ' as u8, 'V' as u8, 'I' as u8, 'E' as u8, 'W' as u8, ' ' as u8];
    let v = slice_to_vec(a.as_slice());
    assert(v@ =~= lit_create_view_prefix());
    v
}

pub open spec fn lit_as_suffix() -> Seq<u8> {
    seq![' ' as u8, 'A' as u8, 'S' as u8]
}

pub fn word_as_suffix() -> (r: Vec<u8>)
    ensures
        r@ == lit_as_suffix(),
{
    let a: [u8; 3] = [' ' as u8, 'A' as u8, 'S' as u8];
    let v = slice_to_vec(a.as_slice());
    assert(v@ =~= lit_as_suffix());
    v
}

pub open spec fn lit_ir_prefix() -> Seq<u8> {
    seq!['\\' as u8, 'i' as u8, 'r' as u8, ' ' as u8]
}

pub fn word_ir_prefix() -> (r: Vec<u8>)
    ensures
        r@ == lit_ir_prefix(),
{
    let a: [u8; 4] = ['\\' as u8, 'i' as u8, 'r' as u8, ' ' as u8];
    let v = slice_to_vec(a.as_slice());
    assert(v@ =~= lit_ir_prefix());
    v
}

pub open spec fn lit_revoke() -> Seq<u8> {
    seq!['R' as u8, 'E' as u8, 'V' as u8, 'O' as u8, 'K' as u8, 'E' as u8]
}

pub fn word_revoke() -> (r: Vec<u8>)
    ensures
        r@ == lit_revoke(),
{
    let a: [u8; 6] = ['R' as u8, 'E' as u8, 'V' as u8, 'O' as u8, 'K' as u8, 'E' as u8];
    let v = slice_to_vec(a.as_slice());
    assert(v@ =~= lit_revoke());
    v
}

} // verus!
