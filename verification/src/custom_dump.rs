//! The classifier and router: every decoded entry is mapped by its catalog
//! id and description to an output path and content blocks, then merged into
//! the split tree. Session-setup entries fill dedicated fields and the root
//! index file; view entries register themselves so that later permission and
//! comment entries can tell a view from a table.

use vstd::prelude::*;
use vstd::slice::slice_to_vec;
use crate::acl_sort::acl_sorted_stmts;
use crate::acl_sort::sorted_acl_statements;
use crate::auxiliary_data::{oid_lookup, AuxiliaryData};
use crate::bytes_util::{append_bytes, bytes_eq, split_at_byte, split_once_byte};
use crate::custom_dump_reader::{
    sp_open_dump, sp_read_item, CustomDumpItem, CustomDumpItemView, CustomDumpReader,
    DumpReadError,
};
use crate::split_directory::{
    append_to_root_file, assoc_idx, dir_lookup, dir_wf, lemma_assoc_idx, merge_file, seqs_view,
    SplitDumpDirectory,
};
use crate::words::{
    lit_acl, lit_aggregate, lit_alter_function, lit_alter_sequence, lit_alter_table,
    lit_alter_view, lit_as_suffix, lit_check_constraint, lit_check_function_bodies, lit_column,
    lit_comment, lit_constraint, lit_create_view_prefix, lit_database, lit_default_marker,
    lit_domain, lit_domains_dir, lit_encoding, lit_extension, lit_extensions_dir,
    lit_fk_constraint, lit_fk_constraints_dir, lit_function, lit_functions_dir, lit_index,
    lit_index_sql, lit_ir_prefix, lit_operator, lit_operators_sql, lit_owner_to,
    lit_public_schema, lit_publication, lit_publication_table, lit_publications_dir, lit_rule,
    lit_rules_dir, lit_schema, lit_schemas_dir, lit_searchpath, lit_semi_nl, lit_sequence,
    lit_sequence_owned_by, lit_sequences_dir, lit_shell_type, lit_shell_types_dir,
    lit_sql_suffix, lit_stdstrings, lit_table, lit_tables_dir, lit_trigger,
    lit_trigger_functions_dir, lit_type_name, lit_types_dir, lit_view_desc, lit_views_dir,
    word_alter_function, word_alter_sequence, word_alter_table, word_alter_view, word_as_suffix,
    word_check_function_bodies, word_create_view_prefix, word_database, word_owner_to,
    word_semi_nl, word_sql_suffix, word_acl, word_aggregate, word_check_constraint, word_column,
    word_comment, word_constraint, word_default_marker, word_domain, word_domains_dir,
    word_encoding, word_extension, word_extensions_dir, word_fk_constraint,
    word_fk_constraints_dir, word_function, word_functions_dir, word_index, word_index_sql,
    word_ir_prefix, word_operator, word_operators_sql, word_public_schema, word_publication,
    word_publication_table, word_publications_dir, word_rule, word_rules_dir, word_schema,
    word_schemas_dir, word_searchpath, word_sequence, word_sequence_owned_by, word_sequences_dir,
    word_shell_type, word_shell_types_dir, word_stdstrings, word_table, word_tables_dir,
    word_trigger, word_trigger_functions_dir, word_type_name, word_types_dir, word_view_desc,
    word_views_dir,
};

verus! {

/// The classified dump being accumulated: the three session-setup statements,
/// the split tree, and the registry of views seen so far.
#[derive(Debug)]
pub struct CustomDump {
    pub set_client_encoding: Option<Vec<u8>>,
    pub set_standard_conforming_strings: Option<Vec<u8>>,
    pub set_search_path: Option<Vec<u8>>,
    pub split_root: SplitDumpDirectory,
    pub file_order: Vec<Vec<u8>>,
    pub views: Vec<(Vec<u8>, Vec<u8>)>,
}

/// The byte string held by an optional byte vector.
pub open spec fn opt_view(o: Option<Vec<u8>>) -> Option<Seq<u8>> {
    match o {
        None => None,
        Some(v) => Some(v@),
    }
}

/// The byte strings held by an optional pair of byte vectors.
pub open spec fn opt_pair_view(o: Option<(Vec<u8>, Vec<u8>)>) -> Option<(Seq<u8>, Seq<u8>)> {
    match o {
        None => None,
        Some(p) => Some((p.0@, p.1@)),
    }
}

/// A name with the SQL file suffix appended.
pub open spec fn sql_file(name: Seq<u8>) -> Seq<u8> {
    name + lit_sql_suffix()
}

/// An ownership-assignment statement for a schema-qualified object.
pub open spec fn owner_stmt(prefix: Seq<u8>, ns: Seq<u8>, name: Seq<u8>, owner: Seq<u8>) -> Seq<
    u8,
> {
    prefix + ns + seq!['.' as u8] + name + lit_owner_to() + owner + lit_semi_nl()
}

/// Path segments joined by slashes.
pub open spec fn joined_path(p: Seq<Seq<u8>>) -> Seq<u8>
    decreases p.len(),
{
    if p.len() == 0 {
        Seq::empty()
    } else if p.len() == 1 {
        p[0]
    } else {
        p[0] + seq!['/' as u8] + joined_path(p.drop_first())
    }
}

/// The inclusion directive recorded in the index file for a new file.
pub open spec fn directive_line(p: Seq<Seq<u8>>) -> Seq<u8> {
    lit_ir_prefix() + joined_path(p)
}

/// Which session-setup field an entry fills, if any.
#[derive(Debug, Clone, Copy, PartialEq, Eq, Structural)]
pub enum SessionUpdate {
    NoUpdate,
    SetEncoding,
    SetStdStrings,
    SetSearchPath,
}

/// What classification decides for one entry: where its text goes, what text
/// is appended there, which session field it fills, and whether it registers
/// a view. An empty path drops the entry.
pub struct RouteParts {
    pub path: Vec<Vec<u8>>,
    pub contents: Vec<Vec<u8>>,
    pub session: SessionUpdate,
    pub register_view: Option<(Vec<u8>, Vec<u8>)>,
}

/// The mathematical shape of a routing decision.
pub ghost struct RouteSpec {
    pub path: Seq<Seq<u8>>,
    pub contents: Seq<Seq<u8>>,
    pub session: SessionUpdate,
    pub register_view: Option<(Seq<u8>, Seq<u8>)>,
}

/// A routing decision with no file and no effect.
pub open spec fn no_route() -> RouteSpec {
    RouteSpec {
        path: Seq::empty(),
        contents: Seq::empty(),
        session: SessionUpdate::NoUpdate,
        register_view: None,
    }
}

/// A plain routing decision: one path, the given blocks, no side effect.
pub open spec fn plain_route(path: Seq<Seq<u8>>, contents: Seq<Seq<u8>>) -> RouteSpec {
    RouteSpec { path, contents, session: SessionUpdate::NoUpdate, register_view: None }
}

impl CustomDump {
    /// Has a view with this schema and name been classified already?
    pub open spec fn spec_is_view(&self, schema: Seq<u8>, name: Seq<u8>) -> bool {
        exists|i: int|
            0 <= i < self.views@.len() && self.views@[i].0@ == schema && self.views@[i].1@ == name
    }
}

/// The split tree holds the index file at its root and is well formed.
pub open spec fn dump_wf(d: &CustomDump) -> bool {
    &&& dir_wf(d.split_root)
    &&& assoc_idx(d.split_root.files@, lit_index_sql()) < d.split_root.files@.len()
}

/// The path and shape of a combo-tag entry: the tag's kind word selects the
/// directory, and for the table kind the view registry decides between the
/// table and the view directory.
pub open spec fn spec_combo_path(d: CustomDump, item: CustomDumpItemView) -> Result<
    Seq<Seq<u8>>,
    DumpReadError,
> {
    match split_at_byte(item.tag, ' ' as u8) {
        None => Err(DumpReadError::MalformedTag),
        Some((kind, rest)) => {
            if kind == lit_schema() {
                Ok(seq![lit_schemas_dir(), sql_file(rest)])
            } else if kind == lit_extension() {
                Ok(seq![lit_extensions_dir(), sql_file(rest)])
            } else if kind == lit_type_name() {
                Ok(seq![item.namespace, lit_types_dir(), sql_file(rest)])
            } else if kind == lit_function() {
                match split_at_byte(rest, '(' as u8) {
                    None => Err(DumpReadError::MalformedTag),
                    Some((fname, _args)) => Ok(
                        seq![item.namespace, lit_functions_dir(), sql_file(fname)],
                    ),
                }
            } else if kind == lit_table() {
                let sub = if d.spec_is_view(item.namespace, rest) {
                    lit_views_dir()
                } else {
                    lit_tables_dir()
                };
                Ok(seq![item.namespace, sub, sql_file(rest)])
            } else if kind == lit_column() {
                match split_at_byte(rest, '.' as u8) {
                    None => Err(DumpReadError::MalformedTag),
                    Some((table_name, _column)) => Ok(
                        seq![item.namespace, lit_tables_dir(), sql_file(table_name)],
                    ),
                }
            } else if kind == lit_sequence() {
                Ok(seq![item.namespace, lit_sequences_dir(), sql_file(rest)])
            } else if kind == lit_view_desc() {
                Ok(seq![item.namespace, lit_views_dir(), sql_file(rest)])
            } else {
                Err(DumpReadError::UnknownComboKind)
            }
        },
    }
}

/// The routing table: what one entry contributes, or the fault it raises.
pub open spec fn spec_route(d: CustomDump, item: CustomDumpItemView, aux: AuxiliaryData) -> Result<
    RouteSpec,
    DumpReadError,
> {
    let t = item.table_oid;
    let desc = item.desc;
    let ns = item.namespace;
    if t == 1262 && desc == lit_database() {
        Ok(no_route())
    } else if t == 0 && desc == lit_encoding() {
        if d.set_client_encoding is Some {
            Err(DumpReadError::DuplicateEncoding)
        } else {
            Ok(
                RouteSpec {
                    path: seq![lit_index_sql()],
                    contents: seq![item.definition],
                    session: SessionUpdate::SetEncoding,
                    register_view: None,
                },
            )
        }
    } else if t == 0 && desc == lit_stdstrings() {
        if d.set_standard_conforming_strings is Some {
            Err(DumpReadError::DuplicateStdStrings)
        } else {
            Ok(
                RouteSpec {
                    path: seq![lit_index_sql()],
                    contents: seq![item.definition, lit_check_function_bodies()],
                    session: SessionUpdate::SetStdStrings,
                    register_view: None,
                },
            )
        }
    } else if t == 0 && desc == lit_searchpath() {
        if d.set_search_path is Some {
            Err(DumpReadError::DuplicateSearchPath)
        } else {
            Ok(
                RouteSpec {
                    path: seq![lit_index_sql()],
                    contents: seq![item.definition],
                    session: SessionUpdate::SetSearchPath,
                    register_view: None,
                },
            )
        }
    } else if t == 0 && desc == lit_acl() {
        match spec_combo_path(d, item) {
            Err(e) => Err(e),
            Ok(p) => Ok(plain_route(p, acl_sorted_stmts(item.definition))),
        }
    } else if t == 0 && desc == lit_comment() {
        match spec_combo_path(d, item) {
            Err(e) => Err(e),
            Ok(p) => Ok(plain_route(p, seq![item.definition])),
        }
    } else if t == 2615 && desc == lit_schema() {
        if item.tag == lit_public_schema() {
            Ok(no_route())
        } else {
            Ok(
                plain_route(
                    seq![lit_schemas_dir(), sql_file(item.tag)],
                    seq![item.definition],
                ),
            )
        }
    } else if t == 3079 && desc == lit_extension() {
        Ok(plain_route(seq![lit_extensions_dir(), sql_file(item.tag)], seq![item.definition]))
    } else if t == 0 && desc == lit_shell_type() {
        Ok(
            plain_route(
                seq![ns, lit_shell_types_dir(), sql_file(item.tag)],
                seq![item.definition],
            ),
        )
    } else if t == 1247 && desc == lit_type_name() {
        Ok(plain_route(seq![ns, lit_types_dir(), sql_file(item.tag)], seq![item.definition]))
    } else if t == 1247 && desc == lit_domain() {
        Ok(plain_route(seq![ns, lit_domains_dir(), sql_file(item.tag)], seq![item.definition]))
    } else if t == 1255 && desc == lit_function() {
        match split_at_byte(item.tag, '(' as u8) {
            None => Err(DumpReadError::MalformedTag),
            Some((fname, _args)) => {
                let sub = if aux.trigger_functions@.contains(item.oid) {
                    lit_trigger_functions_dir()
                } else {
                    lit_functions_dir()
                };
                Ok(
                    plain_route(
                        seq![ns, sub, sql_file(fname)],
                        seq![
                            item.definition,
                            owner_stmt(lit_alter_function(), ns, item.tag, item.owner),
                        ],
                    ),
                )
            },
        }
    } else if t == 1255 && desc == lit_aggregate() {
        match split_at_byte(item.tag, '(' as u8) {
            None => Err(DumpReadError::MalformedTag),
            Some((fname, _args)) => Ok(
                plain_route(
                    seq![ns, lit_functions_dir(), sql_file(fname)],
                    seq![item.definition],
                ),
            ),
        }
    } else if t == 2617 && desc == lit_operator() {
        Ok(plain_route(seq![ns, lit_operators_sql()], seq![item.definition]))
    } else if t == 1259 && desc == lit_table() {
        Ok(
            plain_route(
                seq![ns, lit_tables_dir(), sql_file(item.tag)],
                seq![item.definition, owner_stmt(lit_alter_table(), ns, item.tag, item.owner)],
            ),
        )
    } else if t == 1259 && desc == lit_index() {
        match oid_lookup(aux.index_table@, item.oid) {
            None => Err(DumpReadError::MissingIndexTable { oid: item.oid }),
            Some(table_name) => Ok(
                plain_route(
                    seq![ns, lit_tables_dir(), sql_file(table_name)],
                    seq![item.definition],
                ),
            ),
        }
    } else if t == 2606 && (desc == lit_constraint() || desc == lit_check_constraint()) || t
        == 2604 && desc == lit_default_marker() || t == 2620 && desc == lit_trigger() {
        match split_at_byte(item.tag, ' ' as u8) {
            None => Err(DumpReadError::MalformedTag),
            Some((table_name, _rest)) => Ok(
                plain_route(
                    seq![ns, lit_tables_dir(), sql_file(table_name)],
                    seq![item.definition],
                ),
            ),
        }
    } else if t == 2606 && desc == lit_fk_constraint() {
        match split_at_byte(item.tag, ' ' as u8) {
            None => Err(DumpReadError::MalformedTag),
            Some((table_name, _rest)) => Ok(
                plain_route(
                    seq![ns, lit_fk_constraints_dir(), sql_file(table_name)],
                    seq![item.definition],
                ),
            ),
        }
    } else if t == 1259 && desc == lit_sequence() {
        Ok(
            plain_route(
                seq![ns, lit_sequences_dir(), sql_file(item.tag)],
                seq![
                    item.definition,
                    owner_stmt(lit_alter_sequence(), ns, item.tag, item.owner),
                ],
            ),
        )
    } else if t == 0 && desc == lit_sequence_owned_by() {
        Ok(
            plain_route(
                seq![ns, lit_sequences_dir(), sql_file(item.tag)],
                seq![item.definition],
            ),
        )
    } else if t == 1259 && desc == lit_view_desc() {
        match oid_lookup(aux.pretty_printed_views@, item.oid) {
            None => Err(DumpReadError::MissingViewDefinition { oid: item.oid }),
            Some(body) => Ok(
                RouteSpec {
                    path: seq![ns, lit_views_dir(), sql_file(item.tag)],
                    contents: seq![
                        lit_create_view_prefix() + item.tag + lit_as_suffix(),
                        body,
                        owner_stmt(lit_alter_view(), ns, item.tag, item.owner),
                    ],
                    session: SessionUpdate::NoUpdate,
                    register_view: Some((ns, item.tag)),
                },
            ),
        }
    } else if t == 2618 && desc == lit_rule() {
        Ok(plain_route(seq![ns, lit_rules_dir(), sql_file(item.tag)], seq![item.definition]))
    } else if t == 6104 && desc == lit_publication() {
        Ok(
            plain_route(
                seq![lit_publications_dir(), item.tag, sql_file(item.tag)],
                seq![item.definition],
            ),
        )
    } else if t == 6106 && desc == lit_publication_table() {
        match split_at_byte(item.tag, ' ' as u8) {
            None => Err(DumpReadError::MalformedTag),
            Some((publication_name, table_name)) => Ok(
                plain_route(
                    seq![lit_publications_dir(), publication_name, sql_file(table_name)],
                    seq![item.definition],
                ),
            ),
        }
    } else {
        Err(DumpReadError::UnknownItemKind { table_oid: t })
    }
}

/// How the split tree after one classified entry relates to the tree before
/// it: the entry's blocks land at its path, a directive is recorded for a
/// newly created file, and every other path reads as before.
pub open spec fn tree_merge_rel(
    t0: SplitDumpDirectory,
    t1: SplitDumpDirectory,
    path: Seq<Seq<u8>>,
    contents: Seq<Seq<u8>>,
) -> bool {
    if path.len() == 0 {
        t1 == t0
    } else {
        let created = dir_lookup(t0, path) is None;
        let adds_directive = created && path.last() != lit_index_sql();
        &&& dir_lookup(t1, path) == Some(
            if created {
                contents
            } else {
                dir_lookup(t0, path)->Some_0 + contents
            },
        )
        &&& if adds_directive {
            &&& dir_lookup(t1, seq![lit_index_sql()]) == Some(
                dir_lookup(t0, seq![lit_index_sql()])->Some_0.push(directive_line(path)),
            )
            &&& forall|q: Seq<Seq<u8>>|
                q != path && q != seq![lit_index_sql()] ==> dir_lookup(t1, q) == dir_lookup(t0, q)
        } else {
            forall|q: Seq<Seq<u8>>| q != path ==> dir_lookup(t1, q) == dir_lookup(t0, q)
        }
    }
}

/// How the dump after one classified entry relates to the dump before it.
pub open spec fn add_item_rel(
    d0: CustomDump,
    item: CustomDumpItemView,
    aux: AuxiliaryData,
    d1: CustomDump,
) -> bool {
    match spec_route(d0, item, aux) {
        Err(_) => false,
        Ok(eff) => {
            &&& opt_view(d1.set_client_encoding) == (if eff.session == SessionUpdate::SetEncoding {
                Some(item.definition)
            } else {
                opt_view(d0.set_client_encoding)
            })
            &&& opt_view(d1.set_standard_conforming_strings) == (if eff.session
                == SessionUpdate::SetStdStrings {
                Some(item.definition)
            } else {
                opt_view(d0.set_standard_conforming_strings)
            })
            &&& opt_view(d1.set_search_path) == (if eff.session == SessionUpdate::SetSearchPath {
                Some(item.definition)
            } else {
                opt_view(d0.set_search_path)
            })
            &&& forall|s: Seq<u8>, n: Seq<u8>|
                #[trigger] d1.spec_is_view(s, n) <==> d0.spec_is_view(s, n) || eff.register_view
                    == Some((s, n))
            &&& d1.file_order@ == d0.file_order@
            &&& tree_merge_rel(d0.split_root, d1.split_root, eff.path, eff.contents)
        },
    }
}

impl CustomDump {
    /// An empty dump: no session statements, no views, and a split tree
    /// holding only the empty index file.
    pub fn new() -> (d: CustomDump)
        ensures
            dump_wf(&d),
            d.set_client_encoding is None,
            d.set_standard_conforming_strings is None,
            d.set_search_path is None,
            d.file_order@.len() == 0,
            forall|s: Seq<u8>, n: Seq<u8>| !(#[trigger] d.spec_is_view(s, n)),
            dir_lookup(d.split_root, seq![lit_index_sql()]) == Some(Seq::<Seq<u8>>::empty()),
            forall|q: Seq<Seq<u8>>|
                q != seq![lit_index_sql()] ==> dir_lookup(d.split_root, q) is None,
    {
        let mut split_root = SplitDumpDirectory::new();
        let index_name = word_index_sql();
        split_root.files.push((index_name, Vec::new()));
        proof {
            let fs = split_root.files@;
            assert(fs[0].0@ == lit_index_sql());
            assert(assoc_idx(fs, lit_index_sql()) == 0);
            assert(seqs_view(fs[0].1@) =~= Seq::<Seq<u8>>::empty());
            assert(dir_lookup(split_root, seq![lit_index_sql()]) == Some(
                Seq::<Seq<u8>>::empty(),
            )) by {
                assert(seq![lit_index_sql()][0] == lit_index_sql());
            }
            assert forall|q: Seq<Seq<u8>>| q != seq![lit_index_sql()] implies dir_lookup(
                split_root,
                q,
            ) is None by {
                if q.len() == 1 {
                    if q[0] == lit_index_sql() {
                        assert(q =~= seq![lit_index_sql()]);
                    } else {
                        lemma_assoc_idx(fs, q[0]);
                        if assoc_idx(fs, q[0]) < fs.len() {
                            assert(fs[assoc_idx(fs, q[0])].0@ == q[0]);
                        }
                    }
                }
            }
            assert(dir_wf(split_root));
        }
        CustomDump {
            set_client_encoding: None,
            set_standard_conforming_strings: None,
            set_search_path: None,
            split_root,
            file_order: Vec::new(),
            views: Vec::new(),
        }
    }

    /// Is the named relation a view classified earlier in this stream?
    pub fn is_view(&self, schema: &[u8], pg_class_entry: &[u8]) -> (r: bool)
        ensures
            r == self.spec_is_view(schema@, pg_class_entry@),
    {
        let n = self.views.len();
        let mut i: usize = 0;
        while i < n
            invariant
                n == self.views@.len(),
                0 <= i <= n,
                forall|j: int|
                    0 <= j < i ==> !(#[trigger] self.views@[j].0@ == schema@ && self.views@[j].1@
                        == pg_class_entry@),
            decreases n - i,
        {
            if bytes_eq(self.views[i].0.as_slice(), schema) && bytes_eq(
                self.views[i].1.as_slice(),
                pg_class_entry,
            ) {
                return true;
            }
            i = i + 1;
        }
        false
    }

    /// Sort an ACL definition into the deterministic statement order.
    pub fn sort_acl(&self, acl: &[u8]) -> (r: Vec<Vec<u8>>)
        ensures
            seqs_view(r@) == acl_sorted_stmts(acl@),
    {
        sorted_acl_statements(acl)
    }

    /// The output path of a combo-tag entry, e.g. a tag of the shape
    /// "SCHEMA public".
    pub fn get_filepath_from_combo_tag(&self, item: &CustomDumpItem, typ: &str) -> (r: Result<
        Vec<Vec<u8>>,
        DumpReadError,
    >)
        ensures
            match spec_combo_path(*self, item@) {
                Ok(p) => r matches Ok(v) && seqs_view(v@) == p,
                Err(e) => r == Err::<Vec<Vec<u8>>, DumpReadError>(e),
            },
    {
        let _ = typ;
        let parts = match split_once_byte(item.tag.as_slice(), ' ' as u8) {
            None => {
                return Err(DumpReadError::MalformedTag);
            },
            Some(p) => p,
        };
        let (kind, rest) = parts;
        if bytes_eq(kind.as_slice(), word_schema().as_slice()) {
            let mut path: Vec<Vec<u8>> = Vec::new();
            path.push(word_schemas_dir());
            path.push(make_sql_file(rest.as_slice()));
            proof {
                assert(seqs_view(path@) =~= seq![lit_schemas_dir(), sql_file(rest@)]);
            }
            Ok(path)
        } else if bytes_eq(kind.as_slice(), word_extension().as_slice()) {
            let mut path: Vec<Vec<u8>> = Vec::new();
            path.push(word_extensions_dir());
            path.push(make_sql_file(rest.as_slice()));
            proof {
                assert(seqs_view(path@) =~= seq![lit_extensions_dir(), sql_file(rest@)]);
            }
            Ok(path)
        } else if bytes_eq(kind.as_slice(), word_type_name().as_slice()) {
            let mut path: Vec<Vec<u8>> = Vec::new();
            path.push(item.namespace.clone());
            path.push(word_types_dir());
            path.push(make_sql_file(rest.as_slice()));
            proof {
                assert(seqs_view(path@) =~= seq![item.namespace@, lit_types_dir(), sql_file(
                    rest@,
                )]);
            }
            Ok(path)
        } else if bytes_eq(kind.as_slice(), word_function().as_slice()) {
            let fname = match split_once_byte(rest.as_slice(), '(' as u8) {
                None => {
                    return Err(DumpReadError::MalformedTag);
                },
                Some(p) => p.0,
            };
            let mut path: Vec<Vec<u8>> = Vec::new();
            path.push(item.namespace.clone());
            path.push(word_functions_dir());
            path.push(make_sql_file(fname.as_slice()));
            proof {
                assert(seqs_view(path@) =~= seq![item.namespace@, lit_functions_dir(), sql_file(
                    fname@,
                )]);
            }
            Ok(path)
        } else if bytes_eq(kind.as_slice(), word_table().as_slice()) {
            let subdir = if self.is_view(item.namespace.as_slice(), rest.as_slice()) {
                word_views_dir()
            } else {
                word_tables_dir()
            };
            let mut path: Vec<Vec<u8>> = Vec::new();
            path.push(item.namespace.clone());
            path.push(subdir);
            path.push(make_sql_file(rest.as_slice()));
            proof {
                assert(seqs_view(path@) =~= spec_combo_path(*self, item@)->Ok_0);
            }
            Ok(path)
        } else if bytes_eq(kind.as_slice(), word_column().as_slice()) {
            let table_name = match split_once_byte(rest.as_slice(), '.' as u8) {
                None => {
                    return Err(DumpReadError::MalformedTag);
                },
                Some(p) => p.0,
            };
            let mut path: Vec<Vec<u8>> = Vec::new();
            path.push(item.namespace.clone());
            path.push(word_tables_dir());
            path.push(make_sql_file(table_name.as_slice()));
            proof {
                assert(seqs_view(path@) =~= seq![item.namespace@, lit_tables_dir(), sql_file(
                    table_name@,
                )]);
            }
            Ok(path)
        } else if bytes_eq(kind.as_slice(), word_sequence().as_slice()) {
            let mut path: Vec<Vec<u8>> = Vec::new();
            path.push(item.namespace.clone());
            path.push(word_sequences_dir());
            path.push(make_sql_file(rest.as_slice()));
            proof {
                assert(seqs_view(path@) =~= seq![item.namespace@, lit_sequences_dir(), sql_file(
                    rest@,
                )]);
            }
            Ok(path)
        } else if bytes_eq(kind.as_slice(), word_view_desc().as_slice()) {
            let mut path: Vec<Vec<u8>> = Vec::new();
            path.push(item.namespace.clone());
            path.push(word_views_dir());
            path.push(make_sql_file(rest.as_slice()));
            proof {
                assert(seqs_view(path@) =~= seq![item.namespace@, lit_views_dir(), sql_file(
                    rest@,
                )]);
            }
            Ok(path)
        } else {
            Err(DumpReadError::UnknownComboKind)
        }
    }
}

/// Joining one more segment appends a slash and the segment.
pub proof fn lemma_joined_path_push(p: Seq<Seq<u8>>, x: Seq<u8>)
    requires
        p.len() >= 1,
    ensures
        joined_path(p.push(x)) == p[0] + seq!['/' as u8] + joined_path(p.drop_first().push(x))
            || p.len() == 1,
        joined_path(p.push(x)) == joined_path(p) + seq!['/' as u8] + x,
    decreases p.len(),
{
    let q = p.push(x);
    if p.len() == 1 {
        assert(q.len() == 2);
        assert(q.drop_first() =~= seq![x]);
        assert(joined_path(q.drop_first()) == x);
        assert(q[0] == p[0]);
        assert(joined_path(q) == p[0] + seq!['/' as u8] + x);
    } else {
        assert(q.drop_first() =~= p.drop_first().push(x));
        lemma_joined_path_push(p.drop_first(), x);
        assert(q[0] == p[0]);
        assert(joined_path(q) == p[0] + seq!['/' as u8] + joined_path(p.drop_first().push(x)));
        assert(joined_path(q) == p[0] + seq!['/' as u8] + (joined_path(p.drop_first()) + seq![
            '/' as u8,
        ] + x));
        assert(p[0] + seq!['/' as u8] + (joined_path(p.drop_first()) + seq!['/' as u8] + x) =~= (
        p[0] + seq!['/' as u8] + joined_path(p.drop_first())) + seq!['/' as u8] + x);
    }
}

/// The inclusion directive for a newly created file, naming it by its full
/// slash-joined path.
pub fn make_directive_line(path: &Vec<Vec<u8>>) -> (r: Vec<u8>)
    requires
        path@.len() >= 1,
    ensures
        r@ == directive_line(seqs_view(path@)),
{
    let mut v = word_ir_prefix();
    append_bytes(&mut v, path[0].as_slice());
    proof {
        assert(seqs_view(path@).take(1) =~= seq![seqs_view(path@)[0]]);
        assert(joined_path(seqs_view(path@).take(1)) == path@[0]@);
    }
    let n = path.len();
    let mut i: usize = 1;
    while i < n
        invariant
            1 <= i <= n,
            n == path@.len(),
            v@ == lit_ir_prefix() + joined_path(seqs_view(path@).take(i as int)),
        decreases n - i,
    {
        v.push('/' as u8);
        append_bytes(&mut v, path[i].as_slice());
        proof {
            let pv = seqs_view(path@);
            assert(pv.take(i + 1) =~= pv.take(i as int).push(pv[i as int]));
            lemma_joined_path_push(pv.take(i as int), pv[i as int]);
            assert(v@ =~= lit_ir_prefix() + joined_path(pv.take(i + 1)));
        }
        i = i + 1;
    }
    proof {
        assert(seqs_view(path@).take(n as int) =~= seqs_view(path@));
    }
    v
}

/// A name with the SQL file suffix appended.
pub fn make_sql_file(name: &[u8]) -> (r: Vec<u8>)
    ensures
        r@ == sql_file(name@),
{
    let mut v = slice_to_vec(name);
    let suffix = word_sql_suffix();
    append_bytes(&mut v, suffix.as_slice());
    v
}

/// An ownership-assignment statement for a schema-qualified object.
pub fn make_owner_stmt(prefix: Vec<u8>, ns: &[u8], name: &[u8], owner: &[u8]) -> (r: Vec<u8>)
    ensures
        r@ == owner_stmt(prefix@, ns@, name@, owner@),
{
    let ghost p0 = prefix@;
    let mut v = prefix;
    append_bytes(&mut v, ns);
    v.push('.' as u8);
    append_bytes(&mut v, name);
    let ow = word_owner_to();
    append_bytes(&mut v, ow.as_slice());
    append_bytes(&mut v, owner);
    let semi = word_semi_nl();
    append_bytes(&mut v, semi.as_slice());
    proof {
        assert(v@ =~= owner_stmt(p0, ns@, name@, owner@));
    }
    v
}

impl CustomDump {
    /// The routing table in executable form: compute where one entry's
    /// text goes and what is appended there, or the fault it raises.
    #[verifier::rlimit(100)]
    fn route_item(&self, item: &CustomDumpItem, aux_data: &AuxiliaryData) -> (r: Result<
        RouteParts,
        DumpReadError,
    >)
        ensures
            match spec_route(*self, item@, *aux_data) {
                Ok(eff) => r matches Ok(p) && seqs_view(p.path@) == eff.path && seqs_view(
                    p.contents@,
                ) == eff.contents && p.session == eff.session && opt_pair_view(p.register_view)
                    == eff.register_view,
                Err(e) => r == Err::<RouteParts, DumpReadError>(e),
            },
    {
        let t = item.table_oid;
        if t == 1262 && bytes_eq(item.desc.as_slice(), word_database().as_slice()) {
            let parts = RouteParts {
                path: Vec::new(),
                contents: Vec::new(),
                session: SessionUpdate::NoUpdate,
                register_view: None,
            };
            proof {
                assert(seqs_view(parts.path@) =~= no_route().path);
                assert(seqs_view(parts.contents@) =~= no_route().contents);
            }
            return Ok(parts);
        }
        if t == 0 && bytes_eq(item.desc.as_slice(), word_encoding().as_slice()) {
            if self.set_client_encoding.is_some() {
                return Err(DumpReadError::DuplicateEncoding);
            }
            let mut path: Vec<Vec<u8>> = Vec::new();
            path.push(word_index_sql());
            let mut contents: Vec<Vec<u8>> = Vec::new();
            contents.push(item.definition.clone());
            proof {
                assert(seqs_view(path@) =~= seq![lit_index_sql()]);
                assert(seqs_view(contents@) =~= seq![item.definition@]);
            }
            return Ok(RouteParts {
                path,
                contents,
                session: SessionUpdate::SetEncoding,
                register_view: None,
            });
        }
        if t == 0 && bytes_eq(item.desc.as_slice(), word_stdstrings().as_slice()) {
            if self.set_standard_conforming_strings.is_some() {
                return Err(DumpReadError::DuplicateStdStrings);
            }
            let mut path: Vec<Vec<u8>> = Vec::new();
            path.push(word_index_sql());
            let mut contents: Vec<Vec<u8>> = Vec::new();
            contents.push(item.definition.clone());
            contents.push(word_check_function_bodies());
            proof {
                assert(seqs_view(path@) =~= seq![lit_index_sql()]);
                assert(seqs_view(contents@) =~= seq![item.definition@, lit_check_function_bodies()]);
            }
            return Ok(RouteParts {
                path,
                contents,
                session: SessionUpdate::SetStdStrings,
                register_view: None,
            });
        }
        if t == 0 && bytes_eq(item.desc.as_slice(), word_searchpath().as_slice()) {
            if self.set_search_path.is_some() {
                return Err(DumpReadError::DuplicateSearchPath);
            }
            let mut path: Vec<Vec<u8>> = Vec::new();
            path.push(word_index_sql());
            let mut contents: Vec<Vec<u8>> = Vec::new();
            contents.push(item.definition.clone());
            proof {
                assert(seqs_view(path@) =~= seq![lit_index_sql()]);
                assert(seqs_view(contents@) =~= seq![item.definition@]);
            }
            return Ok(RouteParts {
                path,
                contents,
                session: SessionUpdate::SetSearchPath,
                register_view: None,
            });
        }
        if t == 0 && bytes_eq(item.desc.as_slice(), word_acl().as_slice()) {
            let path = match self.get_filepath_from_combo_tag(item, "ACL") {
                Err(e) => {
                    return Err(e);
                },
                Ok(p) => p,
            };
            let contents = self.sort_acl(item.definition.as_slice());
            return Ok(RouteParts {
                path,
                contents,
                session: SessionUpdate::NoUpdate,
                register_view: None,
            });
        }
        if t == 0 && bytes_eq(item.desc.as_slice(), word_comment().as_slice()) {
            let path = match self.get_filepath_from_combo_tag(item, "COMMENT") {
                Err(e) => {
                    return Err(e);
                },
                Ok(p) => p,
            };
            let mut contents: Vec<Vec<u8>> = Vec::new();
            contents.push(item.definition.clone());
            proof {
                assert(seqs_view(contents@) =~= seq![item.definition@]);
            }
            return Ok(RouteParts {
                path,
                contents,
                session: SessionUpdate::NoUpdate,
                register_view: None,
            });
        }
        if t == 2615 && bytes_eq(item.desc.as_slice(), word_schema().as_slice()) {
            if bytes_eq(item.tag.as_slice(), word_public_schema().as_slice()) {
                let parts = RouteParts {
                    path: Vec::new(),
                    contents: Vec::new(),
                    session: SessionUpdate::NoUpdate,
                    register_view: None,
                };
                proof {
                    assert(seqs_view(parts.path@) =~= no_route().path);
                    assert(seqs_view(parts.contents@) =~= no_route().contents);
                }
                return Ok(parts);
            }
            let mut path: Vec<Vec<u8>> = Vec::new();
            path.push(word_schemas_dir());
            path.push(make_sql_file(item.tag.as_slice()));
            let mut contents: Vec<Vec<u8>> = Vec::new();
            contents.push(item.definition.clone());
            proof {
                assert(seqs_view(path@) =~= seq![lit_schemas_dir(), sql_file(item.tag@)]);
                assert(seqs_view(contents@) =~= seq![item.definition@]);
            }
            return Ok(RouteParts {
                path,
                contents,
                session: SessionUpdate::NoUpdate,
                register_view: None,
            });
        }
        if t == 1255 && bytes_eq(item.desc.as_slice(), word_function().as_slice()) {
            let fname = match split_once_byte(item.tag.as_slice(), '(' as u8) {
                None => {
                    return Err(DumpReadError::MalformedTag);
                },
                Some(p) => p.0,
            };
            let subdir = if aux_data.is_trigger_function(item.oid) {
                word_trigger_functions_dir()
            } else {
                word_functions_dir()
            };
            let mut path: Vec<Vec<u8>> = Vec::new();
            path.push(item.namespace.clone());
            path.push(subdir);
            path.push(make_sql_file(fname.as_slice()));
            let mut contents: Vec<Vec<u8>> = Vec::new();
            contents.push(item.definition.clone());
            contents.push(make_owner_stmt(
                word_alter_function(),
                item.namespace.as_slice(),
                item.tag.as_slice(),
                item.owner.as_slice(),
            ));
            proof {
                assert(seqs_view(path@) =~= spec_route(*self, item@, *aux_data)->Ok_0.path);
                assert(seqs_view(contents@) =~= spec_route(*self, item@, *aux_data)->Ok_0.contents);
            }
            return Ok(RouteParts {
                path,
                contents,
                session: SessionUpdate::NoUpdate,
                register_view: None,
            });
        }
        if t == 1255 && bytes_eq(item.desc.as_slice(), word_aggregate().as_slice()) {
            let fname = match split_once_byte(item.tag.as_slice(), '(' as u8) {
                None => {
                    return Err(DumpReadError::MalformedTag);
                },
                Some(p) => p.0,
            };
            let mut path: Vec<Vec<u8>> = Vec::new();
            path.push(item.namespace.clone());
            path.push(word_functions_dir());
            path.push(make_sql_file(fname.as_slice()));
            let mut contents: Vec<Vec<u8>> = Vec::new();
            contents.push(item.definition.clone());
            proof {
                assert(seqs_view(path@) =~= seq![item.namespace@, lit_functions_dir(), sql_file(fname@)]);
                assert(seqs_view(contents@) =~= seq![item.definition@]);
            }
            return Ok(RouteParts {
                path,
                contents,
                session: SessionUpdate::NoUpdate,
                register_view: None,
            });
        }
        if t == 1259 && bytes_eq(item.desc.as_slice(), word_index().as_slice()) {
            let table_name = match aux_data.lookup_index_table(item.oid) {
                None => {
                    return Err(DumpReadError::MissingIndexTable { oid: item.oid });
                },
                Some(v) => v,
            };
            let mut path: Vec<Vec<u8>> = Vec::new();
            path.push(item.namespace.clone());
            path.push(word_tables_dir());
            path.push(make_sql_file(table_name.as_slice()));
            let mut contents: Vec<Vec<u8>> = Vec::new();
            contents.push(item.definition.clone());
            proof {
                assert(seqs_view(path@) =~= spec_route(*self, item@, *aux_data)->Ok_0.path);
                assert(seqs_view(contents@) =~= seq![item.definition@]);
            }
            return Ok(RouteParts {
                path,
                contents,
                session: SessionUpdate::NoUpdate,
                register_view: None,
            });
        }
        if t == 2606 && (bytes_eq(item.desc.as_slice(), word_constraint().as_slice())
            || bytes_eq(item.desc.as_slice(), word_check_constraint().as_slice())) || t == 2604
            && bytes_eq(item.desc.as_slice(), word_default_marker().as_slice()) || t == 2620
            && bytes_eq(item.desc.as_slice(), word_trigger().as_slice()) {
            let table_name = match split_once_byte(item.tag.as_slice(), ' ' as u8) {
                None => {
                    return Err(DumpReadError::MalformedTag);
                },
                Some(p) => p.0,
            };
            let mut path: Vec<Vec<u8>> = Vec::new();
            path.push(item.namespace.clone());
            path.push(word_tables_dir());
            path.push(make_sql_file(table_name.as_slice()));
            let mut contents: Vec<Vec<u8>> = Vec::new();
            contents.push(item.definition.clone());
            proof {
                assert(seqs_view(path@) =~= seq![item.namespace@, lit_tables_dir(), sql_file(table_name@)]);
                assert(seqs_view(contents@) =~= seq![item.definition@]);
            }
            return Ok(RouteParts {
                path,
                contents,
                session: SessionUpdate::NoUpdate,
                register_view: None,
            });
        }
        if t == 2606 && bytes_eq(item.desc.as_slice(), word_fk_constraint().as_slice()) {
            let table_name = match split_once_byte(item.tag.as_slice(), ' ' as u8) {
                None => {
                    return Err(DumpReadError::MalformedTag);
                },
                Some(p) => p.0,
            };
            let mut path: Vec<Vec<u8>> = Vec::new();
            path.push(item.namespace.clone());
            path.push(word_fk_constraints_dir());
            path.push(make_sql_file(table_name.as_slice()));
            let mut contents: Vec<Vec<u8>> = Vec::new();
            contents.push(item.definition.clone());
            proof {
                assert(seqs_view(path@) =~= seq![item.namespace@, lit_fk_constraints_dir(), sql_file(table_name@)]);
                assert(seqs_view(contents@) =~= seq![item.definition@]);
            }
            return Ok(RouteParts {
                path,
                contents,
                session: SessionUpdate::NoUpdate,
                register_view: None,
            });
        }
        if t == 1259 && bytes_eq(item.desc.as_slice(), word_view_desc().as_slice()) {
            let body = match aux_data.lookup_view_definition(item.oid) {
                None => {
                    return Err(DumpReadError::MissingViewDefinition { oid: item.oid });
                },
                Some(v) => v,
            };
            let mut header = word_create_view_prefix();
            append_bytes(&mut header, item.tag.as_slice());
            let as_word = word_as_suffix();
            append_bytes(&mut header, as_word.as_slice());
            let mut path: Vec<Vec<u8>> = Vec::new();
            path.push(item.namespace.clone());
            path.push(word_views_dir());
            path.push(make_sql_file(item.tag.as_slice()));
            let mut contents: Vec<Vec<u8>> = Vec::new();
            contents.push(header);
            contents.push(body);
            contents.push(make_owner_stmt(
                word_alter_view(),
                item.namespace.as_slice(),
                item.tag.as_slice(),
                item.owner.as_slice(),
            ));
            let register_view = Some((item.namespace.clone(), item.tag.clone()));
            proof {
                assert(seqs_view(path@) =~= seq![item.namespace@, lit_views_dir(), sql_file(item.tag@)]);
                assert(seqs_view(contents@) =~= spec_route(*self, item@, *aux_data)->Ok_0.contents);
                assert(opt_pair_view(register_view) == Some((item.namespace@, item.tag@)));
            }
            return Ok(RouteParts {
                path,
                contents,
                session: SessionUpdate::NoUpdate,
                register_view,
            });
        }
        if t == 6106 && bytes_eq(item.desc.as_slice(), word_publication_table().as_slice()) {
            let parts = match split_once_byte(item.tag.as_slice(), ' ' as u8) {
                None => {
                    return Err(DumpReadError::MalformedTag);
                },
                Some(p) => p,
            };
            let (publication_name, table_name) = parts;
            let mut path: Vec<Vec<u8>> = Vec::new();
            path.push(word_publications_dir());
            path.push(publication_name);
            path.push(make_sql_file(table_name.as_slice()));
            let mut contents: Vec<Vec<u8>> = Vec::new();
            contents.push(item.definition.clone());
            proof {
                assert(seqs_view(path@) =~= spec_route(*self, item@, *aux_data)->Ok_0.path);
                assert(seqs_view(contents@) =~= seq![item.definition@]);
            }
            return Ok(RouteParts {
                path,
                contents,
                session: SessionUpdate::NoUpdate,
                register_view: None,
            });
        }
        if t == 3079 && bytes_eq(item.desc.as_slice(), word_extension().as_slice()) {
            let mut path: Vec<Vec<u8>> = Vec::new();
            path.push(word_extensions_dir());
            path.push(make_sql_file(item.tag.as_slice()));
            let mut contents: Vec<Vec<u8>> = Vec::new();
            contents.push(item.definition.clone());
            proof {
                assert(seqs_view(path@) =~= seq![lit_extensions_dir(), sql_file(item.tag@)]);
                assert(seqs_view(contents@) =~= seq![item.definition@]);
            }
            return Ok(RouteParts {
                path,
                contents,
                session: SessionUpdate::NoUpdate,
                register_view: None,
            });
        }
        if t == 0 && bytes_eq(item.desc.as_slice(), word_shell_type().as_slice()) {
            let mut path: Vec<Vec<u8>> = Vec::new();
            path.push(item.namespace.clone());
            path.push(word_shell_types_dir());
            path.push(make_sql_file(item.tag.as_slice()));
            let mut contents: Vec<Vec<u8>> = Vec::new();
            contents.push(item.definition.clone());
            proof {
                assert(seqs_view(path@) =~= seq![item.namespace@, lit_shell_types_dir(), sql_file(item.tag@)]);
                assert(seqs_view(contents@) =~= seq![item.definition@]);
            }
            return Ok(RouteParts {
                path,
                contents,
                session: SessionUpdate::NoUpdate,
                register_view: None,
            });
        }
        if t == 1247 && bytes_eq(item.desc.as_slice(), word_type_name().as_slice()) {
            let mut path: Vec<Vec<u8>> = Vec::new();
            path.push(item.namespace.clone());
            path.push(word_types_dir());
            path.push(make_sql_file(item.tag.as_slice()));
            let mut contents: Vec<Vec<u8>> = Vec::new();
            contents.push(item.definition.clone());
            proof {
                assert(seqs_view(path@) =~= seq![item.namespace@, lit_types_dir(), sql_file(item.tag@)]);
                assert(seqs_view(contents@) =~= seq![item.definition@]);
            }
            return Ok(RouteParts {
                path,
                contents,
                session: SessionUpdate::NoUpdate,
                register_view: None,
            });
        }
        if t == 1247 && bytes_eq(item.desc.as_slice(), word_domain().as_slice()) {
            let mut path: Vec<Vec<u8>> = Vec::new();
            path.push(item.namespace.clone());
            path.push(word_domains_dir());
            path.push(make_sql_file(item.tag.as_slice()));
            let mut contents: Vec<Vec<u8>> = Vec::new();
            contents.push(item.definition.clone());
            proof {
                assert(seqs_view(path@) =~= seq![item.namespace@, lit_domains_dir(), sql_file(item.tag@)]);
                assert(seqs_view(contents@) =~= seq![item.definition@]);
            }
            return Ok(RouteParts {
                path,
                contents,
                session: SessionUpdate::NoUpdate,
                register_view: None,
            });
        }
        if t == 2617 && bytes_eq(item.desc.as_slice(), word_operator().as_slice()) {
            let mut path: Vec<Vec<u8>> = Vec::new();
            path.push(item.namespace.clone());
            path.push(word_operators_sql());
            let mut contents: Vec<Vec<u8>> = Vec::new();
            contents.push(item.definition.clone());
            proof {
                assert(seqs_view(path@) =~= seq![item.namespace@, lit_operators_sql()]);
                assert(seqs_view(contents@) =~= seq![item.definition@]);
            }
            return Ok(RouteParts {
                path,
                contents,
                session: SessionUpdate::NoUpdate,
                register_view: None,
            });
        }
        if t == 1259 && bytes_eq(item.desc.as_slice(), word_table().as_slice()) {
            let mut path: Vec<Vec<u8>> = Vec::new();
            path.push(item.namespace.clone());
            path.push(word_tables_dir());
            path.push(make_sql_file(item.tag.as_slice()));
            let mut contents: Vec<Vec<u8>> = Vec::new();
            contents.push(item.definition.clone());
            contents.push(make_owner_stmt(
                word_alter_table(),
                item.namespace.as_slice(),
                item.tag.as_slice(),
                item.owner.as_slice(),
            ));
            proof {
                assert(seqs_view(path@) =~= seq![item.namespace@, lit_tables_dir(), sql_file(item.tag@)]);
                assert(seqs_view(contents@) =~= spec_route(*self, item@, *aux_data)->Ok_0.contents);
            }
            return Ok(RouteParts {
                path,
                contents,
                session: SessionUpdate::NoUpdate,
                register_view: None,
            });
        }
        if t == 1259 && bytes_eq(item.desc.as_slice(), word_sequence().as_slice()) {
            let mut path: Vec<Vec<u8>> = Vec::new();
            path.push(item.namespace.clone());
            path.push(word_sequences_dir());
            path.push(make_sql_file(item.tag.as_slice()));
            let mut contents: Vec<Vec<u8>> = Vec::new();
            contents.push(item.definition.clone());
            contents.push(make_owner_stmt(
                word_alter_sequence(),
                item.namespace.as_slice(),
                item.tag.as_slice(),
                item.owner.as_slice(),
            ));
            proof {
                assert(seqs_view(path@) =~= seq![item.namespace@, lit_sequences_dir(), sql_file(item.tag@)]);
                assert(seqs_view(contents@) =~= spec_route(*self, item@, *aux_data)->Ok_0.contents);
            }
            return Ok(RouteParts {
                path,
                contents,
                session: SessionUpdate::NoUpdate,
                register_view: None,
            });
        }
        if t == 0 && bytes_eq(item.desc.as_slice(), word_sequence_owned_by().as_slice()) {
            let mut path: Vec<Vec<u8>> = Vec::new();
            path.push(item.namespace.clone());
            path.push(word_sequences_dir());
            path.push(make_sql_file(item.tag.as_slice()));
            let mut contents: Vec<Vec<u8>> = Vec::new();
            contents.push(item.definition.clone());
            proof {
                assert(seqs_view(path@) =~= seq![item.namespace@, lit_sequences_dir(), sql_file(item.tag@)]);
                assert(seqs_view(contents@) =~= seq![item.definition@]);
            }
            return Ok(RouteParts {
                path,
                contents,
                session: SessionUpdate::NoUpdate,
                register_view: None,
            });
        }
        if t == 2618 && bytes_eq(item.desc.as_slice(), word_rule().as_slice()) {
            let mut path: Vec<Vec<u8>> = Vec::new();
            path.push(item.namespace.clone());
            path.push(word_rules_dir());
            path.push(make_sql_file(item.tag.as_slice()));
            let mut contents: Vec<Vec<u8>> = Vec::new();
            contents.push(item.definition.clone());
            proof {
                assert(seqs_view(path@) =~= seq![item.namespace@, lit_rules_dir(), sql_file(item.tag@)]);
                assert(seqs_view(contents@) =~= seq![item.definition@]);
            }
            return Ok(RouteParts {
                path,
                contents,
                session: SessionUpdate::NoUpdate,
                register_view: None,
            });
        }
        if t == 6104 && bytes_eq(item.desc.as_slice(), word_publication().as_slice()) {
            let mut path: Vec<Vec<u8>> = Vec::new();
            path.push(word_publications_dir());
            path.push(item.tag.clone());
            path.push(make_sql_file(item.tag.as_slice()));
            let mut contents: Vec<Vec<u8>> = Vec::new();
            contents.push(item.definition.clone());
            proof {
                assert(seqs_view(path@) =~= seq![lit_publications_dir(), item.tag@, sql_file(item.tag@)]);
                assert(seqs_view(contents@) =~= seq![item.definition@]);
            }
            return Ok(RouteParts {
                path,
                contents,
                session: SessionUpdate::NoUpdate,
                register_view: None,
            });
        }
        Err(DumpReadError::UnknownItemKind { table_oid: t })
    }

    /// Classify one entry and merge its contribution into the dump: fill a
    /// session field, register a view, and append the entry's blocks at its
    /// output path, recording an inclusion directive when the file is new.
    #[verifier::rlimit(100)]
    pub fn add_item(&mut self, item: CustomDumpItem, aux_data: &AuxiliaryData) -> (r: Result<
        (),
        DumpReadError,
    >)
        requires
            dump_wf(old(self)),
        ensures
            match r {
                Ok(_) => dump_wf(final(self)) && add_item_rel(
                    *old(self),
                    item@,
                    *aux_data,
                    *final(self),
                ),
                Err(e) => *final(self) == *old(self) && spec_route(*old(self), item@, *aux_data)
                    == Err::<RouteSpec, DumpReadError>(e),
            },
    {
        let parts = match self.route_item(&item, aux_data) {
            Err(e) => {
                return Err(e);
            },
            Ok(p) => p,
        };
        let ghost eff = spec_route(*old(self), item@, *aux_data)->Ok_0;
        match parts.session {
            SessionUpdate::NoUpdate => {},
            SessionUpdate::SetEncoding => {
                self.set_client_encoding = Some(item.definition.clone());
            },
            SessionUpdate::SetStdStrings => {
                self.set_standard_conforming_strings = Some(item.definition.clone());
            },
            SessionUpdate::SetSearchPath => {
                self.set_search_path = Some(item.definition.clone());
            },
        }
        let ghost vs0 = old(self).views@;
        if let Some(sn) = parts.register_view {
            self.views.push(sn);
        }
        let ghost vs1 = self.views@;
        proof {
            match eff.register_view {
                None => {
                    assert(vs1 == vs0);
                },
                Some(p0) => {
                    assert(vs1 =~= vs0.push(vs1.last()));
                    assert(vs1.last().0@ == p0.0 && vs1.last().1@ == p0.1);
                },
            }
        }
        let ghost t0 = old(self).split_root;
        let ghost pv = seqs_view(parts.path@);
        let ghost cv = seqs_view(parts.contents@);
        if parts.path.len() >= 1 {
            let dline = make_directive_line(&parts.path);
            let last_idx = parts.path.len() - 1;
            let index_word = word_index_sql();
            let filename_is_index = bytes_eq(parts.path[last_idx].as_slice(),
                index_word.as_slice());
            proof {
                assert(pv.last() == parts.path@[last_idx as int]@);
                assert(self.split_root == t0);
                assert(seq![lit_index_sql()][0] == lit_index_sql());
                assert(dir_lookup(t0, seq![lit_index_sql()]) is Some);
            }
            let created = merge_file(&mut self.split_root, &parts.path, parts.contents);
            let ghost t1 = self.split_root;
            if created && !filename_is_index {
                proof {
                    assert(pv != seq![lit_index_sql()]) by {
                        if pv == seq![lit_index_sql()] {
                            assert(pv.last() == lit_index_sql());
                        }
                    }
                    assert(dir_lookup(t1, seq![lit_index_sql()]) == dir_lookup(
                        t0,
                        seq![lit_index_sql()],
                    ));
                    assert(assoc_idx(t1.files@, lit_index_sql()) < t1.files@.len()) by {
                        assert(dir_lookup(t1, seq![lit_index_sql()]) is Some);
                    }
                }
                append_to_root_file(&mut self.split_root, index_word.as_slice(), dline);
                proof {
                    let t2 = self.split_root;
                    assert(dir_lookup(t2, seq![lit_index_sql()]) == Some(
                        dir_lookup(t0, seq![lit_index_sql()])->Some_0.push(directive_line(pv)),
                    )) by {
                        assert(dir_lookup(t1, seq![lit_index_sql()])->Some_0 + seq![dline@] =~=
                            dir_lookup(t0, seq![lit_index_sql()])->Some_0.push(
                            directive_line(pv),
                        ));
                    }
                    assert(dir_lookup(t2, pv) == dir_lookup(t1, pv));
                    assert forall|q: Seq<Seq<u8>>|
                        q != pv && q != seq![lit_index_sql()] implies dir_lookup(t2, q)
                        == dir_lookup(t0, q) by {
                        assert(dir_lookup(t2, q) == dir_lookup(t1, q));
                    }
                    assert(tree_merge_rel(t0, t2, pv, cv));
                    assert(assoc_idx(t2.files@, lit_index_sql()) < t2.files@.len()) by {
                        assert(dir_lookup(t2, seq![lit_index_sql()]) is Some);
                    }
                }
            } else {
                proof {
                    assert(tree_merge_rel(t0, t1, pv, cv)) by {
                        if created {
                            assert(pv.last() == lit_index_sql());
                        }
                    }
                    assert(assoc_idx(t1.files@, lit_index_sql()) < t1.files@.len()) by {
                        if pv == seq![lit_index_sql()] {
                            assert(dir_lookup(t1, pv) is Some);
                        } else {
                            assert(dir_lookup(t1, seq![lit_index_sql()]) == dir_lookup(
                                t0,
                                seq![lit_index_sql()],
                            ));
                        }
                        assert(dir_lookup(t1, seq![lit_index_sql()]) is Some);
                    }
                }
            }
        } else {
            proof {
                assert(self.split_root == t0);
                assert(tree_merge_rel(t0, self.split_root, pv, cv)) by {
                    assert(pv.len() == 0);
                }
            }
        }
        proof {
            assert(dump_wf(self));
            assert(pv == eff.path);
            assert(cv == eff.contents);
            assert(tree_merge_rel(t0, self.split_root, eff.path, eff.contents));
            assert(opt_view(self.set_client_encoding) == (if eff.session
                == SessionUpdate::SetEncoding {
                Some(item@.definition)
            } else {
                opt_view(old(self).set_client_encoding)
            }));
            assert(opt_view(self.set_standard_conforming_strings) == (if eff.session
                == SessionUpdate::SetStdStrings {
                Some(item@.definition)
            } else {
                opt_view(old(self).set_standard_conforming_strings)
            }));
            assert(opt_view(self.set_search_path) == (if eff.session
                == SessionUpdate::SetSearchPath {
                Some(item@.definition)
            } else {
                opt_view(old(self).set_search_path)
            }));
            assert(self.file_order@ == old(self).file_order@);
            assert(self.views@ == vs1);
            assert forall|s: Seq<u8>, n: Seq<u8>| #[trigger] self.spec_is_view(s, n) <==> (old(
                self,
            ).spec_is_view(s, n) || eff.register_view == Some((s, n))) by {
                match eff.register_view {
                    None => {},
                    Some(p0) => {
                        if self.spec_is_view(s, n) {
                            let i = choose|i: int|
                                0 <= i < vs1.len() && vs1[i].0@ == s && vs1[i].1@ == n;
                            if i < vs0.len() {
                                assert(vs0[i] == vs1[i]);
                                assert(old(self).spec_is_view(s, n));
                            } else {
                                assert(vs1[i] == vs1.last());
                            }
                        }
                        if old(self).spec_is_view(s, n) {
                            let i = choose|i: int|
                                0 <= i < vs0.len() && vs0[i].0@ == s && vs0[i].1@ == n;
                            assert(vs1[i] == vs0[i]);
                            assert(self.spec_is_view(s, n));
                        }
                        if eff.register_view == Some((s, n)) {
                            assert(vs1[vs0.len() as int] == vs1.last());
                            assert(self.spec_is_view(s, n));
                        }
                    },
                }
            }
            assert(add_item_rel(*old(self), item@, *aux_data, *self));
        }
        Ok(())
    }
}

/// Whether `r` is what classifying the next `k` entries decoded from `inp`
/// at `pos`, starting from the dump state `d`, yields: the accumulated dump
/// on success, and the first decode or classification fault otherwise.
pub open spec fn classify_run(
    inp: Seq<u8>,
    h: crate::custom_dump_reader::CustomDumpStaticHeader,
    aux: AuxiliaryData,
    pos: int,
    k: int,
    d: CustomDump,
    r: Result<CustomDump, DumpReadError>,
) -> bool
    decreases k,
    when k >= 0
{
    if k <= 0 {
        r == Ok::<CustomDump, DumpReadError>(d)
    } else {
        match sp_read_item(inp, pos, h) {
            Err(e) => r == Err::<CustomDump, DumpReadError>(e),
            Ok(ip) => match spec_route(d, ip.0, aux) {
                Err(e) => r == Err::<CustomDump, DumpReadError>(e),
                Ok(_eff) => exists|d2: CustomDump|
                    #[trigger] add_item_rel(d, ip.0, aux, d2) && classify_run(
                        inp,
                        h,
                        aux,
                        ip.1,
                        k - 1,
                        d2,
                        r,
                    ),
            },
        }
    }
}

/// The state of a freshly created dump.
pub open spec fn is_new_dump(d: CustomDump) -> bool {
    &&& dump_wf(&d)
    &&& d.set_client_encoding is None
    &&& d.set_standard_conforming_strings is None
    &&& d.set_search_path is None
    &&& d.file_order@.len() == 0
    &&& forall|s: Seq<u8>, n: Seq<u8>| !(#[trigger] d.spec_is_view(s, n))
    &&& dir_lookup(d.split_root, seq![lit_index_sql()]) == Some(Seq::<Seq<u8>>::empty())
    &&& forall|q: Seq<Seq<u8>>| q != seq![lit_index_sql()] ==> dir_lookup(d.split_root, q) is None
}

/// Decode a whole archive and classify every declared entry, in order,
/// starting from an empty dump.
#[verifier::loop_isolation(false)]
pub fn read_dump(input: Vec<u8>, aux_data: &AuxiliaryData) -> (r: Result<
    CustomDump,
    DumpReadError,
>)
    ensures
        match sp_open_dump(input@) {
            Err(e) => r == Err::<CustomDump, DumpReadError>(e),
            Ok(t) => exists|d0: CustomDump|
                #[trigger] is_new_dump(d0) && classify_run(
                    input@,
                    t.0,
                    *aux_data,
                    t.2,
                    t.1.num_items as int,
                    d0,
                    r,
                ),
        },
{
    let ghost inp = input@;
    let reader = match CustomDumpReader::new(input) {
        Err(e) => {
            return Err(e);
        },
        Ok(rd) => rd,
    };
    let ghost sh = reader.static_header;
    let ghost pos_h = reader.pos as int;
    let ghost total = reader.header->Some_0.num_items as int;
    let mut dump = CustomDump::new();
    let ghost d0 = dump;
    proof {
        assert(is_new_dump(d0));
    }
    let mut iter = reader.contents();
    loop
        invariant
            iter.items_left >= 0,
            iter.dump_reader.input@ == inp,
            iter.dump_reader.static_header == sh,
            dump_wf(&dump),
            forall|res: Result<CustomDump, DumpReadError>|
                #[trigger] classify_run(
                    inp,
                    sh,
                    *aux_data,
                    iter.dump_reader.pos as int,
                    iter.items_left as int,
                    dump,
                    res,
                ) ==> classify_run(inp, sh, *aux_data, pos_h, total, d0, res),
        decreases iter.items_left,
    {
        let ghost pos_before = iter.dump_reader.pos as int;
        let ghost k_before = iter.items_left as int;
        let ghost dump_before = dump;
        match iter.next() {
            None => {
                proof {
                    assert(classify_run(
                        inp,
                        sh,
                        *aux_data,
                        pos_before,
                        0,
                        dump,
                        Ok::<CustomDump, DumpReadError>(dump),
                    ));
                    assert(classify_run(
                        inp,
                        sh,
                        *aux_data,
                        pos_h,
                        total,
                        d0,
                        Ok::<CustomDump, DumpReadError>(dump),
                    ));
                }
                return Ok(dump);
            },
            Some(res) => {
                let item = match res {
                    Err(e) => {
                        proof {
                            assert(classify_run(
                                inp,
                                sh,
                                *aux_data,
                                pos_before,
                                k_before,
                                dump,
                                Err::<CustomDump, DumpReadError>(e),
                            ));
                        }
                        return Err(e);
                    },
                    Ok(item) => item,
                };
                let ghost ip = sp_read_item(inp, pos_before, sh)->Ok_0;
                match dump.add_item(item, aux_data) {
                    Err(e) => {
                        proof {
                            assert(classify_run(
                                inp,
                                sh,
                                *aux_data,
                                pos_before,
                                k_before,
                                dump,
                                Err::<CustomDump, DumpReadError>(e),
                            ));
                        }
                        return Err(e);
                    },
                    Ok(_) => {},
                }
                proof {
                    assert(add_item_rel(dump_before, ip.0, *aux_data, dump));
                    assert forall|res2: Result<CustomDump, DumpReadError>|
                        #[trigger] classify_run(
                            inp,
                            sh,
                            *aux_data,
                            iter.dump_reader.pos as int,
                            iter.items_left as int,
                            dump,
                            res2,
                        ) implies classify_run(inp, sh, *aux_data, pos_h, total, d0, res2) by {
                        assert(classify_run(
                            inp,
                            sh,
                            *aux_data,
                            pos_before,
                            k_before,
                            dump_before,
                            res2,
                        ));
                    }
                }
            },
        }
    }
}


/// The view/table resolution of a permissions or comment entry for a
/// relation depends on whether the relation's own view entry was classified
/// earlier in the stream: only then does it resolve to the view directory.
pub proof fn lemma_acl_view_resolution(d: CustomDump, item: CustomDumpItemView, rest: Seq<u8>)
    requires
        split_at_byte(item.tag, ' ' as u8) == Some((lit_table(), rest)),
    ensures
        spec_combo_path(d, item) == Ok::<Seq<Seq<u8>>, DumpReadError>(
            seq![
                item.namespace,
                if d.spec_is_view(item.namespace, rest) {
                    lit_views_dir()
                } else {
                    lit_tables_dir()
                },
                sql_file(rest),
            ],
        ),
{
}

/// Classifying a table's own entry and a permissions entry for it in either
/// order fills the same table file with the same set of blocks; only the
/// order of the blocks inside the file can differ between the two orders.
#[verifier::rlimit(100)]
pub proof fn lemma_table_acl_order_independent(
    d0: CustomDump,
    t_item: CustomDumpItemView,
    a_item: CustomDumpItemView,
    aux: AuxiliaryData,
    d1: CustomDump,
    d2: CustomDump,
    e1: CustomDump,
    e2: CustomDump,
)
    requires
        t_item.table_oid == 1259,
        t_item.desc == lit_table(),
        a_item.table_oid == 0,
        a_item.desc == lit_acl(),
        split_at_byte(a_item.tag, ' ' as u8) == Some((lit_table(), t_item.tag)),
        a_item.namespace == t_item.namespace,
        !d0.spec_is_view(t_item.namespace, t_item.tag),
        add_item_rel(d0, t_item, aux, d1),
        add_item_rel(d1, a_item, aux, d2),
        add_item_rel(d0, a_item, aux, e1),
        add_item_rel(e1, t_item, aux, e2),
    ensures
        ({
            let path = seq![t_item.namespace, lit_tables_dir(), sql_file(t_item.tag)];
            &&& dir_lookup(d2.split_root, path) is Some
            &&& dir_lookup(e2.split_root, path) is Some
            &&& dir_lookup(d2.split_root, path)->Some_0.to_multiset() == dir_lookup(
                e2.split_root,
                path,
            )->Some_0.to_multiset()
        }),
{
    broadcast use vstd::seq_lib::lemma_multiset_commutative;
    broadcast use vstd::multiset::group_multiset_axioms;

    let path = seq![t_item.namespace, lit_tables_dir(), sql_file(t_item.tag)];
    let t_eff = spec_route(d0, t_item, aux)->Ok_0;
    let t_c = t_eff.contents;
    let a_eff = spec_route(d0, a_item, aux)->Ok_0;
    let a_c = a_eff.contents;
    assert(t_eff.path == path);
    // neither entry registers a view, so the resolution is the same in
    // either order
    assert(forall|s: Seq<u8>, n: Seq<u8>|
        #[trigger] d1.spec_is_view(s, n) <==> d0.spec_is_view(s, n));
    assert(forall|s: Seq<u8>, n: Seq<u8>|
        #[trigger] e1.spec_is_view(s, n) <==> d0.spec_is_view(s, n));
    lemma_acl_view_resolution(d0, a_item, t_item.tag);
    lemma_acl_view_resolution(d1, a_item, t_item.tag);
    assert(spec_combo_path(d0, a_item) == Ok::<Seq<Seq<u8>>, DumpReadError>(path));
    assert(spec_combo_path(d1, a_item) == Ok::<Seq<Seq<u8>>, DumpReadError>(path));
    assert(spec_route(d1, a_item, aux)->Ok_0.path == path);
    assert(spec_route(d1, a_item, aux)->Ok_0.contents == a_c);
    assert(spec_route(e1, t_item, aux)->Ok_0.path == path);
    assert(spec_route(e1, t_item, aux)->Ok_0.contents == t_c);
    assert(path.len() == 3 && path.last() == sql_file(t_item.tag));
    let l0 = dir_lookup(d0.split_root, path);
    // the table-first order
    let v1 = dir_lookup(d1.split_root, path)->Some_0;
    assert(v1 == if l0 is Some {
        l0->Some_0 + t_c
    } else {
        t_c
    });
    let v2 = dir_lookup(d2.split_root, path)->Some_0;
    assert(v2 == v1 + a_c);
    // the permissions-first order
    let w1 = dir_lookup(e1.split_root, path)->Some_0;
    assert(w1 == if l0 is Some {
        l0->Some_0 + a_c
    } else {
        a_c
    });
    let w2 = dir_lookup(e2.split_root, path)->Some_0;
    assert(w2 == w1 + t_c);
    if l0 is Some {
        let base = l0->Some_0;
        assert(v2.to_multiset() =~= base.to_multiset().add(t_c.to_multiset()).add(
            a_c.to_multiset(),
        )) by {
            assert((base + t_c + a_c).to_multiset() =~= (base + t_c).to_multiset().add(
                a_c.to_multiset(),
            ));
            assert((base + t_c).to_multiset() =~= base.to_multiset().add(t_c.to_multiset()));
        }
        assert(w2.to_multiset() =~= base.to_multiset().add(a_c.to_multiset()).add(
            t_c.to_multiset(),
        )) by {
            assert((base + a_c + t_c).to_multiset() =~= (base + a_c).to_multiset().add(
                t_c.to_multiset(),
            ));
            assert((base + a_c).to_multiset() =~= base.to_multiset().add(a_c.to_multiset()));
        }
        assert(v2.to_multiset() =~= w2.to_multiset());
    } else {
        assert(v2.to_multiset() =~= t_c.to_multiset().add(a_c.to_multiset()));
        assert(w2.to_multiset() =~= a_c.to_multiset().add(t_c.to_multiset()));
        assert(v2.to_multiset() =~= w2.to_multiset());
    }
}


/// Session-setup entries: the first entry of each kind succeeds, fills its
/// field and sends its line to the index file; a second entry of the same
/// kind in one stream faults.
pub proof fn lemma_session_entries(d: CustomDump, item: CustomDumpItemView, aux: AuxiliaryData)
    requires
        item.table_oid == 0,
    ensures
        item.desc == lit_encoding() && d.set_client_encoding is Some ==> spec_route(d, item, aux)
            == Err::<RouteSpec, DumpReadError>(DumpReadError::DuplicateEncoding),
        item.desc == lit_stdstrings() && d.set_standard_conforming_strings is Some ==> spec_route(
            d,
            item,
            aux,
        ) == Err::<RouteSpec, DumpReadError>(DumpReadError::DuplicateStdStrings),
        item.desc == lit_searchpath() && d.set_search_path is Some ==> spec_route(d, item, aux)
            == Err::<RouteSpec, DumpReadError>(DumpReadError::DuplicateSearchPath),
        item.desc == lit_encoding() && d.set_client_encoding is None ==> spec_route(d, item, aux)
            == Ok::<RouteSpec, DumpReadError>(
            RouteSpec {
                path: seq![lit_index_sql()],
                contents: seq![item.definition],
                session: SessionUpdate::SetEncoding,
                register_view: None,
            },
        ),
        item.desc == lit_stdstrings() && d.set_standard_conforming_strings is None ==> spec_route(
            d,
            item,
            aux,
        ) == Ok::<RouteSpec, DumpReadError>(
            RouteSpec {
                path: seq![lit_index_sql()],
                contents: seq![item.definition, lit_check_function_bodies()],
                session: SessionUpdate::SetStdStrings,
                register_view: None,
            },
        ),
        item.desc == lit_searchpath() && d.set_search_path is None ==> spec_route(d, item, aux)
            == Ok::<RouteSpec, DumpReadError>(
            RouteSpec {
                path: seq![lit_index_sql()],
                contents: seq![item.definition],
                session: SessionUpdate::SetSearchPath,
                register_view: None,
            },
        ),
{
}

/// A function entry routes to the trigger-function directory exactly when
/// its object id is in the trigger-function set, under the bare name taken
/// from its tag, and appends the ownership statement after the definition.
pub proof fn lemma_function_routing(
    d: CustomDump,
    item: CustomDumpItemView,
    aux: AuxiliaryData,
    fname: Seq<u8>,
    args: Seq<u8>,
)
    requires
        item.table_oid == 1255,
        item.desc == lit_function(),
        split_at_byte(item.tag, '(' as u8) == Some((fname, args)),
    ensures
        spec_route(d, item, aux) == Ok::<RouteSpec, DumpReadError>(
            plain_route(
                seq![
                    item.namespace,
                    if aux.trigger_functions@.contains(item.oid) {
                        lit_trigger_functions_dir()
                    } else {
                        lit_functions_dir()
                    },
                    sql_file(fname),
                ],
                seq![
                    item.definition,
                    owner_stmt(lit_alter_function(), item.namespace, item.tag, item.owner),
                ],
            ),
        ),
{
}

} // verus!
