//! Decoder and classifier for PostgreSQL "custom" format schema-only dumps.
//!
//! The library decodes the binary archive produced by the dump tool, classifies
//! every entry by its catalog id and description, and accumulates the results
//! in an in-memory tree of SQL files, one file (or a few) per database object.
//! Reading the archive bytes, querying the auxiliary catalog data and writing
//! the finished tree to disk or into a tar archive are left to the caller.

pub mod words;
pub mod bytes_util;
pub mod split_directory;
pub mod custom_dump_reader;
pub mod auxiliary_data;
pub mod acl_sort;
pub mod custom_dump;
pub mod output;
