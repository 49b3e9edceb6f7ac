//! Decoder for the dump tool's custom binary archive format: the fixed
//! prologue, the variable header, and the per-entry records, each decoded at
//! a byte position with version-conditional field layouts. Every decode step
//! is specified by a spec-level reading function over the raw byte sequence.

use vstd::prelude::*;
use vstd::slice::slice_subrange;
use vstd::utf8::valid_utf8;
use crate::bytes_util::{
    all_dec_digits, dec_value, le_bytes_to_i64, le_bytes_to_u64, le_signed, le_value,
    parse_u32_dec, subvec, utf8_is_valid,
};

verus! {

/// A fault while reading or classifying the archive. Every fault is fatal to
/// the whole run: the archive either classifies completely or not at all.
#[derive(Debug, PartialEq, Eq)]
pub enum DumpReadError {
    /// The input ended inside a field.
    UnexpectedEnd,
    /// The archive's format version lies outside the supported range.
    UnsupportedVersion { major: u8, minor: u8 },
    /// The declared integer or offset width is not a usable byte count.
    InvalidIntegerWidth { width: usize },
    /// The declared total entry count is negative.
    NegativeItemCount,
    /// A signed integer began with a byte that is neither 0 nor 1.
    InvalidSignByte { value: u8 },
    /// A length-prefixed string held bytes that are not valid UTF-8.
    InvalidUtf8,
    /// An object id field did not hold a decimal number fitting 32 bits.
    InvalidOidString,
    /// A second session encoding entry appeared in one stream.
    DuplicateEncoding,
    /// A second standard-conforming-strings entry appeared in one stream.
    DuplicateStdStrings,
    /// A second search-path entry appeared in one stream.
    DuplicateSearchPath,
    /// The pair of catalog id and description matches no routing rule.
    UnknownItemKind { table_oid: u32 },
    /// A tag that must split on a separator had no separator.
    MalformedTag,
    /// A combo tag began with an unrecognized kind word.
    UnknownComboKind,
    /// An index entry's object id has no owning table in the auxiliary data.
    MissingIndexTable { oid: u32 },
    /// A view entry's object id has no body in the auxiliary data.
    MissingViewDefinition { oid: u32 },
}

/// The fixed prologue: magic marker, version bytes, and the byte widths used
/// by every later numeric field.
#[derive(Debug, Clone, Copy, PartialEq, Eq, Structural)]
pub struct CustomDumpStaticHeader {
    pub major_version: u8,
    pub minor_version: u8,
    pub revision: u8,
    pub int_size: usize,
    pub off_size: usize,
    pub format: u8,
}

/// The variable header that follows the prologue; only the declared entry
/// count is kept.
#[derive(Debug, Clone, Copy, PartialEq, Eq, Structural)]
pub struct CustomDumpHeader {
    pub num_items: i64,
}

/// One decoded archive entry.
#[derive(Debug)]
pub struct CustomDumpItem {
    pub table_oid: u32,
    pub oid: u32,
    pub tag: Vec<u8>,
    pub desc: Vec<u8>,
    pub definition: Vec<u8>,
    pub namespace: Vec<u8>,
    pub owner: Vec<u8>,
}

/// The mathematical shape of a decoded entry.
pub ghost struct CustomDumpItemView {
    pub table_oid: u32,
    pub oid: u32,
    pub tag: Seq<u8>,
    pub desc: Seq<u8>,
    pub definition: Seq<u8>,
    pub namespace: Seq<u8>,
    pub owner: Seq<u8>,
}

impl View for CustomDumpItem {
    type V = CustomDumpItemView;

    open spec fn view(&self) -> CustomDumpItemView {
        CustomDumpItemView {
            table_oid: self.table_oid,
            oid: self.oid,
            tag: self.tag@,
            desc: self.desc@,
            definition: self.definition@,
            namespace: self.namespace@,
            owner: self.owner@,
        }
    }
}

/// Is version `v` at least version `w`?
pub open spec fn version_ge(v: (u8, u8), w: (u8, u8)) -> bool {
    v.0 > w.0 || (v.0 == w.0 && v.1 >= w.1)
}

/// Read one byte.
pub open spec fn sp_read_u8(inp: Seq<u8>, pos: int) -> Result<(u8, int), DumpReadError> {
    if 0 <= pos && pos + 1 <= inp.len() {
        Ok((inp[pos], pos + 1))
    } else {
        Err(DumpReadError::UnexpectedEnd)
    }
}

/// Read a signed integer: a sign byte, then a little-endian magnitude of
/// `n` bytes whose most significant bit sign-extends; a sign byte of 1
/// negates the magnitude, wrapping on the most negative value.
pub open spec fn sp_read_int(inp: Seq<u8>, pos: int, n: int) -> Result<
    (i64, int),
    DumpReadError,
> {
    if pos < 0 || pos + 1 + n > inp.len() {
        Err(DumpReadError::UnexpectedEnd)
    } else {
        let sign = inp[pos];
        if sign != 0 && sign != 1 {
            Err(DumpReadError::InvalidSignByte { value: sign })
        } else {
            let mag = le_signed(inp.subrange(pos + 1, pos + 1 + n));
            let value: int = if sign == 1 {
                if mag == i64::MIN {
                    mag
                } else {
                    -mag
                }
            } else {
                mag
            };
            Ok((value as i64, pos + 1 + n))
        }
    }
}

/// Read an unsigned offset: a reserved flag byte, then a little-endian
/// magnitude of `n` bytes.
pub open spec fn sp_read_offset(inp: Seq<u8>, pos: int, n: int) -> Result<
    (u64, int),
    DumpReadError,
> {
    if pos < 0 || pos + 1 + n > inp.len() {
        Err(DumpReadError::UnexpectedEnd)
    } else {
        Ok((le_value(inp.subrange(pos + 1, pos + 1 + n)) as u64, pos + 1 + n))
    }
}

/// Read a length-prefixed string: a signed length, then that many bytes of
/// UTF-8 text. A length of zero or less yields the empty string and reads
/// no further byte.
pub open spec fn sp_read_str(inp: Seq<u8>, pos: int, n: int) -> Result<
    (Seq<u8>, int),
    DumpReadError,
> {
    match sp_read_int(inp, pos, n) {
        Err(e) => Err(e),
        Ok(lp) => {
            let len = lp.0;
            let p = lp.1;
            if len <= 0 {
                Ok((Seq::<u8>::empty(), p))
            } else if p + len > inp.len() {
                Err(DumpReadError::UnexpectedEnd)
            } else {
                let bytes = inp.subrange(p, p + len);
                if valid_utf8(bytes) {
                    Ok((bytes, p + len))
                } else {
                    Err(DumpReadError::InvalidUtf8)
                }
            }
        },
    }
}

/// Read a length-prefixed string and parse it as a decimal object id.
pub open spec fn sp_read_oid(inp: Seq<u8>, pos: int, n: int) -> Result<
    (u32, int),
    DumpReadError,
> {
    match sp_read_str(inp, pos, n) {
        Err(e) => Err(e),
        Ok(sp) => {
            let s = sp.0;
            if s.len() > 0 && all_dec_digits(s) && dec_value(s) <= u32::MAX {
                Ok((dec_value(s) as u32, sp.1))
            } else {
                Err(DumpReadError::InvalidOidString)
            }
        },
    }
}

/// A successful string read always advances the position, within bounds.
pub proof fn lemma_sp_read_str_bounds(inp: Seq<u8>, pos: int, n: int)
    requires
        n >= 1,
        sp_read_str(inp, pos, n) is Ok,
    ensures
        pos < sp_read_str(inp, pos, n)->Ok_0.1 <= inp.len(),
{
}

/// Skip `k` consecutive signed integers.
pub open spec fn sp_skip_ints(inp: Seq<u8>, pos: int, n: int, k: nat) -> Result<
    int,
    DumpReadError,
>
    decreases k,
{
    if k == 0 {
        Ok(pos)
    } else {
        match sp_read_int(inp, pos, n) {
            Err(e) => Err(e),
            Ok(vp) => sp_skip_ints(inp, vp.1, n, (k - 1) as nat),
        }
    }
}

/// Skip dependency strings up to and including the first empty one.
pub open spec fn sp_skip_deps(inp: Seq<u8>, pos: int, n: int) -> Result<int, DumpReadError>
    decreases inp.len() - pos,
    when 0 <= pos && 1 <= n
    via sp_skip_deps_dec
{
    match sp_read_str(inp, pos, n) {
        Err(e) => Err(e),
        Ok(sp) => {
            if sp.0.len() == 0 {
                Ok(sp.1)
            } else {
                sp_skip_deps(inp, sp.1, n)
            }
        },
    }
}

#[via_fn]
proof fn sp_skip_deps_dec(inp: Seq<u8>, pos: int, n: int) {
    if sp_read_str(inp, pos, n) is Ok {
        lemma_sp_read_str_bounds(inp, pos, n);
    }
}

/// Skip one string when `b` holds; used for version-gated fields.
pub open spec fn sp_skip_str_if(b: bool, inp: Seq<u8>, pos: int, n: int) -> Result<
    int,
    DumpReadError,
> {
    if b {
        match sp_read_str(inp, pos, n) {
            Err(e) => Err(e),
            Ok(sp) => Ok(sp.1),
        }
    } else {
        Ok(pos)
    }
}

/// Decode the fixed prologue at the start of the input.
pub open spec fn sp_read_static_header(inp: Seq<u8>) -> Result<
    (CustomDumpStaticHeader, int),
    DumpReadError,
> {
    if inp.len() < 11 {
        Err(DumpReadError::UnexpectedEnd)
    } else {
        Ok(
            (
                CustomDumpStaticHeader {
                    major_version: inp[5],
                    minor_version: inp[6],
                    revision: inp[7],
                    int_size: inp[8] as usize,
                    off_size: inp[9] as usize,
                    format: inp[10],
                },
                11,
            ),
        )
    }
}

/// Decode the variable header: the compression indicator (a single byte from
/// version 1.15 on, a full signed integer before), the six timestamp
/// integers and the DST flag, three strings, and the total entry count,
/// which must not be negative.
pub open spec fn sp_read_header(inp: Seq<u8>, pos: int, h: CustomDumpStaticHeader) -> Result<
    (CustomDumpHeader, int),
    DumpReadError,
> {
    let n = h.int_size as int;
    let comp = if version_ge((h.major_version, h.minor_version), (1u8, 15u8)) {
        match sp_read_u8(inp, pos) {
            Err(e) => Err(e),
            Ok(bp) => Ok(bp.1),
        }
    } else {
        match sp_read_int(inp, pos, n) {
            Err(e) => Err(e),
            Ok(vp) => Ok(vp.1),
        }
    };
    match comp {
        Err(e) => Err(e),
        Ok(p1) => match sp_skip_ints(inp, p1, n, 7) {
            Err(e) => Err(e),
            Ok(p2) => match sp_read_str(inp, p2, n) {
                Err(e) => Err(e),
                Ok(s1) => match sp_read_str(inp, s1.1, n) {
                    Err(e) => Err(e),
                    Ok(s2) => match sp_read_str(inp, s2.1, n) {
                        Err(e) => Err(e),
                        Ok(s3) => match sp_read_int(inp, s3.1, n) {
                            Err(e) => Err(e),
                            Ok(vp) => {
                                if vp.0 < 0 {
                                    Err(DumpReadError::NegativeItemCount)
                                } else {
                                    Ok((CustomDumpHeader { num_items: vp.0 }, vp.1))
                                }
                            },
                        },
                    },
                },
            },
        },
    }
}

/// Decode one archive entry at `pos`, consuming every field in stream order,
/// the version-gated and unused ones included.
pub open spec fn sp_read_item(inp: Seq<u8>, pos: int, h: CustomDumpStaticHeader) -> Result<
    (CustomDumpItemView, int),
    DumpReadError,
> {
    let n = h.int_size as int;
    match sp_read_int(inp, pos, n) {
        Err(e) => Err(e),
        Ok(dump_id) => match sp_read_int(inp, dump_id.1, n) {
            Err(e) => Err(e),
            Ok(data_dumper) => match sp_read_oid(inp, data_dumper.1, n) {
                Err(e) => Err(e),
                Ok(table_oid) => match sp_read_oid(inp, table_oid.1, n) {
                    Err(e) => Err(e),
                    Ok(oid) => match sp_read_str(inp, oid.1, n) {
                        Err(e) => Err(e),
                        Ok(tag) => match sp_read_str(inp, tag.1, n) {
                            Err(e) => Err(e),
                            Ok(desc) => match sp_read_int(inp, desc.1, n) {
                                Err(e) => Err(e),
                                Ok(section) => match sp_read_str(inp, section.1, n) {
                                    Err(e) => Err(e),
                                    Ok(definition) => match sp_read_str(inp, definition.1, n) {
                                        Err(e) => Err(e),
                                        Ok(drop_stmt) => match sp_read_str(inp, drop_stmt.1, n) {
                                            Err(e) => Err(e),
                                            Ok(copy_stmt) => match sp_read_str(
                                                inp,
                                                copy_stmt.1,
                                                n,
                                            ) {
                                                Err(e) => Err(e),
                                                Ok(namespace) => match sp_read_str(
                                                    inp,
                                                    namespace.1,
                                                    n,
                                                ) {
                                                    Err(e) => Err(e),
                                                    Ok(tablespace) => match sp_skip_str_if(
                                                        version_ge(
                                                            (h.major_version, h.minor_version),
                                                            (1u8, 14u8),
                                                        ),
                                                        inp,
                                                        tablespace.1,
                                                        n,
                                                    ) {
                                                        Err(e) => Err(e),
                                                        Ok(p13) => match sp_read_str(inp, p13, n) {
                                                            Err(e) => Err(e),
                                                            Ok(owner) => match sp_read_str(
                                                                inp,
                                                                owner.1,
                                                                n,
                                                            ) {
                                                                Err(e) => Err(e),
                                                                Ok(with_oids) => match sp_skip_deps(
                                                                    inp,
                                                                    with_oids.1,
                                                                    n,
                                                                ) {
                                                                    Err(e) => Err(e),
                                                                    Ok(p16) => match sp_read_offset(
                                                                        inp,
                                                                        p16,
                                                                        h.off_size as int,
                                                                    ) {
                                                                        Err(e) => Err(e),
                                                                        Ok(off) => Ok(
                                                                            (
                                                                                CustomDumpItemView {
                                                                                    table_oid:
                                                                                        table_oid.0,
                                                                                    oid: oid.0,
                                                                                    tag: tag.0,
                                                                                    desc: desc.0,
                                                                                    definition:
                                                                                        definition.0,
                                                                                    namespace:
                                                                                        namespace.0,
                                                                                    owner: owner.0,
                                                                                },
                                                                                off.1,
                                                                            ),
                                                                        ),
                                                                    },
                                                                },
                                                            },
                                                        },
                                                    },
                                                },
                                            },
                                        },
                                    },
                                },
                            },
                        },
                    },
                },
            },
        },
    }
}

/// Open an archive: decode the prologue, check the version range and the
/// numeric widths, then decode the variable header.
pub open spec fn sp_open_dump(inp: Seq<u8>) -> Result<
    (CustomDumpStaticHeader, CustomDumpHeader, int),
    DumpReadError,
> {
    match sp_read_static_header(inp) {
        Err(e) => Err(e),
        Ok(hp) => {
            let sh = hp.0;
            let v = (sh.major_version, sh.minor_version);
            if !(version_ge(v, (1u8, 12u8)) && version_ge((1u8, 15u8), v)) {
                Err(
                    DumpReadError::UnsupportedVersion {
                        major: sh.major_version,
                        minor: sh.minor_version,
                    },
                )
            } else if sh.int_size < 1 || sh.int_size > 8 {
                Err(DumpReadError::InvalidIntegerWidth { width: sh.int_size })
            } else if sh.off_size < 1 || sh.off_size > 8 {
                Err(DumpReadError::InvalidIntegerWidth { width: sh.off_size })
            } else {
                match sp_read_header(inp, hp.1, sh) {
                    Err(e) => Err(e),
                    Ok(hh) => Ok((sh, hh.0, hh.1)),
                }
            }
        },
    }
}

impl CustomDumpStaticHeader {
    /// Decode the fixed prologue from the start of `input`.
    pub fn read(input: &[u8]) -> (r: Result<(CustomDumpStaticHeader, usize), DumpReadError>)
        ensures
            match sp_read_static_header(input@) {
                Ok(hp) => r matches Ok(x) && x.0 == hp.0 && x.1 as int == hp.1,
                Err(e) => r == Err::<(CustomDumpStaticHeader, usize), DumpReadError>(e),
            },
    {
        if input.len() < 11 {
            return Err(DumpReadError::UnexpectedEnd);
        }
        let header = CustomDumpStaticHeader {
            major_version: input[5],
            minor_version: input[6],
            revision: input[7],
            int_size: input[8] as usize,
            off_size: input[9] as usize,
            format: input[10],
        };
        Ok((header, 11))
    }

    pub fn dump_version(&self) -> (r: (u8, u8))
        ensures
            r == (self.major_version, self.minor_version),
    {
        (self.major_version, self.minor_version)
    }

    pub fn version_at_least(&self, major: u8, minor: u8) -> (r: bool)
        ensures
            r == version_ge((self.major_version, self.minor_version), (major, minor)),
    {
        self.major_version > major || (self.major_version == major && self.minor_version >= minor)
    }

    pub fn version_at_most(&self, major: u8, minor: u8) -> (r: bool)
        ensures
            r == version_ge((major, minor), (self.major_version, self.minor_version)),
    {
        self.major_version < major || (self.major_version == major && self.minor_version <= minor)
    }
}

/// The decoder: the raw input, the current byte position, the decoded
/// prologue, and the decoded variable header once read.
#[derive(Debug)]
pub struct CustomDumpReader {
    pub input: Vec<u8>,
    pub pos: usize,
    pub static_header: CustomDumpStaticHeader,
    pub header: Option<CustomDumpHeader>,
}

/// The widths that every decoding method relies on; established by `new` and
/// preserved by every method.
pub open spec fn reader_widths_ok(h: CustomDumpStaticHeader) -> bool {
    &&& 1 <= h.int_size <= 8
    &&& 1 <= h.off_size <= 8
}

impl CustomDumpReader {
    /// Open an archive over its full contents. The version must lie in the
    /// supported range and the declared widths must be usable.
    pub fn new(input: Vec<u8>) -> (r: Result<CustomDumpReader, DumpReadError>)
        ensures
            match sp_open_dump(input@) {
                Ok(t) => r matches Ok(rd) && rd.input@ == input@ && rd.static_header == t.0
                    && rd.header == Some(t.1) && rd.pos as int == t.2 && reader_widths_ok(
                    rd.static_header,
                ),
                Err(e) => r == Err::<CustomDumpReader, DumpReadError>(e),
            },
    {
        let (static_header, p) = match CustomDumpStaticHeader::read(input.as_slice()) {
            Err(e) => { return Err(e) },
            Ok(x) => x,
        };
        if !(static_header.version_at_least(1, 12) && static_header.version_at_most(1, 15)) {
            return Err(
                DumpReadError::UnsupportedVersion {
                    major: static_header.major_version,
                    minor: static_header.minor_version,
                },
            );
        }
        if static_header.int_size < 1 || static_header.int_size > 8 {
            return Err(DumpReadError::InvalidIntegerWidth { width: static_header.int_size });
        }
        if static_header.off_size < 1 || static_header.off_size > 8 {
            return Err(DumpReadError::InvalidIntegerWidth { width: static_header.off_size });
        }
        let mut reader = CustomDumpReader { input, pos: p, static_header, header: None };
        let header = match reader.read_header() {
            Err(e) => { return Err(e) },
            Ok(h) => h,
        };
        reader.header = Some(header);
        Ok(reader)
    }

    /// Decode the variable header at the current position; meaningful only
    /// before the header has been stored.
    #[verifier::loop_isolation(false)]
    #[verifier::rlimit(60)]
    pub fn read_header(&mut self) -> (r: Result<CustomDumpHeader, DumpReadError>)
        requires
            old(self).header is None,
            reader_widths_ok(old(self).static_header),
        ensures
            final(self).input == old(self).input,
            final(self).static_header == old(self).static_header,
            final(self).header == old(self).header,
            match sp_read_header(old(self).input@, old(self).pos as int, old(self).static_header) {
                Ok(hp) => r == Ok::<CustomDumpHeader, DumpReadError>(hp.0) && final(self).pos as int == hp.1,
                Err(e) => r == Err::<CustomDumpHeader, DumpReadError>(e) && final(self).pos == old(self).pos,
            },
    {
        let ghost inp = self.input@;
        let ghost n = self.static_header.int_size as int;
        let start = self.pos;
        if self.static_header.version_at_least(1, 15) {
            match self.read_u8() {
                Err(e) => {
                    self.pos = start;
                    return Err(e);
                },
                Ok(_compression_algorithm) => {},
            }
        } else {
            match self.read_int() {
                Err(e) => {
                    self.pos = start;
                    return Err(e);
                },
                Ok(_compression) => {},
            }
        }
        let ghost p1 = self.pos as int;
        let mut k: usize = 0;
        while k < 7
            invariant
                0 <= k <= 7,
                self.input == old(self).input,
                self.static_header == old(self).static_header,
                self.header == old(self).header,
                sp_skip_ints(inp, p1, n, 7) == sp_skip_ints(inp, self.pos as int, n, (7 - k) as nat),
            decreases 7 - k,
        {
            match self.read_int() {
                Err(e) => {
                    proof {
                        assert(sp_skip_ints(inp, self.pos as int, n, (7 - k) as nat) == Err::<
                            int,
                            DumpReadError,
                        >(e));
                    }
                    self.pos = start;
                    return Err(e);
                },
                Ok(_t) => {},
            }
            k = k + 1;
        }
        let _dbname = match self.read_str() {
            Err(e) => {
                self.pos = start;
                return Err(e);
            },
            Ok(s) => s,
        };
        let _remote_version = match self.read_str() {
            Err(e) => {
                self.pos = start;
                return Err(e);
            },
            Ok(s) => s,
        };
        let _pg_dump_version = match self.read_str() {
            Err(e) => {
                self.pos = start;
                return Err(e);
            },
            Ok(s) => s,
        };
        let num_items = match self.read_int() {
            Err(e) => {
                self.pos = start;
                return Err(e);
            },
            Ok(v) => v,
        };
        if num_items < 0 {
            self.pos = start;
            return Err(DumpReadError::NegativeItemCount);
        }
        Ok(CustomDumpHeader { num_items })
    }

    /// Hand the reader over to entry iteration; the header must have been
    /// decoded.
    pub fn contents(self) -> (it: CustomDumpContentsIterator)
        requires
            self.header is Some,
        ensures
            it.dump_reader == self,
            it.items_left == self.header->Some_0.num_items,
    {
        let num_items = match &self.header {
            Some(h) => h.num_items,
            None => 0,  // unreachable under the precondition
        };
        CustomDumpContentsIterator { dump_reader: self, items_left: num_items }
    }

    /// Read one raw byte.
    pub fn read_u8(&mut self) -> (r: Result<u8, DumpReadError>)
        ensures
            final(self).input == old(self).input,
            final(self).static_header == old(self).static_header,
            final(self).header == old(self).header,
            match sp_read_u8(old(self).input@, old(self).pos as int) {
                Ok(bp) => r == Ok::<u8, DumpReadError>(bp.0) && final(self).pos as int == bp.1,
                Err(e) => r == Err::<u8, DumpReadError>(e) && final(self).pos == old(self).pos,
            },
    {
        if self.pos >= self.input.len() {
            return Err(DumpReadError::UnexpectedEnd);
        }
        let b = self.input[self.pos];
        self.pos = self.pos + 1;
        Ok(b)
    }

    /// Read a signed integer of the archive's integer width.
    pub fn read_int(&mut self) -> (r: Result<i64, DumpReadError>)
        requires
            reader_widths_ok(old(self).static_header),
        ensures
            final(self).input == old(self).input,
            final(self).static_header == old(self).static_header,
            final(self).header == old(self).header,
            match sp_read_int(
                old(self).input@,
                old(self).pos as int,
                old(self).static_header.int_size as int,
            ) {
                Ok(vp) => r == Ok::<i64, DumpReadError>(vp.0) && final(self).pos as int == vp.1,
                Err(e) => r == Err::<i64, DumpReadError>(e) && final(self).pos == old(self).pos,
            },
    {
        let n = self.static_header.int_size;
        if self.input.len() < 1 + n || self.pos > self.input.len() - (1 + n) {
            return Err(DumpReadError::UnexpectedEnd);
        }
        let sign = self.input[self.pos];
        if sign != 0 && sign != 1 {
            return Err(DumpReadError::InvalidSignByte { value: sign });
        }
        let mag_slice = slice_subrange(self.input.as_slice(), self.pos + 1, self.pos + 1 + n);
        let mag = le_bytes_to_i64(mag_slice);
        let value: i64 = if sign == 1 {
            if mag == i64::MIN {
                i64::MIN
            } else {
                -mag
            }
        } else {
            mag
        };
        self.pos = self.pos + 1 + n;
        Ok(value)
    }

    /// Read an unsigned offset of the archive's offset width.
    pub fn read_offset(&mut self) -> (r: Result<u64, DumpReadError>)
        requires
            reader_widths_ok(old(self).static_header),
        ensures
            final(self).input == old(self).input,
            final(self).static_header == old(self).static_header,
            final(self).header == old(self).header,
            match sp_read_offset(
                old(self).input@,
                old(self).pos as int,
                old(self).static_header.off_size as int,
            ) {
                Ok(vp) => r == Ok::<u64, DumpReadError>(vp.0) && final(self).pos as int == vp.1,
                Err(e) => r == Err::<u64, DumpReadError>(e) && final(self).pos == old(self).pos,
            },
    {
        let n = self.static_header.off_size;
        if self.input.len() < 1 + n || self.pos > self.input.len() - (1 + n) {
            return Err(DumpReadError::UnexpectedEnd);
        }
        let _flag = self.input[self.pos];
        let mag_slice = slice_subrange(self.input.as_slice(), self.pos + 1, self.pos + 1 + n);
        let value = le_bytes_to_u64(mag_slice);
        self.pos = self.pos + 1 + n;
        Ok(value)
    }

    /// Read a length-prefixed string. A length of zero or less yields the
    /// empty string without touching the input further.
    pub fn read_str(&mut self) -> (r: Result<Vec<u8>, DumpReadError>)
        requires
            reader_widths_ok(old(self).static_header),
        ensures
            final(self).input == old(self).input,
            final(self).static_header == old(self).static_header,
            final(self).header == old(self).header,
            match sp_read_str(
                old(self).input@,
                old(self).pos as int,
                old(self).static_header.int_size as int,
            ) {
                Ok(sp) => r matches Ok(s) && s@ == sp.0 && final(self).pos as int == sp.1,
                Err(e) => r == Err::<Vec<u8>, DumpReadError>(e) && final(self).pos == old(self).pos,
            },
    {
        let start = self.pos;
        let len = match self.read_int() {
            Err(e) => { return Err(e) },
            Ok(v) => v,
        };
        if len <= 0 {
            return Ok(Vec::new());
        }
        let remaining = self.input.len() - self.pos;
        if (len as u64) > (remaining as u64) {
            self.pos = start;
            return Err(DumpReadError::UnexpectedEnd);
        }
        let l = len as usize;
        let s = subvec(self.input.as_slice(), self.pos, self.pos + l);
        if !utf8_is_valid(s.as_slice()) {
            self.pos = start;
            return Err(DumpReadError::InvalidUtf8);
        }
        self.pos = self.pos + l;
        Ok(s)
    }

    /// Read a length-prefixed string holding a decimal object id.
    pub fn read_oid_str(&mut self) -> (r: Result<u32, DumpReadError>)
        requires
            reader_widths_ok(old(self).static_header),
        ensures
            final(self).input == old(self).input,
            final(self).static_header == old(self).static_header,
            final(self).header == old(self).header,
            match sp_read_oid(
                old(self).input@,
                old(self).pos as int,
                old(self).static_header.int_size as int,
            ) {
                Ok(vp) => r == Ok::<u32, DumpReadError>(vp.0) && final(self).pos as int == vp.1,
                Err(e) => r == Err::<u32, DumpReadError>(e) && final(self).pos == old(self).pos,
            },
    {
        let start = self.pos;
        let s = match self.read_str() {
            Err(e) => { return Err(e) },
            Ok(s) => s,
        };
        match parse_u32_dec(s.as_slice()) {
            Some(v) => Ok(v),
            None => {
                self.pos = start;
                Err(DumpReadError::InvalidOidString)
            },
        }
    }

    pub fn dump_version(&self) -> (r: (u8, u8))
        ensures
            r == (self.static_header.major_version, self.static_header.minor_version),
    {
        self.static_header.dump_version()
    }

    /// Decode one archive entry at the current position.
    #[verifier::loop_isolation(false)]
    #[verifier::rlimit(100)]
    pub fn read_item(&mut self) -> (r: Result<CustomDumpItem, DumpReadError>)
        requires
            reader_widths_ok(old(self).static_header),
        ensures
            final(self).input == old(self).input,
            final(self).static_header == old(self).static_header,
            final(self).header == old(self).header,
            match sp_read_item(old(self).input@, old(self).pos as int, old(self).static_header) {
                Ok(ip) => r matches Ok(item) && item@ == ip.0 && final(self).pos as int == ip.1,
                Err(e) => r == Err::<CustomDumpItem, DumpReadError>(e) && final(self).pos == old(self).pos,
            },
    {
        let ghost inp = self.input@;
        let ghost n = self.static_header.int_size as int;
        let start = self.pos;
        let _dump_id = match self.read_int() {
            Err(e) => { return Err(e) },
            Ok(v) => v,
        };
        let _data_dumper = match self.read_int() {
            Err(e) => {
                self.pos = start;
                return Err(e);
            },
            Ok(v) => v,
        };
        let table_oid = match self.read_oid_str() {
            Err(e) => {
                self.pos = start;
                return Err(e);
            },
            Ok(v) => v,
        };
        let oid = match self.read_oid_str() {
            Err(e) => {
                self.pos = start;
                return Err(e);
            },
            Ok(v) => v,
        };
        let tag = match self.read_str() {
            Err(e) => {
                self.pos = start;
                return Err(e);
            },
            Ok(s) => s,
        };
        let desc = match self.read_str() {
            Err(e) => {
                self.pos = start;
                return Err(e);
            },
            Ok(s) => s,
        };
        let _section = match self.read_int() {
            Err(e) => {
                self.pos = start;
                return Err(e);
            },
            Ok(v) => v,
        };
        let definition = match self.read_str() {
            Err(e) => {
                self.pos = start;
                return Err(e);
            },
            Ok(s) => s,
        };
        let _drop_stmt = match self.read_str() {
            Err(e) => {
                self.pos = start;
                return Err(e);
            },
            Ok(s) => s,
        };
        let _copy_stmt = match self.read_str() {
            Err(e) => {
                self.pos = start;
                return Err(e);
            },
            Ok(s) => s,
        };
        let namespace = match self.read_str() {
            Err(e) => {
                self.pos = start;
                return Err(e);
            },
            Ok(s) => s,
        };
        let _tablespace = match self.read_str() {
            Err(e) => {
                self.pos = start;
                return Err(e);
            },
            Ok(s) => s,
        };
        if self.static_header.version_at_least(1, 14) {
            let _tableam = match self.read_str() {
                Err(e) => {
                    self.pos = start;
                    return Err(e);
                },
                Ok(s) => s,
            };
        }
        let owner = match self.read_str() {
            Err(e) => {
                self.pos = start;
                return Err(e);
            },
            Ok(s) => s,
        };
        let _with_oids = match self.read_str() {
            Err(e) => {
                self.pos = start;
                return Err(e);
            },
            Ok(s) => s,
        };
        let ghost deps_start = self.pos as int;
        let mut done = false;
        while !done
            invariant
                self.input == old(self).input,
                self.static_header == old(self).static_header,
                self.header == old(self).header,
                0 <= self.pos <= inp.len(),
                !done ==> sp_skip_deps(inp, deps_start, n) == sp_skip_deps(inp, self.pos as int, n),
                done ==> sp_skip_deps(inp, deps_start, n) == Ok::<int, DumpReadError>(
                    self.pos as int,
                ),
            decreases inp.len() - self.pos, (if done { 0int } else { 1int }),
        {
            let ghost before = self.pos as int;
            let dep = match self.read_str() {
                Err(e) => {
                    proof {
                        assert(sp_skip_deps(inp, before, n) == Err::<int, DumpReadError>(e));
                    }
                    self.pos = start;
                    return Err(e);
                },
                Ok(s) => s,
            };
            proof {
                lemma_sp_read_str_bounds(inp, before, n);
            }
            if dep.len() == 0 {
                done = true;
            }
        }
        let _offset = match self.read_offset() {
            Err(e) => {
                self.pos = start;
                return Err(e);
            },
            Ok(v) => v,
        };
        Ok(CustomDumpItem { table_oid, oid, tag, desc, definition, namespace, owner })
    }
}

/// A forward-only pass over the declared entries: exactly the declared count
/// is decoded, no matter what bytes follow in the input.
#[derive(Debug)]
pub struct CustomDumpContentsIterator {
    pub dump_reader: CustomDumpReader,
    pub items_left: i64,
}

impl CustomDumpContentsIterator {
    /// Decode the next entry, or report that the declared count is
    /// exhausted. Once the count reaches zero no further byte is read.
    pub fn next(&mut self) -> (r: Option<Result<CustomDumpItem, DumpReadError>>)
        requires
            old(self).items_left >= 0,
            reader_widths_ok(old(self).dump_reader.static_header),
        ensures
            final(self).dump_reader.input == old(self).dump_reader.input,
            final(self).dump_reader.static_header == old(self).dump_reader.static_header,
            final(self).dump_reader.header == old(self).dump_reader.header,
            old(self).items_left == 0 ==> r is None && *final(self) == *old(self),
            old(self).items_left > 0 ==> final(self).items_left == old(self).items_left - 1
                && match sp_read_item(
                old(self).dump_reader.input@,
                old(self).dump_reader.pos as int,
                old(self).dump_reader.static_header,
            ) {
                Ok(ip) => r matches Some(res) && res matches Ok(item) && item@ == ip.0 && final(self).dump_reader.pos as int == ip.1,
                Err(e) => r == Some(Err::<CustomDumpItem, DumpReadError>(e)) && final(self).dump_reader.pos == old(self).dump_reader.pos,
            },
    {
        if self.items_left == 0 {
            return None;
        }
        let item = self.dump_reader.read_item();
        self.items_left = self.items_left - 1;
        Some(item)
    }
}


/// A length-prefixed string whose encoded length is zero or less decodes to
/// the empty string and reads nothing past the length field.
pub proof fn lemma_empty_string_reads_nothing(inp: Seq<u8>, pos: int, n: int)
    requires
        sp_read_int(inp, pos, n) matches Ok(lp) && lp.0 <= 0,
    ensures
        sp_read_str(inp, pos, n) == Ok::<(Seq<u8>, int), DumpReadError>(
            (Seq::<u8>::empty(), sp_read_int(inp, pos, n)->Ok_0.1),
        ),
{
}

} // verus!
