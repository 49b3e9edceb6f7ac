//! Output-side helpers: the selectable output shapes and the exact text an
//! output writer materializes for one file of the split tree.

use vstd::prelude::*;
use vstd::string::StrSliceExecFns;
use crate::split_directory::seqs_view;

verus! {

/// The two shapes a finished tree can be written in.
#[derive(Debug, PartialEq, Eq, Structural)]
pub enum OutputFormat {
    TarArchive,
    Directory,
}

/// The format selected by a command-line flag value.
pub open spec fn spec_output_format(s: Seq<char>) -> Option<OutputFormat> {
    if s == seq!['t'] {
        Some(OutputFormat::TarArchive)
    } else if s == seq!['d'] {
        Some(OutputFormat::Directory)
    } else {
        None
    }
}

impl OutputFormat {
    /// Parse a format flag value: "t" selects the archive, "d" the
    /// directory; anything else is rejected.
    pub fn from_string(s: &str) -> (r: Option<OutputFormat>)
        ensures
            r == spec_output_format(s@),
    {
        if s.unicode_len() == 1 {
            let c = s.get_char(0);
            if c == 't' {
                proof {
                    assert(s@ =~= seq!['t']);
                }
                return Some(OutputFormat::TarArchive);
            }
            if c == 'd' {
                proof {
                    assert(s@ =~= seq!['d']);
                }
                return Some(OutputFormat::Directory);
            }
            proof {
                assert(s@ != seq!['t'] && s@ != seq!['d']) by {
                    assert(seq!['t'][0] == 't' && seq!['d'][0] == 'd');
                }
            }
            return None;
        }
        proof {
            assert(s@ != seq!['t'] && s@ != seq!['d']) by {
                assert(seq!['t'].len() == 1 && seq!['d'].len() == 1);
            }
        }
        None
    }
}

/// Each block followed by one newline, in order.
pub open spec fn blocks_text(blocks: Seq<Seq<u8>>) -> Seq<u8>
    decreases blocks.len(),
{
    if blocks.len() == 0 {
        Seq::empty()
    } else {
        (blocks[0] + seq!['\n' as u8]) + blocks_text(blocks.drop_first())
    }
}

/// What a writer materializes for one file: its blocks joined by newlines
/// with one trailing newline, so a file without blocks is one blank line.
pub open spec fn spec_materialized(blocks: Seq<Seq<u8>>) -> Seq<u8> {
    if blocks.len() == 0 {
        seq!['\n' as u8]
    } else {
        blocks_text(blocks)
    }
}

/// One more block appends itself and one newline.
pub proof fn lemma_blocks_text_push(p: Seq<Seq<u8>>, x: Seq<u8>)
    ensures
        blocks_text(p.push(x)) == blocks_text(p) + (x + seq!['\n' as u8]),
    decreases p.len(),
{
    let q = p.push(x);
    if p.len() == 0 {
        assert(q.drop_first() =~= Seq::<Seq<u8>>::empty());
        assert(q[0] == x);
        assert(blocks_text(Seq::<Seq<u8>>::empty()) =~= Seq::<u8>::empty());
        assert(blocks_text(q) == (x + seq!['\n' as u8]) + Seq::<u8>::empty());
        assert((x + seq!['\n' as u8]) + Seq::<u8>::empty() =~= Seq::<u8>::empty() + (x + seq![
            '\n' as u8,
        ]));
    } else {
        assert(q.drop_first() =~= p.drop_first().push(x));
        lemma_blocks_text_push(p.drop_first(), x);
        assert(q[0] == p[0]);
        assert(blocks_text(q) == (p[0] + seq!['\n' as u8]) + (blocks_text(p.drop_first()) + (x
            + seq!['\n' as u8])));
        assert((p[0] + seq!['\n' as u8]) + (blocks_text(p.drop_first()) + (x + seq![
            '\n' as u8,
        ])) =~= ((p[0] + seq!['\n' as u8]) + blocks_text(p.drop_first())) + (x + seq![
            '\n' as u8,
        ]));
    }
}

/// The exact bytes a writer stores for one file of the split tree.
pub fn materialize_file(blocks: &Vec<Vec<u8>>) -> (r: Vec<u8>)
    ensures
        r@ == spec_materialized(seqs_view(blocks@)),
{
    let n = blocks.len();
    if n == 0 {
        let mut v: Vec<u8> = Vec::new();
        v.push('\n' as u8);
        proof {
            assert(v@ =~= seq!['\n' as u8]);
        }
        return v;
    }
    let mut v: Vec<u8> = Vec::new();
    let mut i: usize = 0;
    proof {
        assert(seqs_view(blocks@).take(0) =~= Seq::<Seq<u8>>::empty());
        assert(v@ =~= blocks_text(seqs_view(blocks@).take(0)));
    }
    while i < n
        invariant
            0 <= i <= n,
            n == blocks@.len(),
            v@ == blocks_text(seqs_view(blocks@).take(i as int)),
        decreases n - i,
    {
        crate::bytes_util::append_bytes(&mut v, blocks[i].as_slice());
        v.push('\n' as u8);
        proof {
            let bv = seqs_view(blocks@);
            assert(bv.take(i + 1) =~= bv.take(i as int).push(bv[i as int]));
            lemma_blocks_text_push(bv.take(i as int), bv[i as int]);
            assert(v@ =~= blocks_text(bv.take(i as int)) + (bv[i as int] + seq!['\n' as u8]));
        }
        i = i + 1;
    }
    proof {
        assert(seqs_view(blocks@).take(n as int) =~= seqs_view(blocks@));
    }
    v
}

} // verus!
