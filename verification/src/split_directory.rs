//! The split tree: a nested directory of named files, each file an ordered
//! list of text blocks. The classifier inserts one entry at a time; a file is
//! created on first touch and appended to afterwards. Lookup and mutation are
//! specified through `dir_lookup`, which reads a file's blocks at a full path.

use vstd::prelude::*;
use crate::bytes_util::bytes_eq;

verus! {

/// One directory level of the split dump: named subdirectories and named
/// files, names unique per level, a file being its ordered content blocks.
#[derive(Debug)]
pub struct SplitDumpDirectory {
    pub dirs: Vec<(Vec<u8>, SplitDumpDirectory)>,
    pub files: Vec<(Vec<u8>, Vec<Vec<u8>>)>,
}

/// The byte strings of a list of byte vectors.
pub open spec fn seqs_view(p: Seq<Vec<u8>>) -> Seq<Seq<u8>> {
    Seq::new(p.len(), |i: int| p[i]@)
}

/// Position of the first pair whose name is `name`, or `s.len()` when absent.
pub open spec fn assoc_idx<T>(s: Seq<(Vec<u8>, T)>, name: Seq<u8>) -> int
    decreases s.len(),
{
    if s.len() == 0 {
        0
    } else if s[0].0@ == name {
        0
    } else {
        1 + assoc_idx(s.drop_first(), name)
    }
}

pub proof fn lemma_assoc_idx<T>(s: Seq<(Vec<u8>, T)>, name: Seq<u8>)
    ensures
        0 <= assoc_idx(s, name) <= s.len(),
        assoc_idx(s, name) < s.len() ==> s[assoc_idx(s, name)].0@ == name,
        forall|j: int| 0 <= j < assoc_idx(s, name) ==> s[j].0@ != name,
    decreases s.len(),
{
    if s.len() == 0 {
    } else if s[0].0@ == name {
    } else {
        lemma_assoc_idx(s.drop_first(), name);
        assert forall|j: int| 0 <= j < assoc_idx(s, name) implies s[j].0@ != name by {
            if j > 0 {
                assert(s.drop_first()[j - 1] == s[j]);
            }
        }
    }
}

/// A position that matches and is preceded only by mismatches is the first
/// occurrence.
pub proof fn lemma_assoc_idx_is<T>(s: Seq<(Vec<u8>, T)>, name: Seq<u8>, k: int)
    requires
        0 <= k <= s.len(),
        forall|j: int| 0 <= j < k ==> s[j].0@ != name,
        k < s.len() ==> s[k].0@ == name,
    ensures
        assoc_idx(s, name) == k,
{
    lemma_assoc_idx(s, name);
}

/// Replacing the payload of a pair, keeping its name, does not move the
/// first occurrence of any name.
pub proof fn lemma_assoc_idx_update<T>(s: Seq<(Vec<u8>, T)>, j: int, p: (Vec<u8>, T), name: Seq<u8>)
    requires
        0 <= j < s.len(),
        p.0@ == s[j].0@,
    ensures
        assoc_idx(s.update(j, p), name) == assoc_idx(s, name),
    decreases s.len(),
{
    if s.len() == 0 {
    } else if j == 0 {
        assert(s.update(0, p)[0] == p);
        assert(s.update(0, p).drop_first() =~= s.drop_first());
    } else {
        assert(s.update(j, p)[0] == s[0]);
        assert(s.update(j, p).drop_first() =~= s.drop_first().update(j - 1, p));
        lemma_assoc_idx_update(s.drop_first(), j - 1, p, name);
    }
}

/// Appending a pair only affects lookups of names that were absent.
pub proof fn lemma_assoc_idx_push<T>(s: Seq<(Vec<u8>, T)>, p: (Vec<u8>, T), name: Seq<u8>)
    ensures
        assoc_idx(s, name) < s.len() ==> assoc_idx(s.push(p), name) == assoc_idx(s, name),
        assoc_idx(s, name) == s.len() && p.0@ == name ==> assoc_idx(s.push(p), name) == s.len(),
        assoc_idx(s, name) == s.len() && p.0@ != name ==> assoc_idx(s.push(p), name) == s.len()
            + 1,
    decreases s.len(),
{
    lemma_assoc_idx(s, name);
    let t = s.push(p);
    assert(forall|j: int| 0 <= j < s.len() ==> t[j] == s[j]);
    assert(t[s.len() as int] == p);
    if assoc_idx(s, name) < s.len() {
        lemma_assoc_idx_is(t, name, assoc_idx(s, name));
    } else if p.0@ == name {
        lemma_assoc_idx_is(t, name, s.len() as int);
    } else {
        lemma_assoc_idx_is(t, name, s.len() + 1 as int);
    }
}

/// The blocks of the file at `path` under `d`, if there is one.
pub open spec fn dir_lookup(d: SplitDumpDirectory, path: Seq<Seq<u8>>) -> Option<Seq<Seq<u8>>>
    decreases path.len(),
{
    if path.len() == 0 {
        None
    } else if path.len() == 1 {
        let i = assoc_idx(d.files@, path[0]);
        if i < d.files@.len() {
            Some(seqs_view(d.files@[i].1@))
        } else {
            None
        }
    } else {
        let i = assoc_idx(d.dirs@, path[0]);
        if i < d.dirs@.len() {
            dir_lookup(d.dirs@[i].1, path.drop_first())
        } else {
            None
        }
    }
}

pub open spec fn names_unique<T>(s: Seq<(Vec<u8>, T)>) -> bool {
    forall|i: int, j: int| 0 <= i < j < s.len() ==> s[i].0@ != s[j].0@
}

/// Well-formedness of the tree: names unique at every level.
pub open spec fn dir_wf(d: SplitDumpDirectory) -> bool
    decreases d,
{
    &&& names_unique(d.dirs@)
    &&& names_unique(d.files@)
    &&& forall|i: int| 0 <= i < d.dirs@.len() ==> dir_wf(#[trigger] d.dirs@[i].1)
}

impl SplitDumpDirectory {
    pub fn new() -> (d: SplitDumpDirectory)
        ensures
            d.dirs@.len() == 0,
            d.files@.len() == 0,
            dir_wf(d),
    {
        SplitDumpDirectory { dirs: Vec::new(), files: Vec::new() }
    }
}

/// First position of `name` among the files, or the number of files.
pub fn find_file_index(files: &Vec<(Vec<u8>, Vec<Vec<u8>>)>, name: &[u8]) -> (r: usize)
    ensures
        r == assoc_idx(files@, name@),
{
    proof {
        lemma_assoc_idx(files@, name@);
    }
    let n = files.len();
    let mut i: usize = 0;
    while i < n
        invariant
            n == files@.len(),
            0 <= i <= n,
            forall|j: int| 0 <= j < i ==> files@[j].0@ != name@,
        decreases n - i,
    {
        if bytes_eq(files[i].0.as_slice(), name) {
            proof {
                lemma_assoc_idx(files@, name@);
            }
            return i;
        }
        i = i + 1;
    }
    proof {
        lemma_assoc_idx(files@, name@);
    }
    n
}

/// First position of `name` among the subdirectories, or their number.
pub fn find_dir_index(dirs: &Vec<(Vec<u8>, SplitDumpDirectory)>, name: &[u8]) -> (r: usize)
    ensures
        r == assoc_idx(dirs@, name@),
{
    proof {
        lemma_assoc_idx(dirs@, name@);
    }
    let n = dirs.len();
    let mut i: usize = 0;
    while i < n
        invariant
            n == dirs@.len(),
            0 <= i <= n,
            forall|j: int| 0 <= j < i ==> dirs@[j].0@ != name@,
        decreases n - i,
    {
        if bytes_eq(dirs[i].0.as_slice(), name) {
            proof {
                lemma_assoc_idx(dirs@, name@);
            }
            return i;
        }
        i = i + 1;
    }
    proof {
        lemma_assoc_idx(dirs@, name@);
    }
    n
}

/// Insert `contents` at `path[i..]` under `d`: append to the file if it
/// exists, create it otherwise. Returns whether the file was created.
pub fn merge_file_at(
    d: &mut SplitDumpDirectory,
    path: &Vec<Vec<u8>>,
    i: usize,
    contents: Vec<Vec<u8>>,
) -> (created: bool)
    requires
        i < path@.len(),
        dir_wf(*old(d)),
    ensures
        dir_wf(*final(d)),
        created == (dir_lookup(*old(d), seqs_view(path@).skip(i as int)) is None),
        dir_lookup(*final(d), seqs_view(path@).skip(i as int)) == Some(
            if created {
                seqs_view(contents@)
            } else {
                dir_lookup(*old(d), seqs_view(path@).skip(i as int))->Some_0 + seqs_view(
                    contents@,
                )
            },
        ),
        forall|q: Seq<Seq<u8>>|
            q != seqs_view(path@).skip(i as int) ==> dir_lookup(*final(d), q) == dir_lookup(
                *old(d),
                q,
            ),
    decreases path@.len() - i,
{
    let ghost suf = seqs_view(path@).skip(i as int);
    let ghost cts = contents@;
    proof {
        assert(suf.len() == path@.len() - i);
        assert(suf[0] == path@[i as int]@);
    }
    if i == path.len() - 1 {
        let name = &path[i];
        let j = find_file_index(&d.files, name.as_slice());
        proof {
            lemma_assoc_idx(d.files@, name@);
        }
        if j < d.files.len() {
            let mut contents = contents;
            let ghost old_pair = d.files@[j as int];
            let dst = &mut d.files[j].1;
            dst.append(&mut contents);
            proof {
                let fs0 = old(d).files@;
                let fs1 = d.files@;
                assert(fs1 =~= fs0.update(j as int, (old_pair.0, d.files@[j as int].1)));
                assert forall|nm: Seq<u8>| true implies assoc_idx(fs1, nm) == assoc_idx(
                    fs0,
                    nm,
                ) by {
                    lemma_assoc_idx_update(fs0, j as int, fs1[j as int], nm);
                }
                assert(seqs_view(fs1[j as int].1@) =~= seqs_view(old_pair.1@) + seqs_view(cts));
                assert(dir_lookup(*d, suf) == Some(
                    dir_lookup(*old(d), suf)->Some_0 + seqs_view(cts),
                ));
                assert forall|q: Seq<Seq<u8>>| q != suf implies dir_lookup(*d, q) == dir_lookup(
                    *old(d),
                    q,
                ) by {
                    if q.len() == 1 {
                        if q[0] == name@ {
                            assert(q =~= suf);
                        } else {
                            lemma_assoc_idx(fs0, q[0]);
                            lemma_assoc_idx(fs1, q[0]);
                            let k = assoc_idx(fs0, q[0]);
                            if 0 <= k < fs0.len() {
                                assert(k != j);
                                assert(fs1[k] == fs0[k]);
                            }
                        }
                    } else if q.len() > 1 {
                        assert(d.dirs@ == old(d).dirs@);
                    }
                }
            }
            false
        } else {
            let n = name.clone();
            proof {
                assert(n@ == name@);
            }
            d.files.push((n, contents));
            proof {
                let fs0 = old(d).files@;
                let fs1 = d.files@;
                assert(fs1 =~= fs0.push(fs1[fs0.len() as int]));
                assert forall|nm: Seq<u8>| true implies (assoc_idx(fs1, nm) == if assoc_idx(
                    fs0,
                    nm,
                ) < fs0.len() {
                    assoc_idx(fs0, nm)
                } else if nm == name@ {
                    fs0.len() as int
                } else {
                    fs0.len() + 1 as int
                }) by {
                    lemma_assoc_idx_push(fs0, fs1[fs0.len() as int], nm);
                    lemma_assoc_idx(fs0, nm);
                }
                assert(dir_lookup(*d, suf) == Some(seqs_view(cts)));
                assert forall|q: Seq<Seq<u8>>| q != suf implies dir_lookup(*d, q) == dir_lookup(
                    *old(d),
                    q,
                ) by {
                    if q.len() == 1 {
                        if q[0] == name@ {
                            assert(q =~= suf);
                        } else {
                            lemma_assoc_idx(fs0, q[0]);
                        }
                    }
                }
                assert(names_unique(fs1)) by {
                    lemma_assoc_idx(fs0, name@);
                }
            }
            true
        }
    } else {
        let name = &path[i];
        let j0 = find_dir_index(&d.dirs, name.as_slice());
        let ghost pushed = j0 == old(d).dirs@.len();
        if j0 == d.dirs.len() {
            let n = name.clone();
            proof {
                assert(n@ == name@);
            }
            d.dirs.push((n, SplitDumpDirectory::new()));
        }
        let ghost mid = *d;
        proof {
            // after an optional push, `name` is present and its first
            // occurrence index is unchanged for every other name
            lemma_assoc_idx(old(d).dirs@, name@);
            if pushed {
                assert(mid.dirs@ =~= old(d).dirs@.push(mid.dirs@[old(d).dirs@.len() as int]));
                assert forall|nm: Seq<u8>| nm != name@ implies (if assoc_idx(old(d).dirs@, nm)
                    < old(d).dirs@.len() {
                    assoc_idx(mid.dirs@, nm) == assoc_idx(old(d).dirs@, nm)
                } else {
                    assoc_idx(mid.dirs@, nm) == mid.dirs@.len()
                }) by {
                    lemma_assoc_idx_push(old(d).dirs@, mid.dirs@[old(d).dirs@.len() as int], nm);
                    lemma_assoc_idx(old(d).dirs@, nm);
                }
                assert(assoc_idx(mid.dirs@, name@) == old(d).dirs@.len()) by {
                    lemma_assoc_idx_push(
                        old(d).dirs@,
                        mid.dirs@[old(d).dirs@.len() as int],
                        name@,
                    );
                }
                assert(names_unique(mid.dirs@)) by {
                    lemma_assoc_idx(old(d).dirs@, name@);
                }
                assert(dir_wf(mid)) by {
                    assert(forall|k: int|
                        0 <= k < old(d).dirs@.len() ==> mid.dirs@[k] == old(d).dirs@[k]);
                }
            }
        }
        let j = find_dir_index(&d.dirs, name.as_slice());
        proof {
            lemma_assoc_idx(mid.dirs@, name@);
        }
        let ghost sub0 = mid.dirs@[j as int].1;
        let created = merge_file_at(&mut d.dirs[j].1, path, i + 1, contents);
        proof {
            let ds1 = d.dirs@;
            let ds_mid = mid.dirs@;
            let subf = ds1[j as int].1;
            assert(ds1 =~= ds_mid.update(j as int, (ds_mid[j as int].0, subf)));
            assert forall|nm: Seq<u8>| true implies assoc_idx(ds1, nm) == assoc_idx(
                ds_mid,
                nm,
            ) by {
                lemma_assoc_idx_update(ds_mid, j as int, ds1[j as int], nm);
            }
            let inner_suf = seqs_view(path@).skip(i as int + 1);
            assert(inner_suf =~= suf.drop_first());
            // dir_wf of the result
            assert(dir_wf(*d)) by {
                assert(names_unique(ds1));
                assert(forall|k: int| 0 <= k < ds1.len() && k != j ==> ds1[k] == ds_mid[k]);
            }
            // the created flag and the lookup at the target path
            assert(dir_lookup(mid, suf) == dir_lookup(sub0, inner_suf));
            assert(dir_lookup(*d, suf) == dir_lookup(subf, inner_suf));
            if pushed {
                assert(dir_lookup(*old(d), suf) is None) by {
                    lemma_assoc_idx(old(d).dirs@, name@);
                }
                assert(dir_lookup(sub0, inner_suf) is None) by {
                    lemma_assoc_idx(sub0.files@, inner_suf[0]);
                    lemma_assoc_idx(sub0.dirs@, inner_suf[0]);
                }
            } else {
                assert(dir_lookup(*old(d), suf) == dir_lookup(sub0, inner_suf));
            }
            // frame: every other path reads as before
            assert forall|q: Seq<Seq<u8>>| q != suf implies dir_lookup(*d, q) == dir_lookup(
                *old(d),
                q,
            ) by {
                if q.len() == 0 {
                } else if q.len() == 1 {
                    assert(d.files@ == mid.files@ && mid.files@ == old(d).files@);
                } else {
                    if q[0] == name@ {
                        assert(assoc_idx(ds1, q[0]) == j as int);
                        assert(q.drop_first() != inner_suf) by {
                            if q.drop_first() == inner_suf {
                                assert(q.len() == suf.len());
                                assert(q[0] == suf[0]);
                                assert(forall|m: int|
                                    1 <= m < q.len() ==> q[m] == q.drop_first()[m - 1]
                                        && suf[m] == suf.drop_first()[m - 1]);
                                assert(q =~= suf);
                            }
                        }
                        assert(dir_lookup(*d, q) == dir_lookup(subf, q.drop_first()));
                        assert(dir_lookup(subf, q.drop_first()) == dir_lookup(
                            sub0,
                            q.drop_first(),
                        ));
                        if pushed {
                            assert(dir_lookup(sub0, q.drop_first()) is None) by {
                                lemma_assoc_idx(sub0.files@, q.drop_first()[0]);
                                lemma_assoc_idx(sub0.dirs@, q.drop_first()[0]);
                            }
                            assert(dir_lookup(*old(d), q) is None) by {
                                lemma_assoc_idx(old(d).dirs@, name@);
                            }
                        } else {
                            assert(dir_lookup(*old(d), q) == dir_lookup(
                                sub0,
                                q.drop_first(),
                            ));
                        }
                    } else {
                        let k = assoc_idx(ds1, q[0]);
                        lemma_assoc_idx(ds_mid, q[0]);
                        lemma_assoc_idx(old(d).dirs@, q[0]);
                        if pushed && assoc_idx(old(d).dirs@, q[0]) == old(d).dirs@.len() {
                            // the name is absent in both the old and the new tree
                            assert(assoc_idx(ds_mid, q[0]) == ds_mid.len());
                            assert(dir_lookup(*d, q) is None);
                            assert(dir_lookup(*old(d), q) is None);
                        } else {
                            assert(assoc_idx(ds_mid, q[0]) == assoc_idx(old(d).dirs@, q[0]));
                            if 0 <= k < ds1.len() {
                                assert(k != j);
                                assert(ds1[k] == ds_mid[k]);
                                assert(ds_mid[k] == old(d).dirs@[k]);
                            }
                        }
                    }
                }
            }
        }
        created
    }
}

/// Insert `contents` at `path` under the root `d`; `path` names the file by
/// its full segment list. Returns whether the file was created.
pub fn merge_file(
    d: &mut SplitDumpDirectory,
    path: &Vec<Vec<u8>>,
    contents: Vec<Vec<u8>>,
) -> (created: bool)
    requires
        path@.len() >= 1,
        dir_wf(*old(d)),
    ensures
        dir_wf(*final(d)),
        created == (dir_lookup(*old(d), seqs_view(path@)) is None),
        dir_lookup(*final(d), seqs_view(path@)) == Some(
            if created {
                seqs_view(contents@)
            } else {
                dir_lookup(*old(d), seqs_view(path@))->Some_0 + seqs_view(contents@)
            },
        ),
        forall|q: Seq<Seq<u8>>|
            q != seqs_view(path@) ==> dir_lookup(*final(d), q) == dir_lookup(*old(d), q),
{
    proof {
        assert(seqs_view(path@).skip(0) =~= seqs_view(path@));
    }
    merge_file_at(d, path, 0, contents)
}

/// Append one block to a file that already exists directly under `d`.
pub fn append_to_root_file(d: &mut SplitDumpDirectory, name: &[u8], line: Vec<u8>)
    requires
        dir_wf(*old(d)),
        assoc_idx(old(d).files@, name@) < old(d).files@.len(),
    ensures
        dir_wf(*final(d)),
        dir_lookup(*final(d), seq![name@]) == Some(
            dir_lookup(*old(d), seq![name@])->Some_0 + seq![line@],
        ),
        forall|q: Seq<Seq<u8>>|
            q != seq![name@] ==> dir_lookup(*final(d), q) == dir_lookup(*old(d), q),
{
    let j = find_file_index(&d.files, name);
    proof {
        lemma_assoc_idx(d.files@, name@);
    }
    let ghost old_pair = d.files@[j as int];
    let dst = &mut d.files[j].1;
    dst.push(line);
    proof {
        let fs0 = old(d).files@;
        let fs1 = d.files@;
        assert(fs1 =~= fs0.update(j as int, (old_pair.0, fs1[j as int].1)));
        assert forall|nm: Seq<u8>| true implies assoc_idx(fs1, nm) == assoc_idx(fs0, nm) by {
            lemma_assoc_idx_update(fs0, j as int, fs1[j as int], nm);
        }
        assert(seqs_view(fs1[j as int].1@) =~= seqs_view(old_pair.1@) + seq![line@]);
        assert(dir_lookup(*d, seq![name@]) == Some(
            dir_lookup(*old(d), seq![name@])->Some_0 + seq![line@],
        )) by {
            assert(seq![name@][0] == name@);
        }
        assert forall|q: Seq<Seq<u8>>| q != seq![name@] implies dir_lookup(*d, q) == dir_lookup(
            *old(d),
            q,
        ) by {
            if q.len() == 1 {
                if q[0] == name@ {
                    assert(q =~= seq![name@]);
                } else {
                    lemma_assoc_idx(fs0, q[0]);
                    lemma_assoc_idx(fs1, q[0]);
                    let k = assoc_idx(fs0, q[0]);
                    if 0 <= k < fs0.len() {
                        assert(k != j);
                        assert(fs1[k] == fs0[k]);
                    }
                }
            } else if q.len() > 1 {
                assert(d.dirs@ == old(d).dirs@);
            }
        }
    }
}

} // verus!
