//! Deterministic ordering of permission statements. An ACL definition is a
//! single text holding statements separated by ";\n". It is split, empty
//! pieces are dropped, a terminating ";" is restored on each statement, and
//! the statements are sorted: every REVOKE statement before every GRANT
//! statement, ties broken by plain lexicographic order; one empty trailing
//! line is kept at the end.

use vstd::prelude::*;
use vstd::relations::{sorted_by, total_ordering};
use vstd::seq_lib::lemma_sorted_unique;
use crate::bytes_util::{
    bytes_starts_with, lemma_lex_le_antisymmetric, lemma_lex_le_total, lemma_lex_le_transitive,
    lex_le, lex_le_exec, subvec,
};
use crate::split_directory::seqs_view;
use crate::words::{lit_revoke, word_revoke};

verus! {

/// Does the statement begin with the revoking keyword?
pub open spec fn acl_is_revoke(s: Seq<u8>) -> bool {
    lit_revoke().is_prefix_of(s)
}

/// The sorter's order: revoking statements first, then lexicographic.
pub open spec fn acl_le(a: Seq<u8>, b: Seq<u8>) -> bool {
    if acl_is_revoke(a) != acl_is_revoke(b) {
        acl_is_revoke(a)
    } else {
        lex_le(a, b)
    }
}

/// The order as a binary relation value, for the sorting specifications.
pub open spec fn acl_leq() -> spec_fn(Seq<u8>, Seq<u8>) -> bool {
    |a: Seq<u8>, b: Seq<u8>| acl_le(a, b)
}

pub proof fn lemma_acl_le_total(a: Seq<u8>, b: Seq<u8>)
    ensures
        acl_le(a, b) || acl_le(b, a),
{
    lemma_lex_le_total(a, b);
}

pub proof fn lemma_acl_le_antisymmetric(a: Seq<u8>, b: Seq<u8>)
    requires
        acl_le(a, b),
        acl_le(b, a),
    ensures
        a == b,
{
    lemma_lex_le_antisymmetric(a, b);
}

pub proof fn lemma_acl_le_transitive(a: Seq<u8>, b: Seq<u8>, c: Seq<u8>)
    requires
        acl_le(a, b),
        acl_le(b, c),
    ensures
        acl_le(a, c),
{
    if acl_is_revoke(a) == acl_is_revoke(b) && acl_is_revoke(b) == acl_is_revoke(c) {
        lemma_lex_le_transitive(a, b, c);
    }
}

/// The sorter's order is a total ordering.
pub proof fn lemma_acl_leq_total_ordering()
    ensures
        total_ordering(acl_leq()),
{
    let leq = acl_leq();
    assert forall|a: Seq<u8>| #[trigger] leq(a, a) by {
        lemma_acl_le_total(a, a);
    }
    assert forall|a: Seq<u8>, b: Seq<u8>| #[trigger] leq(a, b) && #[trigger] leq(b, a) implies a
        == b by {
        lemma_acl_le_antisymmetric(a, b);
    }
    assert forall|a: Seq<u8>, b: Seq<u8>, c: Seq<u8>|
        #[trigger] leq(a, b) && #[trigger] leq(b, c) implies leq(a, c) by {
        lemma_acl_le_transitive(a, b, c);
    }
    assert forall|a: Seq<u8>, b: Seq<u8>| !(#[trigger] leq(a, b)) implies leq(b, a) by {
        lemma_acl_le_total(a, b);
    }
}

/// Position of the first ";\n" separator, or `s.len()` when there is none.
pub open spec fn find_sep(s: Seq<u8>) -> int
    decreases s.len(),
{
    if s.len() < 2 {
        s.len() as int
    } else if s[0] == ';' as u8 && s[1] == '\n' as u8 {
        0
    } else {
        1 + find_sep(s.drop_first())
    }
}

pub proof fn lemma_find_sep(s: Seq<u8>)
    ensures
        0 <= find_sep(s) <= s.len(),
        find_sep(s) < s.len() ==> find_sep(s) + 2 <= s.len() && s[find_sep(s)] == ';' as u8
            && s[find_sep(s) + 1] == '\n' as u8,
        forall|j: int|
            0 <= j < find_sep(s) && j + 1 < s.len() ==> !(#[trigger] s[j] == ';' as u8 && s[j + 1]
                == '\n' as u8),
    decreases s.len(),
{
    if s.len() < 2 {
    } else if s[0] == ';' as u8 && s[1] == '\n' as u8 {
    } else {
        lemma_find_sep(s.drop_first());
        assert forall|j: int|
            0 <= j < find_sep(s) && j + 1 < s.len() implies !(#[trigger] s[j] == ';' as u8 && s[j
            + 1] == '\n' as u8) by {
            if j > 0 {
                assert(s.drop_first()[j - 1] == s[j]);
                assert(s.drop_first()[j] == s[j + 1]);
            }
        }
    }
}

/// The pieces of `s` between its ";\n" separators, in order.
pub open spec fn split_stmts(s: Seq<u8>) -> Seq<Seq<u8>>
    decreases s.len(),
    when true
    via split_stmts_dec
{
    let i = find_sep(s);
    if i >= s.len() {
        seq![s]
    } else {
        seq![s.subrange(0, i)] + split_stmts(s.skip(i + 2))
    }
}

#[via_fn]
proof fn split_stmts_dec(s: Seq<u8>) {
    lemma_find_sep(s);
}

/// The statements of an ACL definition: nonempty pieces, each closed again
/// with ";".
pub open spec fn acl_parts(def: Seq<u8>) -> Seq<Seq<u8>> {
    split_stmts(def).filter(|p: Seq<u8>| p.len() > 0).map_values(
        |p: Seq<u8>| p.push(';' as u8),
    )
}

/// What sorting an ACL definition yields: its statements in the sorter's
/// order, then one empty trailing line.
pub open spec fn acl_sorted_stmts(def: Seq<u8>) -> Seq<Seq<u8>> {
    acl_parts(def).sort_by(acl_leq()).push(Seq::<u8>::empty())
}

/// Comparison of two statements in the sorter's order.
pub fn acl_le_exec(a: &[u8], b: &[u8]) -> (r: bool)
    ensures
        r == acl_le(a@, b@),
{
    let revoke = word_revoke();
    let ra = bytes_starts_with(a, revoke.as_slice());
    let rb = bytes_starts_with(b, revoke.as_slice());
    if ra != rb {
        ra
    } else {
        lex_le_exec(a, b)
    }
}

/// Split an ACL definition at every ";\n".
fn split_acl(def: &[u8]) -> (r: Vec<Vec<u8>>)
    ensures
        seqs_view(r@) == split_stmts(def@),
{
    let n = def.len();
    let mut out: Vec<Vec<u8>> = Vec::new();
    let mut cur: usize = 0;
    proof {
        assert(def@.skip(0) =~= def@);
        assert(seqs_view(out@) =~= Seq::<Seq<u8>>::empty());
        assert(seqs_view(out@) + split_stmts(def@) =~= split_stmts(def@));
    }
    loop
        invariant
            cur <= n,
            n == def@.len(),
            split_stmts(def@) =~= seqs_view(out@) + split_stmts(def@.skip(cur as int)),
        ensures
            seqs_view(out@) =~= split_stmts(def@),
        decreases n - cur,
    {
        // scan for the next separator at or after `cur`
        let mut j: usize = cur;
        let mut found = false;
        while !found && n - j > 1
            invariant
                cur <= j <= n,
                n == def@.len(),
                forall|m: int|
                    cur <= m < j && m + 1 < n ==> !(#[trigger] def@[m] == ';' as u8 && def@[m + 1]
                        == '\n' as u8),
                found ==> j + 1 < n && def@[j as int] == ';' as u8 && def@[j + 1] == '\n' as u8,
            decreases n - j + (if found { 0int } else { 1int }),
        {
            if def[j] == ';' as u8 && def[j + 1] == '\n' as u8 {
                found = true;
            } else {
                j = j + 1;
            }
        }
        let ghost rest = def@.skip(cur as int);
        proof {
            lemma_find_sep(rest);
            assert(forall|m: int| 0 <= m < rest.len() ==> rest[m] == def@[cur + m]);
        }
        if found {
            proof {
                // the scan found the first separator of the remainder
                assert(rest[j - cur] == ';' as u8 && rest[j - cur + 1] == '\n' as u8);
                assert forall|m: int| 0 <= m < j - cur implies !(#[trigger] rest[m] == ';' as u8
                    && rest[m + 1] == '\n' as u8) by {
                    assert(rest[m] == def@[cur + m]);
                    if cur + m + 1 < n {
                        assert(rest[m + 1] == def@[cur + m + 1]);
                    }
                }
                assert(find_sep(rest) == j - cur) by {
                    if find_sep(rest) < j - cur {
                        assert(rest[find_sep(rest)] == ';' as u8 && rest[find_sep(rest) + 1]
                            == '\n' as u8);
                    }
                    if find_sep(rest) > j - cur {
                        assert(!(rest[j - cur] == ';' as u8 && rest[j - cur + 1] == '\n' as u8));
                    }
                }
                assert(rest.subrange(0, j - cur) =~= def@.subrange(cur as int, j as int));
                assert(rest.skip(j - cur + 2) =~= def@.skip(j + 2));
            }
            let piece = subvec(def, cur, j);
            out.push(piece);
            proof {
                assert(seqs_view(out@) =~= seqs_view(out@.drop_last()) + seq![
                    def@.subrange(cur as int, j as int),
                ]);
            }
            cur = j + 2;
        } else {
            proof {
                assert forall|m: int| 0 <= m < rest.len() - 1 implies !(#[trigger] rest[m]
                    == ';' as u8 && rest[m + 1] == '\n' as u8) by {
                    assert(rest[m] == def@[cur + m]);
                    assert(rest[m + 1] == def@[cur + m + 1]);
                }
                assert(find_sep(rest) == rest.len()) by {
                    if find_sep(rest) < rest.len() {
                        assert(!(rest[find_sep(rest)] == ';' as u8 && rest[find_sep(rest) + 1]
                            == '\n' as u8));
                    }
                }
                assert(split_stmts(rest) =~= seq![rest]);
                assert(rest =~= def@.subrange(cur as int, n as int));
            }
            let piece = subvec(def, cur, n);
            out.push(piece);
            proof {
                assert(seqs_view(out@) =~= seqs_view(out@.drop_last()) + seq![rest]);
            }
            return out;
        }
    }
}

/// Insertion sort of the statements in the sorter's order.
fn sort_parts(v: Vec<Vec<u8>>) -> (r: Vec<Vec<u8>>)
    ensures
        sorted_by(seqs_view(r@), acl_leq()),
        seqs_view(r@).to_multiset() == seqs_view(v@).to_multiset(),
{
    broadcast use vstd::seq_lib::group_to_multiset_ensures;
    broadcast use vstd::multiset::group_multiset_axioms;

    let ghost orig = seqs_view(v@);
    let mut v = v;
    if v.len() <= 1 {
        return v;
    }
    let mut i: usize = 1;
    while i < v.len()
        invariant
            v@.len() == orig.len(),
            1 <= i <= v@.len(),
            sorted_by(seqs_view(v@).take(i as int), acl_leq()),
            seqs_view(v@).to_multiset() == orig.to_multiset(),
        decreases v@.len() - i,
    {
        let ghost pre_view = seqs_view(v@);
        let x = v.remove(i);
        let ghost mid_view = seqs_view(v@);
        proof {
            assert(mid_view =~= pre_view.remove(i as int));
            vstd::seq_lib::to_multiset_remove(pre_view, i as int);
            assert(x@ == pre_view[i as int]);
            assert(mid_view.to_multiset() =~= pre_view.to_multiset().remove(x@));
        }
        let mut k: usize = 0;
        while k < i && acl_le_exec(v[k].as_slice(), x.as_slice())
            invariant
                0 <= k <= i,
                i < pre_view.len(),
                v@.len() == pre_view.len() - 1,
                seqs_view(v@) == mid_view,
                forall|m: int| 0 <= m < k ==> acl_le(#[trigger] mid_view[m], x@),
            decreases i - k,
        {
            proof {
                assert(mid_view[k as int] == v@[k as int]@);
            }
            k = k + 1;
        }
        proof {
            if k < i {
                assert(!acl_le(mid_view[k as int], x@));
                lemma_acl_le_total(mid_view[k as int], x@);
            }
        }
        v.insert(k, x);
        proof {
            let post_view = seqs_view(v@);
            assert(post_view =~= mid_view.insert(k as int, x@));
            vstd::seq_lib::to_multiset_insert(mid_view, k as int, x@);
            assert(post_view.to_multiset() =~= mid_view.to_multiset().insert(x@));
            pre_view.to_multiset_ensures();
            assert(pre_view.contains(pre_view[i as int])) by {
                assert(pre_view[i as int] == pre_view[i as int]);
            }
            assert(pre_view.to_multiset().contains(pre_view[i as int]));
            assert(post_view.to_multiset() =~= pre_view.to_multiset());
            // sortedness of the grown prefix
            assert(mid_view.take(i as int) =~= pre_view.take(i as int));
            assert forall|m1: int, m2: int| 0 <= m1 < m2 < i + 1 implies #[trigger] acl_leq()(
                post_view.take(i + 1)[m1],
                post_view.take(i + 1)[m2],
            ) by {
                let t = post_view.take(i + 1);
                assert(forall|m: int|
                    0 <= m < k ==> t[m] == #[trigger] mid_view.take(i as int)[m]);
                assert(t[k as int] == x@);
                assert(forall|m: int|
                    k < m < i + 1 ==> t[m] == #[trigger] mid_view.take(i as int)[m - 1]);
                if k < i {
                    assert(acl_le(x@, mid_view[k as int]));
                }
                assert forall|m: int| k <= m < i implies acl_le(
                    x@,
                    #[trigger] mid_view.take(i as int)[m],
                ) by {
                    if m == k {
                        assert(acl_le(x@, mid_view[k as int]));
                    } else {
                        assert(acl_leq()(
                            mid_view.take(i as int)[k as int],
                            mid_view.take(i as int)[m],
                        ));
                        assert(mid_view.take(i as int)[k as int] == mid_view[k as int]);
                        assert(mid_view.take(i as int)[m] == mid_view[m]);
                        lemma_acl_le_transitive(x@, mid_view[k as int], mid_view[m]);
                    }
                }
                if m2 < k {
                    assert(acl_leq()(mid_view.take(i as int)[m1], mid_view.take(i as int)[m2]));
                } else if m1 < k && m2 == k {
                    assert(acl_le(mid_view[m1], x@));
                } else if m1 < k && m2 > k {
                    assert(acl_leq()(
                        mid_view.take(i as int)[m1],
                        mid_view.take(i as int)[m2 - 1],
                    ));
                } else if m1 == k {
                    assert(acl_le(x@, mid_view.take(i as int)[m2 - 1]));
                } else {
                    assert(acl_leq()(
                        mid_view.take(i as int)[m1 - 1],
                        mid_view.take(i as int)[m2 - 1],
                    ));
                }
            }
        }
        i = i + 1;
    }
    proof {
        assert(seqs_view(v@).take(v@.len() as int) =~= seqs_view(v@));
    }
    v
}

/// Split an ACL definition, restore the terminating ";" on each nonempty
/// statement, sort, and keep one empty trailing line.
pub fn sorted_acl_statements(def: &[u8]) -> (r: Vec<Vec<u8>>)
    ensures
        seqs_view(r@) == acl_sorted_stmts(def@),
{
    broadcast use vstd::seq_lib::group_to_multiset_ensures;

    let pieces = split_acl(def);
    let n = pieces.len();
    let mut parts: Vec<Vec<u8>> = Vec::new();
    let mut i: usize = 0;
    proof {
        reveal(Seq::filter);
        assert(split_stmts(def@).take(0) =~= Seq::<Seq<u8>>::empty());
        assert(seqs_view(parts@) =~= Seq::<Seq<u8>>::empty());
        assert(split_stmts(def@).take(0).filter(|p: Seq<u8>| p.len() > 0).map_values(
            |p: Seq<u8>| p.push(';' as u8),
        ) =~= Seq::<Seq<u8>>::empty());
    }
    while i < n
        invariant
            0 <= i <= n,
            n == pieces@.len(),
            seqs_view(pieces@) == split_stmts(def@),
            seqs_view(parts@) =~= split_stmts(def@).take(i as int).filter(
                |p: Seq<u8>| p.len() > 0,
            ).map_values(|p: Seq<u8>| p.push(';' as u8)),
        decreases n - i,
    {
        proof {
            reveal(Seq::filter);
            assert(split_stmts(def@).take(i + 1).drop_last() =~= split_stmts(def@).take(i as int));
            assert(split_stmts(def@).take(i + 1).last() == seqs_view(pieces@)[i as int]);
        }
        if pieces[i].len() > 0 {
            let mut stmt = pieces[i].clone();
            stmt.push(';' as u8);
            let ghost prev = seqs_view(parts@);
            parts.push(stmt);
            proof {
                let f = |p: Seq<u8>| p.push(';' as u8);
                let pred = |p: Seq<u8>| p.len() > 0;
                let taken = split_stmts(def@).take(i + 1);
                assert(taken.filter(pred) =~= split_stmts(def@).take(i as int).filter(pred).push(
                    pieces@[i as int]@,
                ));
                assert(seqs_view(parts@) =~= prev.push(stmt@));
                assert(stmt@ == f(seqs_view(pieces@)[i as int]));
                assert(taken.filter(pred).map_values(f) =~= split_stmts(def@).take(
                    i as int,
                ).filter(pred).map_values(f).push(stmt@));
                assert(seqs_view(parts@) =~= taken.filter(pred).map_values(f));
            }
        } else {
            proof {
                let pred = |p: Seq<u8>| p.len() > 0;
                assert(split_stmts(def@).take(i + 1).filter(pred) =~= split_stmts(
                    def@,
                ).take(i as int).filter(pred));
            }
        }
        i = i + 1;
    }
    proof {
        assert(split_stmts(def@).take(n as int) =~= split_stmts(def@));
        assert(seqs_view(parts@) =~= acl_parts(def@));
    }
    let ghost parts_view = seqs_view(parts@);
    let mut sorted = sort_parts(parts);
    proof {
        lemma_acl_leq_total_ordering();
        parts_view.lemma_sort_by_ensures(acl_leq());
        lemma_sorted_unique(seqs_view(sorted@), parts_view.sort_by(acl_leq()), acl_leq());
        assert(seqs_view(sorted@) =~= parts_view.sort_by(acl_leq()));
    }
    sorted.push(Vec::new());
    proof {
        assert(seqs_view(sorted@) =~= acl_parts(def@).sort_by(acl_leq()).push(
            Seq::<u8>::empty(),
        ));
    }
    sorted
}


/// Sorting is idempotent: a statement list already in the sorter's order is
/// returned unchanged.
pub proof fn lemma_acl_sort_idempotent(s: Seq<Seq<u8>>)
    requires
        sorted_by(s, acl_leq()),
    ensures
        s.sort_by(acl_leq()) == s,
{
    lemma_acl_leq_total_ordering();
    s.lemma_sort_by_ensures(acl_leq());
    lemma_sorted_unique(s.sort_by(acl_leq()), s, acl_leq());
}

/// Sorting an ACL definition whose statements are already in the sorter's
/// order returns them unchanged, with the one empty trailing line appended.
pub proof fn lemma_sort_acl_sorted_definition(def: Seq<u8>)
    requires
        sorted_by(acl_parts(def), acl_leq()),
    ensures
        acl_sorted_stmts(def) == acl_parts(def).push(Seq::<u8>::empty()),
{
    lemma_acl_sort_idempotent(acl_parts(def));
}

/// In a statement list in the sorter's order, every revoking statement
/// precedes every statement that does not revoke.
pub proof fn lemma_revoke_before_grant(s: Seq<Seq<u8>>, i: int, j: int)
    requires
        sorted_by(s, acl_leq()),
        0 <= i < j < s.len(),
        acl_is_revoke(s[j]),
    ensures
        acl_is_revoke(s[i]),
{
    assert(acl_leq()(s[i], s[j]));
}

/// In the sorter's output, every revoking statement precedes every
/// statement that does not revoke.
pub proof fn lemma_acl_output_revoke_first(def: Seq<u8>, i: int, j: int)
    requires
        0 <= i < j < acl_parts(def).sort_by(acl_leq()).len(),
        acl_is_revoke(acl_parts(def).sort_by(acl_leq())[j]),
    ensures
        acl_is_revoke(acl_parts(def).sort_by(acl_leq())[i]),
{
    lemma_acl_leq_total_ordering();
    acl_parts(def).lemma_sort_by_ensures(acl_leq());
    lemma_revoke_before_grant(acl_parts(def).sort_by(acl_leq()), i, j);
}

} // verus!
