//! Auxiliary catalog data, populated by the caller before classification and
//! read-only during it: which table owns each index, the pretty-printed body
//! of each view, and which functions are trigger functions. A key may be
//! added only once; a duplicate is a caller-side integrity fault.

use vstd::prelude::*;

verus! {

/// Position of the first pair with key `k`, or `s.len()` when absent.
pub open spec fn oid_idx(s: Seq<(u32, Vec<u8>)>, k: u32) -> int
    decreases s.len(),
{
    if s.len() == 0 {
        0
    } else if s[0].0 == k {
        0
    } else {
        1 + oid_idx(s.drop_first(), k)
    }
}

pub proof fn lemma_oid_idx(s: Seq<(u32, Vec<u8>)>, k: u32)
    ensures
        0 <= oid_idx(s, k) <= s.len(),
        oid_idx(s, k) < s.len() ==> s[oid_idx(s, k)].0 == k,
        forall|j: int| 0 <= j < oid_idx(s, k) ==> s[j].0 != k,
    decreases s.len(),
{
    if s.len() == 0 {
    } else if s[0].0 == k {
    } else {
        lemma_oid_idx(s.drop_first(), k);
        assert forall|j: int| 0 <= j < oid_idx(s, k) implies s[j].0 != k by {
            if j > 0 {
                assert(s.drop_first()[j - 1] == s[j]);
            }
        }
    }
}

/// The value recorded for key `k`, taking the first pair when a caller
/// ignored the uniqueness contract.
pub open spec fn oid_lookup(s: Seq<(u32, Vec<u8>)>, k: u32) -> Option<Seq<u8>> {
    if oid_idx(s, k) < s.len() {
        Some(s[oid_idx(s, k)].1@)
    } else {
        None
    }
}

/// The lookup tables resolved from the system catalogs.
#[derive(Debug)]
pub struct AuxiliaryData {
    /// Index oid to the name of the table the index belongs to.
    pub index_table: Vec<(u32, Vec<u8>)>,
    /// View oid to the view's pretty-printed body.
    pub pretty_printed_views: Vec<(u32, Vec<u8>)>,
    /// Oids of functions known to be trigger functions.
    pub trigger_functions: Vec<u32>,
}

impl AuxiliaryData {
    pub fn new() -> (r: AuxiliaryData)
        ensures
            r.index_table@.len() == 0,
            r.pretty_printed_views@.len() == 0,
            r.trigger_functions@.len() == 0,
    {
        AuxiliaryData {
            index_table: Vec::new(),
            pretty_printed_views: Vec::new(),
            trigger_functions: Vec::new(),
        }
    }

    /// Record which table owns an index. A key seen twice is refused and
    /// leaves the data unchanged.
    pub fn add_index_table(&mut self, oid: u32, table_name: Vec<u8>) -> (r: bool)
        ensures
            r == (oid_idx(old(self).index_table@, oid) == old(self).index_table@.len()),
            r ==> final(self).index_table@ == old(self).index_table@.push((oid, table_name)),
            !r ==> *final(self) == *old(self),
            final(self).pretty_printed_views == old(self).pretty_printed_views,
            final(self).trigger_functions == old(self).trigger_functions,
    {
        proof {
            lemma_oid_idx(self.index_table@, oid);
        }
        let i = oid_find(&self.index_table, oid);
        if i < self.index_table.len() {
            false
        } else {
            self.index_table.push((oid, table_name));
            true
        }
    }

    /// Record a view's pretty-printed body. A key seen twice is refused and
    /// leaves the data unchanged.
    pub fn add_view_definition(&mut self, oid: u32, body: Vec<u8>) -> (r: bool)
        ensures
            r == (oid_idx(old(self).pretty_printed_views@, oid) == old(
                self,
            ).pretty_printed_views@.len()),
            r ==> final(self).pretty_printed_views@ == old(self).pretty_printed_views@.push(
                (oid, body),
            ),
            !r ==> *final(self) == *old(self),
            final(self).index_table == old(self).index_table,
            final(self).trigger_functions == old(self).trigger_functions,
    {
        proof {
            lemma_oid_idx(self.pretty_printed_views@, oid);
        }
        let i = oid_find(&self.pretty_printed_views, oid);
        if i < self.pretty_printed_views.len() {
            false
        } else {
            self.pretty_printed_views.push((oid, body));
            true
        }
    }

    /// Record a trigger function's oid. An oid seen twice is refused and
    /// leaves the data unchanged.
    pub fn add_trigger_function(&mut self, oid: u32) -> (r: bool)
        ensures
            r == !old(self).trigger_functions@.contains(oid),
            r ==> final(self).trigger_functions@ == old(self).trigger_functions@.push(oid),
            !r ==> *final(self) == *old(self),
            final(self).index_table == old(self).index_table,
            final(self).pretty_printed_views == old(self).pretty_printed_views,
    {
        let n = self.trigger_functions.len();
        let mut i: usize = 0;
        while i < n
            invariant
                n == self.trigger_functions@.len(),
                0 <= i <= n,
                forall|j: int| 0 <= j < i ==> self.trigger_functions@[j] != oid,
            decreases n - i,
        {
            if self.trigger_functions[i] == oid {
                return false;
            }
            i = i + 1;
        }
        self.trigger_functions.push(oid);
        true
    }

    /// Is `oid` a known trigger function?
    pub fn is_trigger_function(&self, oid: u32) -> (r: bool)
        ensures
            r == self.trigger_functions@.contains(oid),
    {
        let n = self.trigger_functions.len();
        let mut i: usize = 0;
        while i < n
            invariant
                n == self.trigger_functions@.len(),
                0 <= i <= n,
                forall|j: int| 0 <= j < i ==> self.trigger_functions@[j] != oid,
            decreases n - i,
        {
            if self.trigger_functions[i] == oid {
                return true;
            }
            i = i + 1;
        }
        false
    }

    /// The table name recorded for an index oid.
    pub fn lookup_index_table(&self, oid: u32) -> (r: Option<Vec<u8>>)
        ensures
            match r {
                Some(v) => oid_lookup(self.index_table@, oid) == Some(v@),
                None => oid_lookup(self.index_table@, oid) is None,
            },
    {
        proof {
            lemma_oid_idx(self.index_table@, oid);
        }
        let i = oid_find(&self.index_table, oid);
        if i < self.index_table.len() {
            Some(self.index_table[i].1.clone())
        } else {
            None
        }
    }

    /// The pretty-printed body recorded for a view oid.
    pub fn lookup_view_definition(&self, oid: u32) -> (r: Option<Vec<u8>>)
        ensures
            match r {
                Some(v) => oid_lookup(self.pretty_printed_views@, oid) == Some(v@),
                None => oid_lookup(self.pretty_printed_views@, oid) is None,
            },
    {
        let i = oid_find(&self.pretty_printed_views, oid);
        if i < self.pretty_printed_views.len() {
            Some(self.pretty_printed_views[i].1.clone())
        } else {
            None
        }
    }
}

/// First position of key `k`, or the table's length.
fn oid_find(s: &Vec<(u32, Vec<u8>)>, k: u32) -> (r: usize)
    ensures
        r == oid_idx(s@, k),
{
    proof {
        lemma_oid_idx(s@, k);
    }
    let n = s.len();
    let mut i: usize = 0;
    while i < n
        invariant
            n == s@.len(),
            0 <= i <= n,
            forall|j: int| 0 <= j < i ==> s@[j].0 != k,
        decreases n - i,
    {
        if s[i].0 == k {
            proof {
                lemma_oid_idx(s@, k);
            }
            return i;
        }
        i = i + 1;
    }
    proof {
        lemma_oid_idx(s@, k);
    }
    n
}

} // verus!
