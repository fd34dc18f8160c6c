use vstd::prelude::*;

use crate::types::{RejectReason, TxOutput, UtxoRef};

verus! {

/// Whether some entry of `s` is keyed by `r`.
pub open spec fn has_key(s: Seq<(UtxoRef, TxOutput)>, r: UtxoRef) -> bool {
    exists|i: int| 0 <= i < s.len() && s[i].0 == r
}

/// No two entries of `s` share a key.
pub open spec fn keys_unique(s: Seq<(UtxoRef, TxOutput)>) -> bool {
    forall|i: int, j: int| 0 <= i < s.len() && 0 <= j < s.len() && s[i].0 == s[j].0 ==> i == j
}

/// The entries of `s` as a map from reference to output.
pub open spec fn entries_map(s: Seq<(UtxoRef, TxOutput)>) -> Map<UtxoRef, TxOutput> {
    Map::new(
        |r: UtxoRef| has_key(s, r),
        |r: UtxoRef| s[choose|i: int| 0 <= i < s.len() && s[i].0 == r].1,
    )
}

/// The sum of the amounts of the entries of `s`.
pub open spec fn sum_amounts(s: Seq<(UtxoRef, TxOutput)>) -> int
    decreases s.len(),
{
    if s.len() == 0 {
        0
    } else {
        sum_amounts(s.drop_last()) + s.last().1.amount
    }
}

pub proof fn lemma_sum_push(s: Seq<(UtxoRef, TxOutput)>, e: (UtxoRef, TxOutput))
    ensures
        sum_amounts(s.push(e)) == sum_amounts(s) + e.1.amount,
{
    assert(s.push(e).drop_last() =~= s);
}

pub proof fn lemma_sum_remove(s: Seq<(UtxoRef, TxOutput)>, i: int)
    requires
        0 <= i < s.len(),
    ensures
        sum_amounts(s.remove(i)) == sum_amounts(s) - s[i].1.amount,
    decreases s.len(),
{
    if i == s.len() - 1 {
        assert(s.remove(i) =~= s.drop_last());
    } else {
        lemma_sum_remove(s.drop_last(), i);
        assert(s.remove(i).drop_last() =~= s.drop_last().remove(i));
    }
}

/// A prefix of `s` holds no more value than `s`.
pub proof fn lemma_sum_prefix(s: Seq<(UtxoRef, TxOutput)>, k: int)
    requires
        0 <= k <= s.len(),
    ensures
        sum_amounts(s.subrange(0, k)) <= sum_amounts(s),
    decreases s.len() - k,
{
    if k < s.len() {
        lemma_sum_prefix(s, k + 1);
        assert(s.subrange(0, k + 1).drop_last() =~= s.subrange(0, k));
    } else {
        assert(s.subrange(0, k) =~= s);
    }
}

/// In a store with unique keys, the entry at `i` is what its key maps to.
pub proof fn lemma_map_at(s: Seq<(UtxoRef, TxOutput)>, i: int)
    requires
        keys_unique(s),
        0 <= i < s.len(),
    ensures
        entries_map(s).contains_key(s[i].0),
        entries_map(s)[s[i].0] == s[i].1,
{
    let r = s[i].0;
    assert(has_key(s, r));
    let j = choose|j: int| 0 <= j < s.len() && s[j].0 == r;
    assert(j == i);
}

pub proof fn lemma_map_push(s: Seq<(UtxoRef, TxOutput)>, e: (UtxoRef, TxOutput))
    requires
        keys_unique(s),
        !has_key(s, e.0),
    ensures
        keys_unique(s.push(e)),
        entries_map(s.push(e)) == entries_map(s).insert(e.0, e.1),
{
    let t = s.push(e);
    assert forall|i: int, j: int| 0 <= i < t.len() && 0 <= j < t.len() && t[i].0 == t[j].0 implies i
        == j by {
        if i < s.len() && j < s.len() {
            assert(s[i].0 == s[j].0);
        } else if i < s.len() {
            assert(s[i].0 == e.0);
        } else if j < s.len() {
            assert(s[j].0 == e.0);
        }
    }
    assert forall|r: UtxoRef| #[trigger] has_key(t, r) == (has_key(s, r) || r == e.0) by {
        if has_key(s, r) {
            let i = choose|i: int| 0 <= i < s.len() && s[i].0 == r;
            assert(t[i].0 == r);
        }
        if r == e.0 {
            assert(t[s.len() as int].0 == r);
        }
        if has_key(t, r) && r != e.0 {
            let i = choose|i: int| 0 <= i < t.len() && t[i].0 == r;
            assert(s[i].0 == r);
        }
    }
    assert forall|r: UtxoRef| #[trigger] entries_map(t).contains_key(r) implies entries_map(t)[r]
        == entries_map(s).insert(e.0, e.1)[r] by {
        let i = choose|i: int| 0 <= i < t.len() && t[i].0 == r;
        lemma_map_at(t, i);
        if r != e.0 {
            lemma_map_at(s, i);
        }
    }
    assert(entries_map(t) =~= entries_map(s).insert(e.0, e.1));
}

pub proof fn lemma_map_remove(s: Seq<(UtxoRef, TxOutput)>, i: int)
    requires
        keys_unique(s),
        0 <= i < s.len(),
    ensures
        keys_unique(s.remove(i)),
        entries_map(s.remove(i)) == entries_map(s).remove(s[i].0),
{
    let t = s.remove(i);
    let k = s[i].0;
    // position in `s` of the entry at position `j` of `t`
    assert forall|j: int| 0 <= j < t.len() implies #[trigger] t[j] == s[if j < i {
        j
    } else {
        j + 1
    }] by {}
    assert forall|a: int, b: int| 0 <= a < t.len() && 0 <= b < t.len() && t[a].0 == t[b].0 implies a
        == b by {
        let a2 = if a < i { a } else { a + 1 };
        let b2 = if b < i { b } else { b + 1 };
        assert(t[a] == s[a2]);
        assert(t[b] == s[b2]);
    }
    assert forall|r: UtxoRef| #[trigger] has_key(t, r) == (has_key(s, r) && r != k) by {
        if has_key(t, r) {
            let a = choose|a: int| 0 <= a < t.len() && t[a].0 == r;
            let a2 = if a < i { a } else { a + 1 };
            assert(t[a] == s[a2]);
            assert(a2 != i);
        }
        if has_key(s, r) && r != k {
            let a = choose|a: int| 0 <= a < s.len() && s[a].0 == r;
            assert(a != i);
            let a1 = if a < i { a } else { a - 1 };
            assert(t[a1] == s[a]);
        }
    }
    assert forall|r: UtxoRef| #[trigger] entries_map(t).contains_key(r) implies entries_map(t)[r]
        == entries_map(s)[r] by {
        let a = choose|a: int| 0 <= a < t.len() && t[a].0 == r;
        let a2 = if a < i { a } else { a + 1 };
        assert(t[a] == s[a2]);
        lemma_map_at(t, a);
        lemma_map_at(s, a2);
    }
    assert(entries_map(t) =~= entries_map(s).remove(k));
}

/// The set of spendable outputs, keyed by reference, in the order in which
/// they were added. It is a list with unique keys rather than a hash map so
/// that its order, which coin selection follows, is fixed by its contents.
pub struct UtxoDatabase {
    entries: Vec<(UtxoRef, TxOutput)>,
}

impl View for UtxoDatabase {
    type V = Map<UtxoRef, TxOutput>;

    open spec fn view(&self) -> Map<UtxoRef, TxOutput> {
        entries_map(self.entries())
    }
}

impl UtxoDatabase {
    /// The entries, in the order in which they were added.
    pub closed spec fn entries(&self) -> Seq<(UtxoRef, TxOutput)> {
        self.entries@
    }

    /// Every key is present at most once.
    pub open spec fn wf(&self) -> bool {
        keys_unique(self.entries())
    }

    /// The total value held.
    pub open spec fn total(&self) -> int {
        sum_amounts(self.entries())
    }

    pub fn new() -> (r: Self)
        ensures
            r.wf(),
            r.entries() == Seq::<(UtxoRef, TxOutput)>::empty(),
            r@ == Map::<UtxoRef, TxOutput>::empty(),
            r.total() == 0,
    {
        let r = UtxoDatabase { entries: Vec::new() };
        assert(r@ =~= Map::<UtxoRef, TxOutput>::empty());
        r
    }

    /// The position of the entry keyed by `utxo_ref`, if there is one.
    fn position(&self, utxo_ref: &UtxoRef) -> (r: Option<usize>)
        requires
            self.wf(),
        ensures
            match r {
                Some(i) => i < self.entries().len() && self.entries()[i as int].0 == *utxo_ref,
                None => !has_key(self.entries(), *utxo_ref),
            },
    {
        let mut i: usize = 0;
        while i < self.entries.len()
            invariant
                i <= self.entries@.len(),
                forall|k: int| 0 <= k < i ==> self.entries@[k].0 != *utxo_ref,
            decreases self.entries@.len() - i,
        {
            if self.entries[i].0 == *utxo_ref {
                return Some(i);
            }
            i = i + 1;
        }
        None
    }

    /// Adds an output under a reference that is not in use; refuses one that
    /// is, and leaves the store as it was.
    pub fn add_utxo(&mut self, utxo_ref: UtxoRef, output: TxOutput) -> (r: Result<
        (),
        RejectReason,
    >)
        requires
            old(self).wf(),
        ensures
            final(self).wf(),
            r is Err <==> old(self)@.contains_key(utxo_ref),
            r is Err ==> r == Err::<(), RejectReason>(RejectReason::DuplicateUtxo),
            r is Err ==> *final(self) == *old(self),
            r is Ok ==> final(self)@ == old(self)@.insert(utxo_ref, output),
            r is Ok ==> final(self).entries() == old(self).entries().push((utxo_ref, output)),
            r is Ok ==> final(self).total() == old(self).total() + output.amount,
    {
        match self.position(&utxo_ref) {
            Some(i) => {
                proof {
                    lemma_map_at(self.entries@, i as int);
                }
                Err(RejectReason::DuplicateUtxo)
            },
            None => {
                proof {
                    lemma_map_push(self.entries@, (utxo_ref, output));
                    lemma_sum_push(self.entries@, (utxo_ref, output));
                }
                self.entries.push((utxo_ref, output));
                Ok(())
            },
        }
    }

    pub fn get_utxo(&self, utxo_ref: &UtxoRef) -> (r: Option<&TxOutput>)
        requires
            self.wf(),
        ensures
            match r {
                Some(o) => self@.contains_key(*utxo_ref) && *o == self@[*utxo_ref],
                None => !self@.contains_key(*utxo_ref),
            },
    {
        match self.position(utxo_ref) {
            Some(i) => {
                proof {
                    lemma_map_at(self.entries@, i as int);
                }
                Some(&self.entries[i].1)
            },
            None => None,
        }
    }

    /// Takes out the output under `utxo_ref`; nothing happens where there is
    /// none.
    pub fn remove_utxo(&mut self, utxo_ref: &UtxoRef) -> (r: Option<TxOutput>)
        requires
            old(self).wf(),
        ensures
            final(self).wf(),
            final(self)@ == old(self)@.remove(*utxo_ref),
            r == (if old(self)@.contains_key(*utxo_ref) {
                Some(old(self)@[*utxo_ref])
            } else {
                None
            }),
            final(self).total() == old(self).total() - match r {
                Some(o) => o.amount as int,
                None => 0,
            },
    {
        match self.position(utxo_ref) {
            Some(i) => {
                proof {
                    lemma_map_at(self.entries@, i as int);
                    lemma_map_remove(self.entries@, i as int);
                    lemma_sum_remove(self.entries@, i as int);
                }
                let (_, o) = self.entries.remove(i);
                Some(o)
            },
            None => {
                proof {
                    assert(self@.remove(*utxo_ref) =~= self@);
                }
                None
            },
        }
    }

    /// All entries, in the order in which they were added.
    pub fn get_all_utxos(&self) -> (r: &Vec<(UtxoRef, TxOutput)>)
        ensures
            r@ == self.entries(),
    {
        &self.entries
    }

    /// The total value held; refused where it does not fit in 64 bits.
    pub fn total_value(&self) -> (r: Result<u64, RejectReason>)
        ensures
            match r {
                Ok(v) => v == self.total(),
                Err(e) => e == RejectReason::SupplyOverflow && self.total() > u64::MAX,
            },
    {
        match checked_sum(&self.entries) {
            Some(v) => Ok(v),
            None => Err(RejectReason::SupplyOverflow),
        }
    }
}

/// The sum of the amounts of `s`, or `None` where it does not fit in 64 bits.
pub fn checked_sum(s: &Vec<(UtxoRef, TxOutput)>) -> (r: Option<u64>)
    ensures
        match r {
            Some(v) => v == sum_amounts(s@),
            None => sum_amounts(s@) > u64::MAX,
        },
{
    let mut acc: u64 = 0;
    let mut i: usize = 0;
    while i < s.len()
        invariant
            i <= s@.len(),
            acc == sum_amounts(s@.subrange(0, i as int)),
        decreases s@.len() - i,
    {
        proof {
            assert(s@.subrange(0, i + 1).drop_last() =~= s@.subrange(0, i as int));
        }
        match acc.checked_add(s[i].1.amount) {
            Some(v) => {
                acc = v;
            },
            None => {
                proof {
                    lemma_sum_prefix(s@, i + 1);
                }
                return None;
            },
        }
        i = i + 1;
    }
    proof {
        assert(s@.subrange(0, i as int) =~= s@);
    }
    Some(acc)
}

} // verus!
