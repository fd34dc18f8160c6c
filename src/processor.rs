use vstd::prelude::*;

use crate::encoding::{compute_id, tx_id};
use crate::store::UtxoDatabase;
use crate::types::{RejectReason, Transaction, TxInput, TxModel, TxOutput, UtxoRef};
use crate::validation::{
    collect_approvals,
    input_scan,
    lemma_input_scan_bounds,
    lemma_input_scan_stays,
    pre_authorization,
    sum_outputs,
    validate_with_approvals,
    validation,
    verdicts,
    Authorizer,
    first_duplicate,
};

verus! {

broadcast use vstd::array::group_array_axioms;

/// Some input of `ins` spends `r`.
pub open spec fn spends_in(ins: Seq<TxInput>, r: UtxoRef) -> bool {
    exists|k: int| 0 <= k < ins.len() && #[trigger] ins[k].utxo_ref == r
}

/// Transaction `t` spends `r`.
pub open spec fn spends(t: TxModel, r: UtxoRef) -> bool {
    spends_in(t.inputs, r)
}

/// `m` without the outputs that `ins` spend.
pub open spec fn without_spent(m: Map<UtxoRef, TxOutput>, ins: Seq<TxInput>) -> Map<
    UtxoRef,
    TxOutput,
> {
    Map::new(|r: UtxoRef| m.contains_key(r) && !spends_in(ins, r), |r: UtxoRef| m[r])
}

/// `r` names output `r.vout` of the transaction with id `id`, which has
/// `n` outputs.
pub open spec fn is_new_ref(r: UtxoRef, id: Seq<u8>, n: int) -> bool {
    r.txid@ == id && r.vout < n
}

/// `m` with the first `n` of `outs` added, as outputs of the transaction with
/// id `id`.
pub open spec fn with_outputs(
    m: Map<UtxoRef, TxOutput>,
    id: Seq<u8>,
    outs: Seq<TxOutput>,
    n: int,
) -> Map<UtxoRef, TxOutput> {
    Map::new(
        |r: UtxoRef| m.contains_key(r) || is_new_ref(r, id, n),
        |r: UtxoRef|
            if is_new_ref(r, id, n) {
                outs[r.vout as int]
            } else {
                m[r]
            },
    )
}

/// The store `m` after committing `t`: what `t` spends is gone, and each of
/// its outputs stands under its id and its position.
pub open spec fn committed_store(m: Map<UtxoRef, TxOutput>, t: TxModel) -> Map<UtxoRef, TxOutput> {
    with_outputs(without_spent(m, t.inputs), tx_id(t), t.outputs, t.outputs.len() as int)
}

proof fn lemma_spends_in_extend(ins: Seq<TxInput>, i: int, r: UtxoRef)
    requires
        0 <= i < ins.len(),
    ensures
        spends_in(ins.subrange(0, i + 1), r) == (spends_in(ins.subrange(0, i), r)
            || ins[i].utxo_ref == r),
{
    if spends_in(ins.subrange(0, i + 1), r) {
        let k = choose|k: int| 0 <= k < i + 1 && #[trigger] ins.subrange(0, i + 1)[k].utxo_ref == r;
        if k < i {
            assert(ins.subrange(0, i)[k].utxo_ref == r);
        }
    }
    if spends_in(ins.subrange(0, i), r) {
        let k = choose|k: int| 0 <= k < i && #[trigger] ins.subrange(0, i)[k].utxo_ref == r;
        assert(ins.subrange(0, i + 1)[k].utxo_ref == r);
    }
    if ins[i].utxo_ref == r {
        assert(ins.subrange(0, i + 1)[i].utxo_ref == r);
    }
}

/// No duplicate among the inputs means that any two of them spend different
/// outputs.
proof fn lemma_no_duplicate_distinct(ins: Seq<TxInput>, n: nat)
    requires
        n <= ins.len(),
        first_duplicate(ins, n) is None,
    ensures
        forall|a: int, b: int|
            0 <= a < b < n ==> #[trigger] ins[a].utxo_ref != #[trigger] ins[b].utxo_ref,
    decreases n,
{
    if n > 0 {
        lemma_no_duplicate_distinct(ins, (n - 1) as nat);
        assert forall|a: int, b: int| 0 <= a < b < n implies #[trigger] ins[a].utxo_ref
            != #[trigger] ins[b].utxo_ref by {
            if b == n - 1 {
                if ins[a].utxo_ref == ins[b].utxo_ref {
                    assert(exists|i: int|
                        0 <= i < n - 1 && #[trigger] ins[i].utxo_ref == ins[n - 1].utxo_ref);
                }
            }
        }
    }
}

/// The input scan succeeds on every prefix of a list on which it succeeds.
proof fn lemma_input_scan_prefix(store: Map<UtxoRef, TxOutput>, ins: Seq<TxInput>, k: nat, n: nat)
    requires
        k <= n,
        input_scan(store, ins, n) is Ok,
    ensures
        input_scan(store, ins, k) is Ok,
{
    if input_scan(store, ins, k) is Err {
        lemma_input_scan_stays(store, ins, k, n);
    }
}

/// The ledger: the store of spendable outputs and the committed transactions,
/// in commit order.
pub struct TransactionProcessor {
    utxo_db: UtxoDatabase,
    mempool: Vec<Transaction>,
    genesis_total: Ghost<int>,
    burned_total: Ghost<int>,
}

/// `new` is `old` after a call that submitted `t`, where `ap` holds the
/// authorizer's verdicts on its inputs, and returned `r`. A refusal changes
/// nothing. A success spends the inputs, adds the outputs under the new id,
/// appends `t` to the committed transactions and burns the surplus.
pub open spec fn submitted(
    old: TransactionProcessor,
    new: TransactionProcessor,
    t: TxModel,
    ap: Seq<bool>,
    r: Result<[u8; 32], RejectReason>,
) -> bool {
    match validation(old.store()@, t, ap) {
        Err(e) => r == Err::<[u8; 32], RejectReason>(e) && new == old,
        Ok(sums) => if exists|q: UtxoRef|
            is_new_ref(q, tx_id(t), t.outputs.len() as int) && #[trigger] old.known(q) {
            r == Err::<[u8; 32], RejectReason>(RejectReason::DuplicateUtxo) && new == old
        } else {
            &&& r is Ok
            &&& r->Ok_0@ == tx_id(t)
            &&& new.store()@ == committed_store(old.store()@, t)
            &&& new.committed() == old.committed().push(t)
            &&& new.genesis_total() == old.genesis_total()
            &&& new.burned_total() == old.burned_total() + sums.0 - sums.1
        },
    }
}

impl TransactionProcessor {
    /// The store of spendable outputs.
    pub closed spec fn store(&self) -> UtxoDatabase {
        self.utxo_db
    }

    /// The committed transactions, in commit order.
    pub closed spec fn committed(&self) -> Seq<TxModel> {
        self.mempool@.map_values(|t: Transaction| t@)
    }

    /// The value of every output ever injected without a transaction.
    pub closed spec fn genesis_total(&self) -> int {
        self.genesis_total@
    }

    /// The surplus of inputs over outputs of every committed transaction.
    pub closed spec fn burned_total(&self) -> int {
        self.burned_total@
    }

    /// The total value of the spendable outputs.
    pub open spec fn supply(&self) -> int {
        self.store().total()
    }

    /// Some committed transaction spends `r`.
    pub open spec fn spent(&self, r: UtxoRef) -> bool {
        exists|i: int| 0 <= i < self.committed().len() && spends(#[trigger] self.committed()[i], r)
    }

    /// `r` is spendable now or was spent before.
    pub open spec fn known(&self, r: UtxoRef) -> bool {
        self.store()@.contains_key(r) || self.spent(r)
    }

    pub open spec fn wf(&self) -> bool {
        &&& self.store().wf()
        &&& self.burned_total() >= 0
        &&& self.supply() == self.genesis_total() - self.burned_total()
        &&& self.supply() <= u64::MAX
        &&& forall|i: int, j: int, r: UtxoRef|
            0 <= i < self.committed().len() && 0 <= j < self.committed().len() && #[trigger] spends(
                self.committed()[i],
                r,
            ) && #[trigger] spends(self.committed()[j], r) ==> i == j
        &&& forall|r: UtxoRef| self.spent(r) ==> !self.store()@.contains_key(r)
    }

    pub fn new() -> (p: Self)
        ensures
            p.wf(),
            p.store()@ == Map::<UtxoRef, TxOutput>::empty(),
            p.committed() == Seq::<TxModel>::empty(),
            p.genesis_total() == 0,
            p.burned_total() == 0,
    {
        let p = TransactionProcessor {
            utxo_db: UtxoDatabase::new(),
            mempool: Vec::new(),
            genesis_total: Ghost(0),
            burned_total: Ghost(0),
        };
        assert(p.committed() =~= Seq::<TxModel>::empty());
        p
    }

    /// The position of the first committed transaction that spends `r`.
    fn spender_index(&self, r: &UtxoRef) -> (res: Option<usize>)
        ensures
            match res {
                Some(i) => i < self.committed().len() && spends(self.committed()[i as int], *r)
                    && forall|j: int| 0 <= j < i ==> !spends(#[trigger] self.committed()[j], *r),
                None => !self.spent(*r),
            },
    {
        let mut i: usize = 0;
        while i < self.mempool.len()
            invariant
                i <= self.mempool@.len(),
                forall|j: int| 0 <= j < i ==> !spends(#[trigger] self.committed()[j], *r),
            decreases self.mempool@.len() - i,
        {
            let tx = &self.mempool[i];
            assert(self.committed()[i as int] == tx@);
            let mut k: usize = 0;
            while k < tx.inputs.len()
                invariant
                    i < self.mempool@.len(),
                    self.committed()[i as int] == tx@,
                    forall|j: int| 0 <= j < i ==> !spends(#[trigger] self.committed()[j], *r),
                    k <= tx.inputs@.len(),
                    forall|m: int| 0 <= m < k ==> tx.inputs@[m].utxo_ref != *r,
                decreases tx.inputs@.len() - k,
            {
                if tx.inputs[k].utxo_ref == *r {
                    assert(tx@.inputs[k as int].utxo_ref == *r);
                    assert(spends(tx@, *r));
                    return Some(i);
                }
                k = k + 1;
            }
            proof {
                if spends(tx@, *r) {
                    let m = choose|m: int| 0 <= m < tx@.inputs.len() && #[trigger] tx@.inputs[m].utxo_ref == *r;
                    assert(tx.inputs@[m].utxo_ref == *r);
                }
            }
            i = i + 1;
        }
        None
    }

    /// Whether `r` is spendable now or was spent before.
    fn is_known(&self, r: &UtxoRef) -> (res: bool)
        requires
            self.wf(),
        ensures
            res == self.known(*r),
    {
        match self.utxo_db.get_utxo(r) {
            Some(_) => true,
            None => self.spender_index(r).is_some(),
        }
    }

    /// Whether one of the first `n` outputs of the transaction with id `id`
    /// would take a reference that is or was in use.
    fn new_refs_collide(&self, id: &[u8; 32], n: usize) -> (res: bool)
        requires
            self.wf(),
            n <= u32::MAX,
        ensures
            res == exists|q: UtxoRef| is_new_ref(q, id@, n as int) && #[trigger] self.known(q),
    {
        let mut k: usize = 0;
        while k < n
            invariant
                self.wf(),
                n <= u32::MAX,
                k <= n,
                forall|q: UtxoRef| #[trigger] is_new_ref(q, id@, k as int) ==> !self.known(q),
            decreases n - k,
        {
            let q = UtxoRef { txid: *id, vout: k as u32 };
            if self.is_known(&q) {
                assert(is_new_ref(q, id@, n as int));
                return true;
            }
            assert forall|q2: UtxoRef| #[trigger] is_new_ref(q2, id@, k + 1) implies !self.known(
                q2,
            ) by {
                if q2.vout == k {
                    assert(q2.txid =~= *id);
                    assert(q2 == q);
                } else {
                    assert(is_new_ref(q2, id@, k as int));
                }
            }
            k = k + 1;
        }
        false
    }

    /// Injects an output without a transaction, as a chain sync does. It is
    /// refused where `utxo_ref` is or was in use, and where the total value
    /// would no longer fit in 64 bits.
    pub fn add_genesis_utxo(&mut self, utxo_ref: UtxoRef, output: TxOutput) -> (r: Result<
        (),
        RejectReason,
    >)
        requires
            old(self).wf(),
        ensures
            final(self).wf(),
            old(self).known(utxo_ref) ==> r == Err::<(), RejectReason>(RejectReason::DuplicateUtxo),
            !old(self).known(utxo_ref) && old(self).supply() + output.amount > u64::MAX ==> r
                == Err::<(), RejectReason>(RejectReason::SupplyOverflow),
            r is Err ==> *final(self) == *old(self),
            r is Ok <==> !old(self).known(utxo_ref) && old(self).supply() + output.amount
                <= u64::MAX,
            r is Ok ==> final(self).store()@ == old(self).store()@.insert(utxo_ref, output),
            r is Ok ==> final(self).committed() == old(self).committed(),
            r is Ok ==> final(self).genesis_total() == old(self).genesis_total() + output.amount,
            r is Ok ==> final(self).burned_total() == old(self).burned_total(),
    {
        if self.is_known(&utxo_ref) {
            return Err(RejectReason::DuplicateUtxo);
        }
        let total = self.get_total_supply();
        if total > u64::MAX - output.amount {
            return Err(RejectReason::SupplyOverflow);
        }
        let ghost before = self.committed();
        let res = self.utxo_db.add_utxo(utxo_ref, output);
        assert(res is Ok);
        self.genesis_total = Ghost(self.genesis_total@ + output.amount);
        proof {
            assert(self.committed() == before);
            assert forall|q: UtxoRef| self.spent(q) implies !self.store()@.contains_key(q) by {
                assert(old(self).spent(q));
            }
        }
        Ok(())
    }

    /// Validates `tx` against the store, asking `auth` about each input with
    /// the owner of the output it spends, and commits it if it passes. Returns the new transaction's id.
    pub fn validate_and_add_transaction<A: Authorizer>(&mut self, tx: Transaction, auth: &A) -> (r:
        Result<[u8; 32], RejectReason>)
        requires
            old(self).wf(),
        ensures
            final(self).wf(),
            r is Err ==> *final(self) == *old(self),
            final(self).supply() <= old(self).supply(),
            pre_authorization(old(self).store()@, tx@) is Err ==> r == Err::<[u8; 32], RejectReason>(
                pre_authorization(old(self).store()@, tx@)->Err_0,
            ),
            submitted(*old(self), *final(self), tx@, verdicts(*auth, old(self).store()@, tx@), r),
    {
        let approvals = match collect_approvals(&tx, &self.utxo_db, auth) {
            Err(e) => {
                return Err(e);
            },
            Ok(ap) => ap,
        };
        self.commit_with_approvals(tx, &approvals)
    }

    /// Validates `tx` against the store, where `approvals[i]` is the
    /// authorizer's verdict on input `i`, and commits it if it passes. Returns
    /// the new transaction's id.
    pub fn commit_with_approvals(&mut self, tx: Transaction, approvals: &Vec<bool>) -> (r: Result<
        [u8; 32],
        RejectReason,
    >)
        requires
            old(self).wf(),
        ensures
            final(self).wf(),
            r is Err ==> *final(self) == *old(self),
            final(self).supply() <= old(self).supply(),
            submitted(*old(self), *final(self), tx@, approvals@, r),
    {
        let v = match validate_with_approvals(&tx, &self.utxo_db, approvals) {
            Err(e) => {
                return Err(e);
            },
            Ok(v) => v,
        };
        let ghost t = tx@;
        let ghost m0 = self.utxo_db@;
        let ghost total0 = self.utxo_db.total();
        let ghost n = t.inputs.len();
        proof {
            lemma_input_scan_bounds(m0, t.inputs, n);
            lemma_no_duplicate_distinct(t.inputs, n);
            crate::validation::lemma_sum_outputs_nonneg(t.outputs);
        }
        let id = compute_id(&tx);
        let n_out = tx.outputs.len();
        // no output of the new transaction may take a reference that is or was in use
        if self.new_refs_collide(&id, n_out) {
            return Err(RejectReason::DuplicateUtxo);
        }
        proof {
            assert forall|q: UtxoRef| #[trigger] is_new_ref(q, id@, n_out as int) implies !old(
                self,
            ).known(q) && !m0.contains_key(q) by {
                if m0.contains_key(q) {
                    assert(old(self).known(q));
                }
            }
        }
        // spend the inputs
        let mut i: usize = 0;
        while i < v.consumed.len()
            invariant
                self.utxo_db.wf(),
                self.mempool == old(self).mempool,
                self.genesis_total == old(self).genesis_total,
                self.burned_total == old(self).burned_total,
                v.consumed@ == crate::validation::spent_refs(t.inputs),
                n == t.inputs.len(),
                i <= n,
                input_scan(m0, t.inputs, n) is Ok,
                forall|k: int| 0 <= k < n ==> m0.contains_key(#[trigger] t.inputs[k].utxo_ref),
                forall|a: int, b: int|
                    0 <= a < b < n ==> #[trigger] t.inputs[a].utxo_ref
                        != #[trigger] t.inputs[b].utxo_ref,
                self.utxo_db@ == without_spent(m0, t.inputs.subrange(0, i as int)),
                input_scan(m0, t.inputs, i as nat) is Ok,
                self.utxo_db.total() == total0 - input_scan(m0, t.inputs, i as nat)->Ok_0,
            decreases n - i,
        {
            let ghost before = self.utxo_db@;
            let ghost r = t.inputs[i as int].utxo_ref;
            proof {
                assert(v.consumed@[i as int] == r);
                lemma_input_scan_prefix(m0, t.inputs, (i + 1) as nat, n);
                if spends_in(t.inputs.subrange(0, i as int), r) {
                    let k = choose|k: int|
                        0 <= k < i && #[trigger] t.inputs.subrange(0, i as int)[k].utxo_ref == r;
                    assert(t.inputs[k].utxo_ref == r);
                }
                assert(before.contains_key(r));
                assert(before[r] == m0[r]);
            }
            let removed = self.utxo_db.remove_utxo(&v.consumed[i]);
            proof {
                assert forall|q: UtxoRef| #[trigger] self.utxo_db@.contains_key(q) == without_spent(
                    m0,
                    t.inputs.subrange(0, i + 1),
                ).contains_key(q) by {
                    lemma_spends_in_extend(t.inputs, i as int, q);
                }
                assert(self.utxo_db@ =~= without_spent(m0, t.inputs.subrange(0, i + 1)));
            }
            i = i + 1;
        }
        assert(t.inputs.subrange(0, n as int) =~= t.inputs);
        let ghost m1 = self.utxo_db@;
        let ghost total1 = self.utxo_db.total();
        // add the outputs under the new id
        let mut k: usize = 0;
        while k < n_out
            invariant
                self.utxo_db.wf(),
                self.mempool == old(self).mempool,
                self.genesis_total == old(self).genesis_total,
                self.burned_total == old(self).burned_total,
                n_out == t.outputs.len() <= u32::MAX,
                v.produced@ == t.outputs,
                k <= n_out,
                id@ == tx_id(t),
                m1 == without_spent(m0, t.inputs),
                forall|q: UtxoRef| #[trigger] is_new_ref(q, id@, n_out as int) ==> !m1.contains_key(
                    q,
                ),
                self.utxo_db@ == with_outputs(m1, id@, t.outputs, k as int),
                self.utxo_db.total() == total1 + sum_outputs(t.outputs.subrange(0, k as int)),
            decreases n_out - k,
        {
            let q = UtxoRef { txid: id, vout: k as u32 };
            proof {
                assert(is_new_ref(q, id@, n_out as int));
                assert(!is_new_ref(q, id@, k as int));
                assert(t.outputs.subrange(0, k + 1).drop_last() =~= t.outputs.subrange(0, k as int));
            }
            let res = self.utxo_db.add_utxo(q, v.produced[k]);
            proof {
                assert(res is Ok);
                assert forall|q2: UtxoRef| #[trigger] self.utxo_db@.contains_key(q2)
                    == with_outputs(m1, id@, t.outputs, k + 1).contains_key(q2) by {
                    if q2.txid@ == id@ && q2.vout == k {
                        assert(q2.txid =~= id);
                    }
                }
                assert forall|q2: UtxoRef| #[trigger] self.utxo_db@.contains_key(q2) implies self.utxo_db@[q2]
                    == with_outputs(m1, id@, t.outputs, k + 1)[q2] by {
                    if q2.txid@ == id@ && q2.vout == k {
                        assert(q2.txid =~= id);
                    }
                }
                assert(self.utxo_db@ =~= with_outputs(m1, id@, t.outputs, k + 1));
            }
            k = k + 1;
        }
        assert(t.outputs.subrange(0, n_out as int) =~= t.outputs);
        let ghost old_committed = self.committed();
        self.mempool.push(tx);
        self.burned_total = Ghost(self.burned_total@ + v.input_sum - v.output_sum);
        proof {
            assert(self.committed() =~= old_committed.push(t));
            let prior = *old(self);
            assert(self.utxo_db@ == committed_store(m0, t));
            assert(v.input_sum == input_scan(m0, t.inputs, n)->Ok_0);
            assert(v.output_sum == sum_outputs(t.outputs));
            assert(self.supply() == prior.supply() - v.input_sum + v.output_sum);
            assert(self.supply() == self.genesis_total() - self.burned_total());
            assert(!(exists|q: UtxoRef| is_new_ref(q, tx_id(t), t.outputs.len() as int) && #[trigger] prior.known(q)));
            // outputs spent now were not spendable before, nor will be again
            assert forall|q: UtxoRef| self.spent(q) implies !self.store()@.contains_key(q) by {
                let i = choose|i: int| 0 <= i < self.committed().len() && spends(#[trigger] self.committed()[i], q);
                if i == old_committed.len() {
                    let k = choose|k: int| 0 <= k < t.inputs.len() && #[trigger] t.inputs[k].utxo_ref == q;
                    assert(m0.contains_key(q));
                    assert(prior.known(q));
                    assert(!is_new_ref(q, id@, n_out as int));
                    assert(!m1.contains_key(q));
                } else {
                    assert(prior.committed()[i] == self.committed()[i]);
                    assert(prior.spent(q));
                    assert(prior.known(q));
                    assert(!is_new_ref(q, id@, n_out as int));
                    assert(!m0.contains_key(q));
                }
            }
            assert forall|i: int, j: int, q: UtxoRef|
                0 <= i < self.committed().len() && 0 <= j < self.committed().len() && #[trigger] spends(
                    self.committed()[i],
                    q,
                ) && #[trigger] spends(self.committed()[j], q) implies i == j by {
                if i != j {
                    if i < old_committed.len() && j < old_committed.len() {
                        assert(prior.committed()[i] == self.committed()[i]);
                        assert(prior.committed()[j] == self.committed()[j]);
                    } else {
                        let o = if i < old_committed.len() { i } else { j };
                        assert(prior.committed()[o] == self.committed()[o]);
                        assert(prior.spent(q));
                        let k = choose|k: int| 0 <= k < t.inputs.len() && #[trigger] t.inputs[k].utxo_ref == q;
                        assert(m0.contains_key(q));
                    }
                }
            }
        }
        Ok(id)
    }

    /// The first committed transaction, in commit order, that spends
    /// `utxo_ref`.
    pub fn get_transaction_by_input(&self, utxo_ref: &UtxoRef) -> (res: Option<&Transaction>)
        ensures
            match res {
                Some(t) => exists|i: int|
                    0 <= i < self.committed().len() && self.committed()[i] == t@ && spends(t@, *utxo_ref)
                        && forall|j: int| 0 <= j < i ==> !spends(#[trigger] self.committed()[j], *utxo_ref),
                None => !self.spent(*utxo_ref),
            },
    {
        match self.spender_index(utxo_ref) {
            Some(i) => Some(&self.mempool[i]),
            None => None,
        }
    }

    /// The total value of the spendable outputs.
    pub fn get_total_supply(&self) -> (r: u64)
        requires
            self.wf(),
        ensures
            r == self.supply(),
    {
        match self.utxo_db.total_value() {
            Ok(v) => v,
            Err(_) => 0,
        }
    }

    /// The output that `utxo_ref` names, if it is spendable.
    pub fn get_utxo(&self, utxo_ref: &UtxoRef) -> (r: Option<&TxOutput>)
        requires
            self.wf(),
        ensures
            match r {
                Some(o) => self.store()@.contains_key(*utxo_ref) && *o == self.store()@[*utxo_ref],
                None => !self.store()@.contains_key(*utxo_ref),
            },
    {
        self.utxo_db.get_utxo(utxo_ref)
    }

    /// The store of spendable outputs.
    pub fn utxo_db(&self) -> (r: &UtxoDatabase)
        ensures
            *r == self.store(),
    {
        &self.utxo_db
    }

    /// The committed transactions, in commit order.
    pub fn mempool(&self) -> (r: &Vec<Transaction>)
        ensures
            r@.map_values(|t: Transaction| t@) == self.committed(),
    {
        &self.mempool
    }
}

} // verus!
