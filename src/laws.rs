use vstd::prelude::*;

use crate::encoding::tx_id;
use crate::processor::{spends, submitted, TransactionProcessor};
use crate::types::{RejectReason, TxModel, TxOutput, UtxoRef};
use crate::validation::{validated_as, validation, ValidatedTransfer};

verus! {

/// What committing `t` burns: the surplus of its inputs over its outputs.
pub open spec fn surplus(store: Map<UtxoRef, TxOutput>, t: TxModel, ap: Seq<bool>) -> int {
    validation(store, t, ap)->Ok_0.0 - validation(store, t, ap)->Ok_0.1
}

/// The surplus burned by the first `n` steps of a history.
pub open spec fn burned_over(
    states: Seq<TransactionProcessor>,
    txs: Seq<TxModel>,
    verdicts: Seq<Seq<bool>>,
    n: nat,
) -> int
    decreases n,
{
    if n == 0 {
        0
    } else {
        burned_over(states, txs, verdicts, (n - 1) as nat) + surplus(
            states[n - 1].store()@,
            txs[n - 1],
            verdicts[n - 1],
        )
    }
}

/// Conservation. Along any history of successful submissions, the supply at
/// the end is the supply at the start less the surplus that each transaction
/// burned; it never grows. The supply of any ledger is what was injected at
/// genesis less what was burned.
pub proof fn lemma_conservation(
    states: Seq<TransactionProcessor>,
    txs: Seq<TxModel>,
    verdicts: Seq<Seq<bool>>,
    ids: Seq<[u8; 32]>,
)
    requires
        states.len() == txs.len() + 1,
        verdicts.len() == txs.len(),
        ids.len() == txs.len(),
        forall|i: int| 0 <= i < states.len() ==> #[trigger] states[i].wf(),
        forall|i: int|
            0 <= i < txs.len() ==> #[trigger] submitted(
                states[i],
                states[i + 1],
                txs[i],
                verdicts[i],
                Ok(ids[i]),
            ),
    ensures
        states.last().supply() == states[0].supply() - burned_over(
            states,
            txs,
            verdicts,
            txs.len(),
        ),
        states.last().supply() <= states[0].supply(),
    decreases txs.len(),
{
    if txs.len() > 0 {
        let n = txs.len() - 1;
        lemma_conservation(
            states.drop_last(),
            txs.drop_last(),
            verdicts.drop_last(),
            ids.drop_last(),
        );
        assert(states.drop_last().last() == states[n]);
        assert forall|k: nat| k <= n implies burned_over(
            states.drop_last(),
            txs.drop_last(),
            verdicts.drop_last(),
            k,
        ) == burned_over(states, txs, verdicts, k) by {
            lemma_burned_over_prefix(states, txs, verdicts, k);
        }
        assert(states[0].wf());
        assert(states[n].wf());
        assert(states[n + 1].wf());
        assert(submitted(states[n], states[n + 1], txs[n], verdicts[n], Ok(ids[n])));
        assert(states.last() == states[n + 1]);
        assert(states.drop_last()[0] == states[0]);
        let sums = validation(states[n].store()@, txs[n], verdicts[n])->Ok_0;
        assert(validation(states[n].store()@, txs[n], verdicts[n]) is Ok);
        assert(states[n + 1].burned_total() == states[n].burned_total() + sums.0 - sums.1);
        assert(states[n + 1].genesis_total() == states[n].genesis_total());
        crate::validation::lemma_input_scan_bounds(
            states[n].store()@,
            txs[n].inputs,
            txs[n].inputs.len(),
        );
        crate::validation::lemma_sum_outputs_nonneg(txs[n].outputs);
        assert(sums.0 >= sums.1);
        assert(burned_over(states, txs, verdicts, txs.len()) == burned_over(
            states,
            txs,
            verdicts,
            n as nat,
        ) + surplus(states[n].store()@, txs[n], verdicts[n]));
    }
}

/// Conservation at every moment: the supply of a ledger is what was injected
/// at genesis less what its transactions burned.
pub proof fn lemma_supply_accounts_for_history(p: TransactionProcessor)
    requires
        p.wf(),
    ensures
        p.supply() == p.genesis_total() - p.burned_total(),
        p.burned_total() >= 0,
{
}

proof fn lemma_burned_over_prefix(
    states: Seq<TransactionProcessor>,
    txs: Seq<TxModel>,
    verdicts: Seq<Seq<bool>>,
    k: nat,
)
    requires
        states.len() == txs.len() + 1,
        verdicts.len() == txs.len(),
        k < txs.len(),
    ensures
        burned_over(states.drop_last(), txs.drop_last(), verdicts.drop_last(), k) == burned_over(
            states,
            txs,
            verdicts,
            k,
        ),
    decreases k,
{
    if k > 0 {
        lemma_burned_over_prefix(states, txs, verdicts, (k - 1) as nat);
    }
}

/// No double spend: two committed transactions that spend the same output
/// are the same transaction.
pub proof fn lemma_no_double_spend(p: TransactionProcessor, r: UtxoRef, i: int, j: int)
    requires
        p.wf(),
        0 <= i < p.committed().len(),
        0 <= j < p.committed().len(),
        spends(p.committed()[i], r),
        spends(p.committed()[j], r),
    ensures
        i == j,
{
}

/// Atomicity: a submission that is refused leaves the ledger exactly as it
/// was.
pub proof fn lemma_refusal_changes_nothing(
    old: TransactionProcessor,
    new: TransactionProcessor,
    t: TxModel,
    ap: Seq<bool>,
    r: Result<[u8; 32], RejectReason>,
)
    requires
        submitted(old, new, t, ap, r),
        r is Err,
    ensures
        new == old,
{
}

/// Determinism: validating the same transaction against the same store with
/// the same verdicts gives the same result.
pub proof fn lemma_validation_deterministic(
    store: Map<UtxoRef, TxOutput>,
    t: TxModel,
    ap: Seq<bool>,
    r1: Result<ValidatedTransfer, RejectReason>,
    r2: Result<ValidatedTransfer, RejectReason>,
)
    requires
        validated_as(store, t, ap, r1),
        validated_as(store, t, ap, r2),
    ensures
        r1 is Ok <==> r2 is Ok,
        r1 is Err ==> r1->Err_0 == r2->Err_0,
        r1 is Ok ==> r1->Ok_0.input_sum == r2->Ok_0.input_sum && r1->Ok_0.output_sum
            == r2->Ok_0.output_sum && r1->Ok_0.consumed@ == r2->Ok_0.consumed@
            && r1->Ok_0.produced@ == r2->Ok_0.produced@,
{
}

/// Determinism of ids: transactions with the same content have the same id.
pub proof fn lemma_id_of_equal_content(t1: TxModel, t2: TxModel)
    requires
        t1 == t2,
    ensures
        tx_id(t1) == tx_id(t2),
{
}

} // verus!
