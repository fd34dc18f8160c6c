use vstd::prelude::*;

use crate::store::UtxoDatabase;
use crate::types::{RejectReason, Transaction, TxInput, TxModel, TxOutput, UtxoRef};

verus! {

/// The oldest transaction format version that is accepted.
pub const MIN_VERSION: u32 = 1;

/// The newest transaction format version that is accepted.
pub const MAX_VERSION: u32 = 2;

/// Decides whether an input may spend an output paid to `owner`. This is
/// where signature checking plugs in. Each implementation says, in
/// `approves`, which inputs it accepts, and `authorize` answers accordingly.
pub trait Authorizer {
    /// Whether `input` may spend an output paid to `owner`.
    spec fn approves(&self, input: TxInput, owner: [u8; 20]) -> bool;

    fn authorize(&self, input: &TxInput, owner: &[u8; 20]) -> (ok: bool)
        ensures
            ok == self.approves(*input, *owner),
    ;
}

/// Accepts every input: a transaction's proofs are checked elsewhere, or not
/// at all.
pub struct PermissiveAuthorizer;

impl Authorizer for PermissiveAuthorizer {
    open spec fn approves(&self, input: TxInput, owner: [u8; 20]) -> bool {
        true
    }

    fn authorize(&self, _input: &TxInput, _owner: &[u8; 20]) -> (ok: bool) {
        true
    }
}

/// No inputs, no outputs, more outputs than an output index can number, or an
/// unsupported version.
pub open spec fn malformed(t: TxModel) -> bool {
    t.inputs.len() == 0 || t.outputs.len() == 0 || t.outputs.len() > u32::MAX || t.version
        < MIN_VERSION || t.version > MAX_VERSION
}

/// Looks up the first `n` inputs in order and adds up what they spend: the sum,
/// or the first input that is missing, or an overflow of the sum.
pub open spec fn input_scan(store: Map<UtxoRef, TxOutput>, ins: Seq<TxInput>, n: nat) -> Result<
    int,
    RejectReason,
>
    decreases n,
{
    if n == 0 {
        Ok(0)
    } else {
        match input_scan(store, ins, (n - 1) as nat) {
            Err(e) => Err(e),
            Ok(s) => {
                let r = ins[n - 1].utxo_ref;
                if !store.contains_key(r) {
                    Err(RejectReason::UnknownInput(r))
                } else if s + store[r].amount > u64::MAX {
                    Err(RejectReason::AmountOverflow)
                } else {
                    Ok(s + store[r].amount)
                }
            },
        }
    }
}

/// Among the first `n` inputs, the first one that spends what an earlier one
/// spends.
pub open spec fn first_duplicate(ins: Seq<TxInput>, n: nat) -> Option<UtxoRef>
    decreases n,
{
    if n == 0 {
        None
    } else {
        match first_duplicate(ins, (n - 1) as nat) {
            Some(r) => Some(r),
            None => if exists|i: int| 0 <= i < n - 1 && #[trigger] ins[i].utxo_ref == ins[n - 1].utxo_ref {
                Some(ins[n - 1].utxo_ref)
            } else {
                None
            },
        }
    }
}

/// Among the first `n` inputs, the first one that the verdicts `ap` do not
/// approve; a missing verdict approves nothing.
pub open spec fn first_refused(ins: Seq<TxInput>, ap: Seq<bool>, n: nat) -> Option<UtxoRef>
    decreases n,
{
    if n == 0 {
        None
    } else {
        match first_refused(ins, ap, (n - 1) as nat) {
            Some(r) => Some(r),
            None => if !(n - 1 < ap.len() && ap[n - 1]) {
                Some(ins[n - 1].utxo_ref)
            } else {
                None
            },
        }
    }
}

/// The sum of the amounts of `outs`.
pub open spec fn sum_outputs(outs: Seq<TxOutput>) -> int
    decreases outs.len(),
{
    if outs.len() == 0 {
        0
    } else {
        sum_outputs(outs.drop_last()) + outs.last().amount
    }
}

/// The checks that come before authorization: structure, existence and sum of
/// the inputs, then duplicates. On success, the sum of the inputs.
pub open spec fn pre_authorization(store: Map<UtxoRef, TxOutput>, t: TxModel) -> Result<
    int,
    RejectReason,
> {
    if malformed(t) {
        Err(RejectReason::Malformed)
    } else {
        match input_scan(store, t.inputs, t.inputs.len()) {
            Err(e) => Err(e),
            Ok(have) => match first_duplicate(t.inputs, t.inputs.len()) {
                Some(r) => Err(RejectReason::DuplicateInput(r)),
                None => Ok(have),
            },
        }
    }
}

/// The verdict on `t` against `store`, where `ap[i]` is the authorizer's
/// answer on input `i`: the sums of inputs and outputs, or the first reason
/// to refuse, in the order structure, existence, duplicates, authorization,
/// sum of outputs, balance.
pub open spec fn validation(store: Map<UtxoRef, TxOutput>, t: TxModel, ap: Seq<bool>) -> Result<
    (u64, u64),
    RejectReason,
> {
    match pre_authorization(store, t) {
        Err(e) => Err(e),
        Ok(have) => match first_refused(t.inputs, ap, t.inputs.len()) {
            Some(r) => Err(RejectReason::UnauthorizedInput(r)),
            None => {
                let need = sum_outputs(t.outputs);
                if need > u64::MAX {
                    Err(RejectReason::AmountOverflow)
                } else if have < need {
                    Err(RejectReason::InsufficientInputs { have: have as u64, need: need as u64 })
                } else {
                    Ok((have as u64, need as u64))
                }
            },
        },
    }
}

/// The verdicts of `auth` on the inputs of `t`, each input put to it with the
/// owner of the output in `store` that it spends.
pub open spec fn verdicts<A: Authorizer>(auth: A, store: Map<UtxoRef, TxOutput>, t: TxModel) -> Seq<
    bool,
> {
    Seq::new(
        t.inputs.len(),
        |i: int| auth.approves(t.inputs[i], store[t.inputs[i].utxo_ref].address),
    )
}

/// The references that `inputs` spend, in order.
pub open spec fn spent_refs(inputs: Seq<TxInput>) -> Seq<UtxoRef> {
    inputs.map_values(|i: TxInput| i.utxo_ref)
}

pub proof fn lemma_input_scan_bounds(store: Map<UtxoRef, TxOutput>, ins: Seq<TxInput>, n: nat)
    requires
        n <= ins.len(),
        input_scan(store, ins, n) is Ok,
    ensures
        forall|k: int| 0 <= k < n ==> store.contains_key(#[trigger] ins[k].utxo_ref),
        0 <= input_scan(store, ins, n)->Ok_0 <= u64::MAX,
    decreases n,
{
    if n > 0 {
        lemma_input_scan_bounds(store, ins, (n - 1) as nat);
    }
}

/// Once the scan of the inputs has failed, it fails the same way on every
/// longer prefix.
pub proof fn lemma_input_scan_stays(store: Map<UtxoRef, TxOutput>, ins: Seq<TxInput>, k: nat, m: nat)
    requires
        k <= m,
        input_scan(store, ins, k) is Err,
    ensures
        input_scan(store, ins, m) == input_scan(store, ins, k),
    decreases m - k,
{
    if k < m {
        lemma_input_scan_stays(store, ins, k, (m - 1) as nat);
    }
}

pub proof fn lemma_first_duplicate_stays(ins: Seq<TxInput>, k: nat, m: nat)
    requires
        k <= m,
        first_duplicate(ins, k) is Some,
    ensures
        first_duplicate(ins, m) == first_duplicate(ins, k),
    decreases m - k,
{
    if k < m {
        lemma_first_duplicate_stays(ins, k, (m - 1) as nat);
    }
}

pub proof fn lemma_first_refused_stays(ins: Seq<TxInput>, ap: Seq<bool>, k: nat, m: nat)
    requires
        k <= m,
        first_refused(ins, ap, k) is Some,
    ensures
        first_refused(ins, ap, m) == first_refused(ins, ap, k),
    decreases m - k,
{
    if k < m {
        lemma_first_refused_stays(ins, ap, k, (m - 1) as nat);
    }
}

pub proof fn lemma_sum_outputs_prefix(outs: Seq<TxOutput>, k: int)
    requires
        0 <= k <= outs.len(),
    ensures
        0 <= sum_outputs(outs.subrange(0, k)) <= sum_outputs(outs),
    decreases outs.len() - k,
{
    if k < outs.len() {
        lemma_sum_outputs_prefix(outs, k + 1);
        lemma_sum_outputs_nonneg(outs.subrange(0, k));
        assert(outs.subrange(0, k + 1).drop_last() =~= outs.subrange(0, k));
    } else {
        assert(outs.subrange(0, k) =~= outs);
        lemma_sum_outputs_nonneg(outs);
    }
}

pub proof fn lemma_sum_outputs_nonneg(outs: Seq<TxOutput>)
    ensures
        sum_outputs(outs) >= 0,
    decreases outs.len(),
{
    if outs.len() > 0 {
        lemma_sum_outputs_nonneg(outs.drop_last());
    }
}

/// What a transaction that passed validation takes away and adds.
pub struct ValidatedTransfer {
    /// The references spent, in input order.
    pub consumed: Vec<UtxoRef>,
    /// The outputs to create, in output order; their references are fixed
    /// when the transaction is committed.
    pub produced: Vec<TxOutput>,
    pub input_sum: u64,
    pub output_sum: u64,
}

/// `r` is what validation hands back for the verdict `validation(store, t, ap)`.
pub open spec fn validated_as(
    store: Map<UtxoRef, TxOutput>,
    t: TxModel,
    ap: Seq<bool>,
    r: Result<ValidatedTransfer, RejectReason>,
) -> bool {
    match r {
        Ok(v) => validation(store, t, ap) == Ok::<(u64, u64), RejectReason>(
            (v.input_sum, v.output_sum),
        ) && v.consumed@ == spent_refs(t.inputs) && v.produced@ == t.outputs,
        Err(e) => validation(store, t, ap) == Err::<(u64, u64), RejectReason>(e),
    }
}

/// Structure, then existence and sum of the inputs, then duplicates.
fn check_inputs(tx: &Transaction, store: &UtxoDatabase) -> (r: Result<u64, RejectReason>)
    requires
        store.wf(),
    ensures
        match r {
            Ok(h) => pre_authorization(store@, tx@) == Ok::<int, RejectReason>(h as int),
            Err(e) => pre_authorization(store@, tx@) == Err::<int, RejectReason>(e),
        },
{
    if tx.inputs.len() == 0 || tx.outputs.len() == 0 || tx.outputs.len() > u32::MAX as usize
        || tx.version < MIN_VERSION || tx.version > MAX_VERSION {
        return Err(RejectReason::Malformed);
    }
    let n = tx.inputs.len();
    let mut have: u64 = 0;
    let mut j: usize = 0;
    while j < n
        invariant
            n == tx.inputs@.len(),
            store.wf(),
            !malformed(tx@),
            j <= n,
            input_scan(store@, tx.inputs@, j as nat) == Ok::<int, RejectReason>(have as int),
        decreases n - j,
    {
        let r = tx.inputs[j].utxo_ref;
        match store.get_utxo(&r) {
            None => {
                proof {
                    lemma_input_scan_stays(store@, tx.inputs@, (j + 1) as nat, n as nat);
                }
                return Err(RejectReason::UnknownInput(r));
            },
            Some(o) => match have.checked_add(o.amount) {
                None => {
                    proof {
                        lemma_input_scan_stays(store@, tx.inputs@, (j + 1) as nat, n as nat);
                    }
                    return Err(RejectReason::AmountOverflow);
                },
                Some(v) => {
                    have = v;
                },
            },
        }
        j = j + 1;
    }
    let mut j: usize = 0;
    while j < n
        invariant
            n == tx.inputs@.len(),
            !malformed(tx@),
            input_scan(store@, tx.inputs@, n as nat) == Ok::<int, RejectReason>(have as int),
            j <= n,
            first_duplicate(tx.inputs@, j as nat) is None,
        decreases n - j,
    {
        let mut i: usize = 0;
        while i < j
            invariant
                n == tx.inputs@.len(),
                !malformed(tx@),
                input_scan(store@, tx.inputs@, n as nat) == Ok::<int, RejectReason>(have as int),
                first_duplicate(tx.inputs@, j as nat) is None,
                i <= j < n,
                forall|k: int| 0 <= k < i ==> tx.inputs@[k].utxo_ref != tx.inputs@[j as int].utxo_ref,
            decreases j - i,
        {
            if tx.inputs[i].utxo_ref == tx.inputs[j].utxo_ref {
                proof {
                    assert(tx.inputs@[i as int].utxo_ref == tx.inputs@[j as int].utxo_ref);
                    assert(first_duplicate(tx.inputs@, (j + 1) as nat) == Some(
                        tx.inputs@[j as int].utxo_ref,
                    ));
                    lemma_first_duplicate_stays(tx.inputs@, (j + 1) as nat, n as nat);
                }
                return Err(RejectReason::DuplicateInput(tx.inputs[j].utxo_ref));
            }
            i = i + 1;
        }
        j = j + 1;
    }
    Ok(have)
}

/// Adds up the outputs and checks the balance against `have`, the sum of the
/// inputs.
fn check_outputs(tx: &Transaction, have: u64) -> (r: Result<u64, RejectReason>)
    ensures
        match r {
            Ok(need) => need == sum_outputs(tx@.outputs) && have >= need,
            Err(e) => {
                ||| sum_outputs(tx@.outputs) > u64::MAX && e == RejectReason::AmountOverflow
                ||| sum_outputs(tx@.outputs) <= u64::MAX && have < sum_outputs(tx@.outputs)
                    && e == (RejectReason::InsufficientInputs {
                    have,
                    need: sum_outputs(tx@.outputs) as u64,
                })
            },
        },
{
    let mut need: u64 = 0;
    let mut i: usize = 0;
    while i < tx.outputs.len()
        invariant
            i <= tx.outputs@.len(),
            need == sum_outputs(tx.outputs@.subrange(0, i as int)),
        decreases tx.outputs@.len() - i,
    {
        proof {
            assert(tx.outputs@.subrange(0, i + 1).drop_last() =~= tx.outputs@.subrange(0, i as int));
        }
        match need.checked_add(tx.outputs[i].amount) {
            Some(v) => {
                need = v;
            },
            None => {
                proof {
                    lemma_sum_outputs_prefix(tx.outputs@, i + 1);
                }
                return Err(RejectReason::AmountOverflow);
            },
        }
        i = i + 1;
    }
    proof {
        assert(tx.outputs@.subrange(0, i as int) =~= tx.outputs@);
    }
    if have < need {
        return Err(RejectReason::InsufficientInputs { have, need });
    }
    Ok(need)
}

/// The references and outputs that an accepted transaction moves.
fn transfer_of(tx: &Transaction, have: u64, need: u64) -> (v: ValidatedTransfer)
    ensures
        v.consumed@ == spent_refs(tx@.inputs),
        v.produced@ == tx@.outputs,
        v.input_sum == have,
        v.output_sum == need,
{
    let mut consumed: Vec<UtxoRef> = Vec::new();
    let mut i: usize = 0;
    while i < tx.inputs.len()
        invariant
            i <= tx.inputs@.len(),
            consumed@ == spent_refs(tx.inputs@.subrange(0, i as int)),
        decreases tx.inputs@.len() - i,
    {
        consumed.push(tx.inputs[i].utxo_ref);
        i = i + 1;
        assert(spent_refs(tx.inputs@.subrange(0, i as int)) =~= consumed@);
    }
    assert(tx.inputs@.subrange(0, i as int) =~= tx.inputs@);
    let mut produced: Vec<TxOutput> = Vec::new();
    let mut i: usize = 0;
    while i < tx.outputs.len()
        invariant
            i <= tx.outputs@.len(),
            produced@ == tx.outputs@.subrange(0, i as int),
        decreases tx.outputs@.len() - i,
    {
        produced.push(tx.outputs[i]);
        i = i + 1;
        assert(tx.outputs@.subrange(0, i as int) =~= produced@);
    }
    assert(tx.outputs@.subrange(0, i as int) =~= tx.outputs@);
    ValidatedTransfer { consumed, produced, input_sum: have, output_sum: need }
}

/// Validates `tx` against `store`, where `approvals[i]` is the authorizer's
/// verdict on input `i`.
pub fn validate_with_approvals(
    tx: &Transaction,
    store: &UtxoDatabase,
    approvals: &Vec<bool>,
) -> (r: Result<ValidatedTransfer, RejectReason>)
    requires
        store.wf(),
    ensures
        validated_as(store@, tx@, approvals@, r),
{
    let have = match check_inputs(tx, store) {
        Err(e) => {
            return Err(e);
        },
        Ok(h) => h,
    };
    let n = tx.inputs.len();
    let mut i: usize = 0;
    while i < n
        invariant
            n == tx.inputs@.len(),
            pre_authorization(store@, tx@) == Ok::<int, RejectReason>(have as int),
            i <= n,
            first_refused(tx.inputs@, approvals@, i as nat) is None,
        decreases n - i,
    {
        if !(i < approvals.len() && approvals[i]) {
            proof {
                lemma_first_refused_stays(tx.inputs@, approvals@, (i + 1) as nat, n as nat);
            }
            return Err(RejectReason::UnauthorizedInput(tx.inputs[i].utxo_ref));
        }
        i = i + 1;
    }
    let need = match check_outputs(tx, have) {
        Err(e) => {
            return Err(e);
        },
        Ok(v) => v,
    };
    Ok(transfer_of(tx, have, need))
}

/// Validates `tx` against `store`, asking `auth` about each input once the
/// inputs are known to exist and to be distinct, each with the owner of the
/// output it spends. The result is the verdict for its answers.
pub fn validate<A: Authorizer>(tx: &Transaction, store: &UtxoDatabase, auth: &A) -> (r: Result<
    ValidatedTransfer,
    RejectReason,
>)
    requires
        store.wf(),
    ensures
        pre_authorization(store@, tx@) is Err ==> r == Err::<ValidatedTransfer, RejectReason>(
            pre_authorization(store@, tx@)->Err_0,
        ),
        validated_as(store@, tx@, verdicts(*auth, store@, tx@), r),
{
    let approvals = match collect_approvals(tx, store, auth) {
        Err(e) => {
            return Err(e);
        },
        Ok(ap) => ap,
    };
    validate_with_approvals(tx, store, &approvals)
}

/// Runs the checks that come before authorization, then asks `auth` about
/// each input in order, with the owner of the output it spends.
pub(crate) fn collect_approvals<A: Authorizer>(tx: &Transaction, store: &UtxoDatabase, auth: &A) -> (r: Result<
    Vec<bool>,
    RejectReason,
>)
    requires
        store.wf(),
    ensures
        match r {
            Ok(ap) => pre_authorization(store@, tx@) is Ok && ap@ == verdicts(*auth, store@, tx@),
            Err(e) => pre_authorization(store@, tx@) == Err::<int, RejectReason>(e),
        },
{
    match check_inputs(tx, store) {
        Err(e) => {
            return Err(e);
        },
        Ok(_) => {},
    }
    proof {
        lemma_input_scan_bounds(store@, tx@.inputs, tx@.inputs.len());
    }
    let n = tx.inputs.len();
    let mut approvals: Vec<bool> = Vec::new();
    let mut i: usize = 0;
    while i < n
        invariant
            n == tx.inputs@.len(),
            store.wf(),
            i <= n,
            approvals@.len() == i,
            forall|k: int| 0 <= k < n ==> store@.contains_key(#[trigger] tx.inputs@[k].utxo_ref),
            forall|k: int|
                0 <= k < i ==> approvals@[k] == auth.approves(
                    tx.inputs@[k],
                    store@[tx.inputs@[k].utxo_ref].address,
                ),
        decreases n - i,
    {
        let input = &tx.inputs[i];
        let ok = match store.get_utxo(&input.utxo_ref) {
            Some(o) => auth.authorize(input, &o.address),
            None => false,
        };
        approvals.push(ok);
        i = i + 1;
    }
    assert(approvals@ =~= verdicts(*auth, store@, tx@));
    Ok(approvals)
}

} // verus!
