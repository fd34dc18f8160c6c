use vstd::prelude::*;

use crate::store::{checked_sum, lemma_sum_prefix, sum_amounts, UtxoDatabase};
use crate::types::{RejectReason, Transaction, TxInput, TxOutput, UtxoRef};
use crate::validation::MIN_VERSION;

verus! {

broadcast use vstd::array::group_array_axioms;

/// The entries of `s` paid to `address`, in order.
pub open spec fn owned_entries(s: Seq<(UtxoRef, TxOutput)>, address: [u8; 20]) -> Seq<
    (UtxoRef, TxOutput),
>
    decreases s.len(),
{
    if s.len() == 0 {
        s
    } else if s.last().1.address == address {
        owned_entries(s.drop_last(), address).push(s.last())
    } else {
        owned_entries(s.drop_last(), address)
    }
}

/// The first-fit selection over `s` for `target` takes the first `k`
/// entries: the shortest prefix whose value reaches `target`.
pub open spec fn is_first_fit(s: Seq<(UtxoRef, TxOutput)>, target: int, k: int) -> bool {
    &&& 0 <= k <= s.len()
    &&& sum_amounts(s.subrange(0, k)) >= target
    &&& forall|j: int| 0 <= j < k ==> sum_amounts(#[trigger] s.subrange(0, j)) < target
}

/// The proof blob that a freshly built input carries until it is signed.
pub open spec fn unsigned(i: TxInput) -> bool {
    forall|k: int| 0 <= k < 64 ==> i.signature[k] == 0
}

/// `t` spends exactly `refs`, in order, with unsigned inputs; pays `amount` to
/// `recipient` and, where `total` exceeds `amount`, the difference to
/// `change_address`; and carries the default version and lock time.
pub open spec fn is_transfer(
    t: Transaction,
    refs: Seq<UtxoRef>,
    total: int,
    recipient: [u8; 20],
    amount: u64,
    change_address: [u8; 20],
) -> bool {
    &&& t.version == MIN_VERSION
    &&& t.locktime == 0
    &&& t@.inputs.len() == refs.len()
    &&& forall|k: int|
        0 <= k < refs.len() ==> #[trigger] t@.inputs[k].utxo_ref == refs[k] && unsigned(
            t@.inputs[k],
        )
    &&& t@.outputs[0] == (TxOutput { address: recipient, amount })
    &&& if total > amount {
        t@.outputs.len() == 2 && t@.outputs[1] == (TxOutput {
            address: change_address,
            amount: (total - amount) as u64,
        })
    } else {
        t@.outputs.len() == 1
    }
}

/// Selects, in the order given, the first outputs of `available` whose value
/// reaches `target`. Fails, selecting nothing, where all of them together fall
/// short. On success, the references selected and their total value.
pub fn select_inputs(available: &Vec<(UtxoRef, TxOutput)>, target: u64) -> (r: Result<
    (Vec<UtxoRef>, u128),
    RejectReason,
>)
    ensures
        r is Ok <==> sum_amounts(available@) >= target,
        match r {
            Ok((refs, total)) => {
                &&& is_first_fit(available@, target as int, refs@.len() as int)
                &&& total == sum_amounts(available@.subrange(0, refs@.len() as int))
                &&& forall|k: int| 0 <= k < refs@.len() ==> #[trigger] refs@[k] == available@[k].0
            },
            Err(e) => e == (RejectReason::InsufficientFunds {
                available: sum_amounts(available@) as u64,
                required: target,
            }),
        },
{
    match checked_sum(available) {
        Some(v) => {
            if v < target {
                return Err(RejectReason::InsufficientFunds { available: v, required: target });
            }
        },
        None => {},
    }
    let mut refs: Vec<UtxoRef> = Vec::new();
    let mut total: u128 = 0;
    let mut i: usize = 0;
    while i < available.len() && total < target as u128
        invariant
            i <= available@.len(),
            sum_amounts(available@) >= target,
            total == sum_amounts(available@.subrange(0, i as int)),
            refs@.len() == i,
            forall|k: int| 0 <= k < i ==> #[trigger] refs@[k] == available@[k].0,
            forall|j: int| 0 <= j < i ==> sum_amounts(#[trigger] available@.subrange(0, j)) < target,
        decreases available@.len() - i,
    {
        proof {
            assert(available@.subrange(0, i + 1).drop_last() =~= available@.subrange(0, i as int));
        }
        refs.push(available[i].0);
        total = total + available[i].1.amount as u128;
        i = i + 1;
    }
    proof {
        if i == available@.len() {
            assert(available@.subrange(0, i as int) =~= available@);
        }
    }
    Ok((refs, total))
}

/// Builds the unsigned transaction that spends `selected`, worth
/// `selected_total`, pays `amount` to `recipient` and returns any surplus to
/// `change_address`.
pub fn build_transfer(
    selected: &Vec<UtxoRef>,
    selected_total: u128,
    recipient: [u8; 20],
    amount: u64,
    change_address: [u8; 20],
) -> (t: Transaction)
    requires
        amount <= selected_total <= amount + u64::MAX,
    ensures
        is_transfer(t, selected@, selected_total as int, recipient, amount, change_address),
{
    let mut inputs: Vec<TxInput> = Vec::new();
    let mut i: usize = 0;
    while i < selected.len()
        invariant
            i <= selected@.len(),
            inputs@.len() == i,
            forall|k: int|
                0 <= k < i ==> #[trigger] inputs@[k].utxo_ref == selected@[k] && unsigned(
                    inputs@[k],
                ),
        decreases selected@.len() - i,
    {
        let signature: [u8; 64] = [0u8; 64];
        inputs.push(TxInput { utxo_ref: selected[i], signature });
        i = i + 1;
    }
    let mut outputs: Vec<TxOutput> = Vec::new();
    outputs.push(TxOutput { address: recipient, amount });
    if selected_total > amount as u128 {
        outputs.push(
            TxOutput { address: change_address, amount: (selected_total - amount as u128) as u64 },
        );
    }
    Transaction { version: MIN_VERSION, inputs, outputs, locktime: 0 }
}

/// A wallet: the address it receives at, which is also where change goes.
pub struct Wallet {
    pub address: [u8; 20],
}

impl Wallet {
    pub fn new(address: [u8; 20]) -> (w: Self)
        ensures
            w.address == address,
    {
        Wallet { address }
    }

    /// The outputs of `utxo_db` paid to this wallet, in the store's order.
    pub fn owned_utxos(&self, utxo_db: &UtxoDatabase) -> (r: Vec<(UtxoRef, TxOutput)>)
        ensures
            r@ == owned_entries(utxo_db.entries(), self.address),
    {
        let all = utxo_db.get_all_utxos();
        let mut r: Vec<(UtxoRef, TxOutput)> = Vec::new();
        let mut i: usize = 0;
        while i < all.len()
            invariant
                i <= all@.len(),
                r@ == owned_entries(all@.subrange(0, i as int), self.address),
            decreases all@.len() - i,
        {
            proof {
                assert(all@.subrange(0, i + 1).drop_last() =~= all@.subrange(0, i as int));
            }
            if crate::types::bytes_equal(&all[i].1.address, &self.address) {
                r.push(all[i]);
            }
            i = i + 1;
        }
        proof {
            assert(all@.subrange(0, i as int) =~= all@);
        }
        r
    }

    /// Builds an unsigned transaction that pays `amount` to `recipient` from
    /// this wallet's outputs in `utxo_db`, chosen first-fit in the store's
    /// order, with any surplus returned to this wallet as change.
    pub fn create_transaction(&self, utxo_db: &UtxoDatabase, recipient: [u8; 20], amount: u64) -> (r:
        Result<Transaction, RejectReason>)
        ensures
            ({
                let owned = owned_entries(utxo_db.entries(), self.address);
                &&& r is Ok <==> sum_amounts(owned) >= amount
                &&& match r {
                    Ok(t) => {
                        let k = t@.inputs.len() as int;
                        &&& is_first_fit(owned, amount as int, k)
                        &&& is_transfer(
                            t,
                            owned.subrange(0, k).map_values(|e: (UtxoRef, TxOutput)| e.0),
                            sum_amounts(owned.subrange(0, k)),
                            recipient,
                            amount,
                            self.address,
                        )
                    },
                    Err(e) => e == (RejectReason::InsufficientFunds {
                        available: sum_amounts(owned) as u64,
                        required: amount,
                    }),
                }
            }),
    {
        let owned = self.owned_utxos(utxo_db);
        let (refs, total) = match select_inputs(&owned, amount) {
            Err(e) => {
                return Err(e);
            },
            Ok(sel) => sel,
        };
        proof {
            let k = refs@.len() as int;
            if k > 0 {
                lemma_sum_prefix(owned@.subrange(0, k), k - 1);
                assert(owned@.subrange(0, k).subrange(0, k - 1) =~= owned@.subrange(0, k - 1));
                assert(owned@.subrange(0, k).drop_last() =~= owned@.subrange(0, k - 1));
            }
            assert(refs@ =~= owned@.subrange(0, k).map_values(|e: (UtxoRef, TxOutput)| e.0));
        }
        Ok(build_transfer(&refs, total, recipient, amount, self.address))
    }
}

} // verus!
