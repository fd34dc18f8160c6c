use vstd::prelude::*;

verus! {

broadcast use vstd::array::group_array_axioms;

/// Identity of one spendable output: the id of the transaction that made it
/// and its position among that transaction's outputs.
#[derive(Clone, Copy, Debug, Eq, Hash)]
pub struct UtxoRef {
    pub txid: [u8; 32],
    pub vout: u32,
}

/// Byte-wise equality of two fixed-size digests.
pub fn bytes_equal<const N: usize>(a: &[u8; N], b: &[u8; N]) -> (r: bool)
    ensures
        r == (*a == *b),
{
    let mut i: usize = 0;
    while i < N
        invariant
            i <= N,
            a@.len() == N,
            b@.len() == N,
            forall|k: int| 0 <= k < i ==> a[k] == b[k],
        decreases N - i,
    {
        if a[i] != b[i] {
            return false;
        }
        i = i + 1;
    }
    assert(*a =~= *b);
    true
}

impl PartialEq for UtxoRef {
    fn eq(&self, o: &UtxoRef) -> (r: bool) {
        self.vout == o.vout && bytes_equal(&self.txid, &o.txid)
    }
}

impl vstd::std_specs::cmp::PartialEqSpecImpl for UtxoRef {
    open spec fn obeys_eq_spec() -> bool {
        true
    }

    open spec fn eq_spec(&self, o: &UtxoRef) -> bool {
        *self == *o
    }
}

/// One output of a transaction: the destination it pays and how much, in the
/// smallest indivisible unit.
#[derive(Clone, Copy, Debug, Eq, Hash)]
pub struct TxOutput {
    pub address: [u8; 20],
    pub amount: u64,
}

impl PartialEq for TxOutput {
    fn eq(&self, o: &TxOutput) -> (r: bool) {
        self.amount == o.amount && bytes_equal(&self.address, &o.address)
    }
}

impl vstd::std_specs::cmp::PartialEqSpecImpl for TxOutput {
    open spec fn obeys_eq_spec() -> bool {
        true
    }

    open spec fn eq_spec(&self, o: &TxOutput) -> bool {
        *self == *o
    }
}

/// One input of a transaction: the output it spends and the proof that it
/// may spend it.
#[derive(Clone, Copy, Debug)]
pub struct TxInput {
    pub utxo_ref: UtxoRef,
    pub signature: [u8; 64],
}

/// A proposed transfer: it spends `inputs` and creates `outputs`, in order.
#[derive(Debug)]
pub struct Transaction {
    pub version: u32,
    pub inputs: Vec<TxInput>,
    pub outputs: Vec<TxOutput>,
    pub locktime: u32,
}

/// The content of a transaction, as values.
pub struct TxModel {
    pub version: u32,
    pub inputs: Seq<TxInput>,
    pub outputs: Seq<TxOutput>,
    pub locktime: u32,
}

impl View for Transaction {
    type V = TxModel;

    open spec fn view(&self) -> TxModel {
        TxModel {
            version: self.version,
            inputs: self.inputs@,
            outputs: self.outputs@,
            locktime: self.locktime,
        }
    }
}

/// Why a transaction, a coin selection or an insertion was refused.
#[derive(Clone, Copy, Debug, PartialEq, Eq)]
pub enum RejectReason {
    /// No inputs, no outputs, more outputs than an output index can number,
    /// or a version outside the supported range.
    Malformed,
    /// An input spends an output that the store does not hold.
    UnknownInput(UtxoRef),
    /// The same output is spent twice by one transaction.
    DuplicateInput(UtxoRef),
    /// The authorizer refused this input.
    UnauthorizedInput(UtxoRef),
    /// A sum of amounts does not fit in 64 bits.
    AmountOverflow,
    /// The inputs are worth less than the outputs.
    InsufficientInputs { have: u64, need: u64 },
    /// The owner's outputs are worth less than the amount asked for.
    InsufficientFunds { available: u64, required: u64 },
    /// A reference that is or was already in use would be created again.
    DuplicateUtxo,
    /// The total value held would not fit in 64 bits.
    SupplyOverflow,
}

} // verus!
