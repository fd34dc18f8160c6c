use vstd::prelude::*;

use crate::types::{Transaction, TxInput, TxModel, TxOutput};

verus! {

/// The `n` low bytes of `x`, least significant first.
pub open spec fn le_bytes(x: nat, n: nat) -> Seq<u8>
    decreases n,
{
    if n == 0 {
        Seq::empty()
    } else {
        seq![(x % 256) as u8] + le_bytes(x / 256, (n - 1) as nat)
    }
}

/// An input as bytes: the spent transaction id, the output index, the proof.
pub open spec fn input_bytes(i: TxInput) -> Seq<u8> {
    i.utxo_ref.txid@ + le_bytes(i.utxo_ref.vout as nat, 4) + i.signature@
}

/// An output as bytes: the address, then the amount.
pub open spec fn output_bytes(o: TxOutput) -> Seq<u8> {
    o.address@ + le_bytes(o.amount as nat, 8)
}

pub open spec fn inputs_bytes(s: Seq<TxInput>) -> Seq<u8>
    decreases s.len(),
{
    if s.len() == 0 {
        Seq::empty()
    } else {
        inputs_bytes(s.drop_last()) + input_bytes(s.last())
    }
}

pub open spec fn outputs_bytes(s: Seq<TxOutput>) -> Seq<u8>
    decreases s.len(),
{
    if s.len() == 0 {
        Seq::empty()
    } else {
        outputs_bytes(s.drop_last()) + output_bytes(s.last())
    }
}

/// The serialized form of a transaction, which its id is the digest of:
/// version, input count, inputs, output count, outputs, lock time. Counts are
/// eight bytes, all integers little-endian.
pub open spec fn encode(t: TxModel) -> Seq<u8> {
    le_bytes(t.version as nat, 4) + le_bytes(t.inputs.len(), 8) + inputs_bytes(t.inputs)
        + le_bytes(t.outputs.len(), 8) + outputs_bytes(t.outputs) + le_bytes(t.locktime as nat, 4)
}

/// The SHA-256 digest of `data`.
pub uninterp spec fn sha256_of(data: Seq<u8>) -> Seq<u8>;

/// The id of a transaction: the digest of its serialized form.
pub open spec fn tx_id(t: TxModel) -> Seq<u8> {
    sha256_of(encode(t))
}

/// `256` to the power `n`.
pub open spec fn pow256(n: nat) -> nat
    decreases n,
{
    if n == 0 {
        1
    } else {
        256 * pow256((n - 1) as nat)
    }
}

proof fn lemma_pow256_values()
    ensures
        pow256(4) == 0x1_0000_0000,
        pow256(8) == 0x1_0000_0000_0000_0000,
{
    reveal_with_fuel(pow256, 9);
}

proof fn lemma_le_bytes_len(x: nat, n: nat)
    ensures
        le_bytes(x, n).len() == n,
    decreases n,
{
    if n > 0 {
        lemma_le_bytes_len(x / 256, (n - 1) as nat);
    }
}

/// Numbers below `256^n` have different `n`-byte forms.
proof fn lemma_le_bytes_injective(x: nat, y: nat, n: nat)
    requires
        x < pow256(n),
        y < pow256(n),
        le_bytes(x, n) == le_bytes(y, n),
    ensures
        x == y,
    decreases n,
{
    if n > 0 {
        let p = pow256((n - 1) as nat);
        lemma_le_bytes_len(x / 256, (n - 1) as nat);
        lemma_le_bytes_len(y / 256, (n - 1) as nat);
        assert(le_bytes(x, n)[0] == le_bytes(y, n)[0]);
        assert(le_bytes(x, n).subrange(1, n as int) =~= le_bytes(x / 256, (n - 1) as nat));
        assert(le_bytes(y, n).subrange(1, n as int) =~= le_bytes(y / 256, (n - 1) as nat));
        assert(x / 256 < p) by (nonlinear_arith)
            requires
                x < 256 * p,
        ;
        assert(y / 256 < p) by (nonlinear_arith)
            requires
                y < 256 * p,
        ;
        lemma_le_bytes_injective(x / 256, y / 256, (n - 1) as nat);
        assert(le_bytes(x, n)[0] == (x % 256) as u8);
        assert(le_bytes(y, n)[0] == (y % 256) as u8);
        assert(x % 256 == y % 256);
        assert(x == 256 * (x / 256) + x % 256);
        assert(y == 256 * (y / 256) + y % 256);
    }
}

proof fn lemma_inputs_bytes_len(s: Seq<TxInput>)
    ensures
        inputs_bytes(s).len() == 100 * s.len(),
    decreases s.len(),
{
    if s.len() > 0 {
        lemma_inputs_bytes_len(s.drop_last());
        lemma_le_bytes_len(s.last().utxo_ref.vout as nat, 4);
    }
}

proof fn lemma_outputs_bytes_len(s: Seq<TxOutput>)
    ensures
        outputs_bytes(s).len() == 28 * s.len(),
    decreases s.len(),
{
    if s.len() > 0 {
        lemma_outputs_bytes_len(s.drop_last());
        lemma_le_bytes_len(s.last().amount as nat, 8);
    }
}

/// Input `k` stands in bytes `100 k` to `100 k + 100`.
proof fn lemma_inputs_bytes_at(s: Seq<TxInput>, k: int)
    requires
        0 <= k < s.len(),
    ensures
        inputs_bytes(s).subrange(100 * k, 100 * k + 100) == input_bytes(s[k]),
    decreases s.len(),
{
    lemma_inputs_bytes_len(s.drop_last());
    lemma_le_bytes_len(s.last().utxo_ref.vout as nat, 4);
    if k == s.len() - 1 {
        assert(inputs_bytes(s).subrange(100 * k, 100 * k + 100) =~= input_bytes(s[k]));
    } else {
        lemma_inputs_bytes_at(s.drop_last(), k);
        assert(inputs_bytes(s).subrange(100 * k, 100 * k + 100) =~= inputs_bytes(
            s.drop_last(),
        ).subrange(100 * k, 100 * k + 100));
    }
}

/// Output `k` stands in bytes `28 k` to `28 k + 28`.
proof fn lemma_outputs_bytes_at(s: Seq<TxOutput>, k: int)
    requires
        0 <= k < s.len(),
    ensures
        outputs_bytes(s).subrange(28 * k, 28 * k + 28) == output_bytes(s[k]),
    decreases s.len(),
{
    lemma_outputs_bytes_len(s.drop_last());
    lemma_le_bytes_len(s.last().amount as nat, 8);
    if k == s.len() - 1 {
        assert(outputs_bytes(s).subrange(28 * k, 28 * k + 28) =~= output_bytes(s[k]));
    } else {
        lemma_outputs_bytes_at(s.drop_last(), k);
        assert(outputs_bytes(s).subrange(28 * k, 28 * k + 28) =~= outputs_bytes(
            s.drop_last(),
        ).subrange(28 * k, 28 * k + 28));
    }
}

proof fn lemma_input_bytes_injective(a: TxInput, b: TxInput)
    requires
        input_bytes(a) == input_bytes(b),
    ensures
        a == b,
{
    lemma_pow256_values();
    lemma_le_bytes_len(a.utxo_ref.vout as nat, 4);
    lemma_le_bytes_len(b.utxo_ref.vout as nat, 4);
    let (x, y) = (input_bytes(a), input_bytes(b));
    assert(x.subrange(0, 32) =~= a.utxo_ref.txid@);
    assert(y.subrange(0, 32) =~= b.utxo_ref.txid@);
    assert(x.subrange(32, 36) =~= le_bytes(a.utxo_ref.vout as nat, 4));
    assert(y.subrange(32, 36) =~= le_bytes(b.utxo_ref.vout as nat, 4));
    assert(x.subrange(36, 100) =~= a.signature@);
    assert(y.subrange(36, 100) =~= b.signature@);
    lemma_le_bytes_injective(a.utxo_ref.vout as nat, b.utxo_ref.vout as nat, 4);
    assert(a.utxo_ref.txid =~= b.utxo_ref.txid);
    assert(a.signature =~= b.signature);
}

proof fn lemma_output_bytes_injective(a: TxOutput, b: TxOutput)
    requires
        output_bytes(a) == output_bytes(b),
    ensures
        a == b,
{
    lemma_pow256_values();
    lemma_le_bytes_len(a.amount as nat, 8);
    lemma_le_bytes_len(b.amount as nat, 8);
    let (x, y) = (output_bytes(a), output_bytes(b));
    assert(x.subrange(0, 20) =~= a.address@);
    assert(y.subrange(0, 20) =~= b.address@);
    assert(x.subrange(20, 28) =~= le_bytes(a.amount as nat, 8));
    assert(y.subrange(20, 28) =~= le_bytes(b.amount as nat, 8));
    lemma_le_bytes_injective(a.amount as nat, b.amount as nat, 8);
    assert(a.address =~= b.address);
}

proof fn lemma_inputs_bytes_injective(s1: Seq<TxInput>, s2: Seq<TxInput>)
    requires
        s1.len() == s2.len(),
        inputs_bytes(s1) == inputs_bytes(s2),
    ensures
        s1 == s2,
{
    assert forall|k: int| 0 <= k < s1.len() implies s1[k] == s2[k] by {
        lemma_inputs_bytes_at(s1, k);
        lemma_inputs_bytes_at(s2, k);
        lemma_input_bytes_injective(s1[k], s2[k]);
    }
    assert(s1 =~= s2);
}

proof fn lemma_outputs_bytes_injective(s1: Seq<TxOutput>, s2: Seq<TxOutput>)
    requires
        s1.len() == s2.len(),
        outputs_bytes(s1) == outputs_bytes(s2),
    ensures
        s1 == s2,
{
    assert forall|k: int| 0 <= k < s1.len() implies s1[k] == s2[k] by {
        lemma_outputs_bytes_at(s1, k);
        lemma_outputs_bytes_at(s2, k);
        lemma_output_bytes_injective(s1[k], s2[k]);
    }
    assert(s1 =~= s2);
}

/// Distinct transactions are serialized differently, so that their ids are
/// digests of different bytes. (That different bytes have different digests
/// is what SHA-256 is trusted for, not something proved here.) The counts of
/// inputs and outputs fit in eight bytes, as those of any `Vec` do.
pub proof fn lemma_encode_injective(t1: TxModel, t2: TxModel)
    requires
        encode(t1) == encode(t2),
        t1.inputs.len() <= u64::MAX,
        t1.outputs.len() <= u64::MAX,
        t2.inputs.len() <= u64::MAX,
        t2.outputs.len() <= u64::MAX,
    ensures
        t1 == t2,
{
    lemma_pow256_values();
    let e = encode(t1);
    lemma_le_bytes_len(t1.version as nat, 4);
    lemma_le_bytes_len(t2.version as nat, 4);
    lemma_le_bytes_len(t1.inputs.len(), 8);
    lemma_le_bytes_len(t2.inputs.len(), 8);
    lemma_le_bytes_len(t1.outputs.len(), 8);
    lemma_le_bytes_len(t2.outputs.len(), 8);
    lemma_le_bytes_len(t1.locktime as nat, 4);
    lemma_le_bytes_len(t2.locktime as nat, 4);
    lemma_inputs_bytes_len(t1.inputs);
    lemma_inputs_bytes_len(t2.inputs);
    lemma_outputs_bytes_len(t1.outputs);
    lemma_outputs_bytes_len(t2.outputs);

    assert(e.subrange(0, 4) =~= le_bytes(t1.version as nat, 4));
    assert(e.subrange(0, 4) =~= le_bytes(t2.version as nat, 4));
    lemma_le_bytes_injective(t1.version as nat, t2.version as nat, 4);

    assert(e.subrange(4, 12) =~= le_bytes(t1.inputs.len(), 8));
    assert(e.subrange(4, 12) =~= le_bytes(t2.inputs.len(), 8));
    lemma_le_bytes_injective(t1.inputs.len(), t2.inputs.len(), 8);

    let p: int = 12 + 100 * t1.inputs.len() as int;
    assert(e.subrange(12, p) =~= inputs_bytes(t1.inputs));
    assert(e.subrange(12, p) =~= inputs_bytes(t2.inputs));
    lemma_inputs_bytes_injective(t1.inputs, t2.inputs);

    assert(e.subrange(p, p + 8) =~= le_bytes(t1.outputs.len(), 8));
    assert(e.subrange(p, p + 8) =~= le_bytes(t2.outputs.len(), 8));
    lemma_le_bytes_injective(t1.outputs.len(), t2.outputs.len(), 8);

    let q: int = p + 8 + 28 * t1.outputs.len() as int;
    assert(e.subrange(p + 8, q) =~= outputs_bytes(t1.outputs));
    assert(e.subrange(p + 8, q) =~= outputs_bytes(t2.outputs));
    lemma_outputs_bytes_injective(t1.outputs, t2.outputs);

    assert(e.subrange(q, q + 4) =~= le_bytes(t1.locktime as nat, 4));
    assert(e.subrange(q, q + 4) =~= le_bytes(t2.locktime as nat, 4));
    lemma_le_bytes_injective(t1.locktime as nat, t2.locktime as nat, 4);
}

/// Relies on sha2's `Sha256::digest`: the SHA-256 digest of the bytes, which
/// depends on them alone.
#[verifier::external_body]
fn sha256(data: &[u8]) -> (r: [u8; 32])
    ensures
        r@ == sha256_of(data@),
{
    <sha2::Sha256 as sha2::Digest>::digest(data).into()
}

fn push_le(out: &mut Vec<u8>, x: u64, n: usize)
    ensures
        final(out)@ == old(out)@ + le_bytes(x as nat, n as nat),
{
    let mut v: u64 = x;
    let mut k: usize = 0;
    while k < n
        invariant
            k <= n,
            out@ + le_bytes(v as nat, (n - k) as nat) == old(out)@ + le_bytes(x as nat, n as nat),
        decreases n - k,
    {
        let ghost before = out@;
        out.push((v % 256) as u8);
        assert(le_bytes(v as nat, (n - k) as nat) == seq![(v % 256) as u8] + le_bytes(
            (v / 256) as nat,
            (n - k - 1) as nat,
        ));
        assert(out@ + le_bytes((v / 256) as nat, (n - k - 1) as nat) =~= before + le_bytes(
            v as nat,
            (n - k) as nat,
        ));
        v = v / 256;
        k = k + 1;
    }
    assert(out@ + le_bytes(v as nat, 0) =~= out@);
}

fn push_array<const N: usize>(out: &mut Vec<u8>, a: &[u8; N])
    ensures
        final(out)@ == old(out)@ + a@,
{
    let mut k: usize = 0;
    while k < N
        invariant
            k <= N,
            a@.len() == N,
            out@ == old(out)@ + a@.subrange(0, k as int),
        decreases N - k,
    {
        out.push(a[k]);
        k = k + 1;
        assert(out@ =~= old(out)@ + a@.subrange(0, k as int));
    }
    assert(a@.subrange(0, k as int) =~= a@);
}

/// Serializes `tx` as `encode` describes.
pub fn encode_transaction(tx: &Transaction) -> (r: Vec<u8>)
    ensures
        r@ == encode(tx@),
{
    let mut out: Vec<u8> = Vec::new();
    push_le(&mut out, tx.version as u64, 4);
    push_le(&mut out, tx.inputs.len() as u64, 8);
    let ghost head = out@;
    let mut i: usize = 0;
    while i < tx.inputs.len()
        invariant
            i <= tx.inputs@.len(),
            out@ == head + inputs_bytes(tx.inputs@.subrange(0, i as int)),
        decreases tx.inputs@.len() - i,
    {
        let input = &tx.inputs[i];
        push_array(&mut out, &input.utxo_ref.txid);
        push_le(&mut out, input.utxo_ref.vout as u64, 4);
        push_array(&mut out, &input.signature);
        assert(tx.inputs@.subrange(0, i + 1).drop_last() =~= tx.inputs@.subrange(0, i as int));
        i = i + 1;
        assert(out@ =~= head + inputs_bytes(tx.inputs@.subrange(0, i as int)));
    }
    assert(tx.inputs@.subrange(0, i as int) =~= tx.inputs@);
    push_le(&mut out, tx.outputs.len() as u64, 8);
    let ghost mid = out@;
    let mut i: usize = 0;
    while i < tx.outputs.len()
        invariant
            i <= tx.outputs@.len(),
            out@ == mid + outputs_bytes(tx.outputs@.subrange(0, i as int)),
        decreases tx.outputs@.len() - i,
    {
        let output = &tx.outputs[i];
        push_array(&mut out, &output.address);
        push_le(&mut out, output.amount, 8);
        assert(tx.outputs@.subrange(0, i + 1).drop_last() =~= tx.outputs@.subrange(0, i as int));
        i = i + 1;
        assert(out@ =~= mid + outputs_bytes(tx.outputs@.subrange(0, i as int)));
    }
    assert(tx.outputs@.subrange(0, i as int) =~= tx.outputs@);
    push_le(&mut out, tx.locktime as u64, 4);
    assert(out@ =~= encode(tx@));
    out
}

/// The id of `tx`: the SHA-256 digest of its serialized form.
pub fn compute_id(tx: &Transaction) -> (r: [u8; 32])
    ensures
        r@ == tx_id(tx@),
{
    let bytes = encode_transaction(tx);
    sha256(bytes.as_slice())
}

} // verus!
