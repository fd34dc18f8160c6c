use utxo_ledger::encoding::{compute_id, encode_transaction};
use utxo_ledger::processor::TransactionProcessor;
use utxo_ledger::store::UtxoDatabase;
use utxo_ledger::types::{RejectReason, Transaction, TxInput, TxOutput, UtxoRef};
use utxo_ledger::validation::{validate, validate_with_approvals, Authorizer, PermissiveAuthorizer};
use utxo_ledger::wallet::{build_transfer, select_inputs, Wallet};

const A: [u8; 20] = [0xAA; 20];
const B: [u8; 20] = [0xBB; 20];
const C: [u8; 20] = [0xCC; 20];
const T0: [u8; 32] = [7; 32];

struct RefuseOwner([u8; 20]);

impl Authorizer for RefuseOwner {
    fn approves(&self, _input: TxInput, owner: [u8; 20]) -> bool {
        owner != self.0
    }

    fn authorize(&self, input: &TxInput, owner: &[u8; 20]) -> bool {
        self.approves(*input, *owner)
    }
}

fn r(txid: [u8; 32], vout: u32) -> UtxoRef {
    UtxoRef { txid, vout }
}

fn out(address: [u8; 20], amount: u64) -> TxOutput {
    TxOutput { address, amount }
}

fn spend(refs: &[UtxoRef], outputs: &[TxOutput]) -> Transaction {
    Transaction {
        version: 1,
        inputs: refs.iter().map(|u| TxInput { utxo_ref: *u, signature: [0; 64] }).collect(),
        outputs: outputs.to_vec(),
        locktime: 0,
    }
}

fn genesis_ledger() -> TransactionProcessor {
    let mut p = TransactionProcessor::new();
    assert_eq!(p.add_genesis_utxo(r(T0, 0), out(A, 100)), Ok(()));
    p
}

const T1: [u8; 32] = [
    87, 251, 17, 21, 154, 76, 42, 254, 118, 192, 160, 130, 18, 49, 92, 191, 189, 244, 62, 85,
    143, 58, 37, 65, 38, 77, 86, 52, 247, 223, 157, 176,
];

#[test]
fn simple_transfer_moves_value() {
    let mut p = genesis_ledger();
    let tx = spend(&[r(T0, 0)], &[out(B, 60), out(A, 40)]);
    let id = p.validate_and_add_transaction(tx, &PermissiveAuthorizer).unwrap();
    assert_eq!(id, T1);
    assert_eq!(p.get_utxo(&r(T0, 0)), None);
    assert_eq!(p.get_utxo(&r(id, 0)), Some(&out(B, 60)));
    assert_eq!(p.get_utxo(&r(id, 1)), Some(&out(A, 40)));
    assert_eq!(p.get_utxo(&r(id, 2)), None);
    assert_eq!(p.get_total_supply(), 100);
    assert_eq!(p.mempool().len(), 1);
}

#[test]
fn insufficient_inputs_are_refused() {
    let mut p = genesis_ledger();
    let tx = spend(&[r(T0, 0)], &[out(B, 100), out(A, 50)]);
    assert_eq!(
        p.validate_and_add_transaction(tx, &PermissiveAuthorizer),
        Err(RejectReason::InsufficientInputs { have: 100, need: 150 })
    );
    assert_eq!(p.get_utxo(&r(T0, 0)), Some(&out(A, 100)));
    assert_eq!(p.get_total_supply(), 100);
    assert_eq!(p.mempool().len(), 0);
}

#[test]
fn second_spend_of_a_committed_input_is_unknown() {
    let mut p = genesis_ledger();
    let first = spend(&[r(T0, 0)], &[out(B, 60), out(A, 40)]);
    assert!(p.validate_and_add_transaction(first, &PermissiveAuthorizer).is_ok());
    let second = spend(&[r(T0, 0)], &[out(C, 100)]);
    assert_eq!(
        p.validate_and_add_transaction(second, &PermissiveAuthorizer),
        Err(RejectReason::UnknownInput(r(T0, 0)))
    );
    assert_eq!(p.mempool().len(), 1);
}

#[test]
fn structure_is_checked_before_lookup() {
    let mut p = genesis_ledger();
    let tx = spend(&[r([9; 32], 3)], &[]);
    assert_eq!(
        p.validate_and_add_transaction(tx, &PermissiveAuthorizer),
        Err(RejectReason::Malformed)
    );
}

#[test]
fn malformed_transactions_are_refused() {
    let mut p = genesis_ledger();
    let no_inputs = spend(&[], &[out(B, 1)]);
    assert_eq!(
        p.validate_and_add_transaction(no_inputs, &PermissiveAuthorizer),
        Err(RejectReason::Malformed)
    );
    let mut bad_version = spend(&[r(T0, 0)], &[out(B, 1)]);
    bad_version.version = 0;
    assert_eq!(
        p.validate_and_add_transaction(bad_version, &PermissiveAuthorizer),
        Err(RejectReason::Malformed)
    );
    let mut future_version = spend(&[r(T0, 0)], &[out(B, 1)]);
    future_version.version = 3;
    assert_eq!(
        p.validate_and_add_transaction(future_version, &PermissiveAuthorizer),
        Err(RejectReason::Malformed)
    );
    assert_eq!(p.get_total_supply(), 100);
}

#[test]
fn duplicate_inputs_are_refused() {
    let mut p = genesis_ledger();
    let tx = spend(&[r(T0, 0), r(T0, 0)], &[out(B, 10)]);
    assert_eq!(
        p.validate_and_add_transaction(tx, &PermissiveAuthorizer),
        Err(RejectReason::DuplicateInput(r(T0, 0)))
    );
}

#[test]
fn unknown_input_is_reported_before_duplicate() {
    let mut p = genesis_ledger();
    let tx = spend(&[r(T0, 0), r(T0, 0), r(T0, 5)], &[out(B, 10)]);
    assert_eq!(
        p.validate_and_add_transaction(tx, &PermissiveAuthorizer),
        Err(RejectReason::UnknownInput(r(T0, 5)))
    );
}

#[test]
fn refused_authorization_is_reported() {
    let mut p = genesis_ledger();
    let tx = spend(&[r(T0, 0)], &[out(B, 10)]);
    assert_eq!(
        p.validate_and_add_transaction(tx, &RefuseOwner(A)),
        Err(RejectReason::UnauthorizedInput(r(T0, 0)))
    );
    let tx = spend(&[r(T0, 0)], &[out(B, 10)]);
    assert!(p.validate_and_add_transaction(tx, &RefuseOwner(C)).is_ok());
}

#[test]
fn verdicts_decide_authorization() {
    let mut db = UtxoDatabase::new();
    db.add_utxo(r(T0, 0), out(A, 5)).unwrap();
    db.add_utxo(r(T0, 1), out(A, 5)).unwrap();
    let tx = spend(&[r(T0, 0), r(T0, 1)], &[out(B, 10)]);
    assert_eq!(
        validate_with_approvals(&tx, &db, &vec![true, false]).err(),
        Some(RejectReason::UnauthorizedInput(r(T0, 1)))
    );
    assert_eq!(
        validate_with_approvals(&tx, &db, &vec![true]).err(),
        Some(RejectReason::UnauthorizedInput(r(T0, 1)))
    );
    let v = validate_with_approvals(&tx, &db, &vec![true, true]).ok().unwrap();
    assert_eq!(v.input_sum, 10);
    assert_eq!(v.output_sum, 10);
    assert_eq!(v.consumed, vec![r(T0, 0), r(T0, 1)]);
    assert_eq!(v.produced, vec![out(B, 10)]);
}

#[test]
fn input_sum_overflow_is_refused() {
    let mut db = UtxoDatabase::new();
    db.add_utxo(r(T0, 0), out(A, u64::MAX)).unwrap();
    db.add_utxo(r(T0, 1), out(A, 1)).unwrap();
    let tx = spend(&[r(T0, 0), r(T0, 1)], &[out(B, 1)]);
    assert_eq!(
        validate(&tx, &db, &PermissiveAuthorizer).err(),
        Some(RejectReason::AmountOverflow)
    );
    assert_eq!(db.total_value(), Err(RejectReason::SupplyOverflow));
}

#[test]
fn output_sum_overflow_is_refused() {
    let mut p = genesis_ledger();
    let tx = spend(&[r(T0, 0)], &[out(B, u64::MAX), out(B, 1)]);
    assert_eq!(
        p.validate_and_add_transaction(tx, &PermissiveAuthorizer),
        Err(RejectReason::AmountOverflow)
    );
}

#[test]
fn validation_is_deterministic() {
    let mut db = UtxoDatabase::new();
    db.add_utxo(r(T0, 0), out(A, 100)).unwrap();
    let tx = spend(&[r(T0, 0)], &[out(B, 60), out(A, 30)]);
    let first = validate(&tx, &db, &PermissiveAuthorizer).ok().unwrap();
    let second = validate(&tx, &db, &PermissiveAuthorizer).ok().unwrap();
    assert_eq!(first.input_sum, second.input_sum);
    assert_eq!(first.output_sum, second.output_sum);
    assert_eq!(first.consumed, second.consumed);
    assert_eq!(first.produced, second.produced);
    let same = spend(&[r(T0, 0)], &[out(B, 60), out(A, 30)]);
    assert_eq!(compute_id(&tx), compute_id(&same));
    let other = spend(&[r(T0, 0)], &[out(B, 60), out(A, 31)]);
    assert_ne!(compute_id(&tx), compute_id(&other));
}

#[test]
fn id_is_the_digest_of_the_serialized_form() {
    let tx = spend(&[r(T0, 0)], &[out(B, 60), out(A, 40)]);
    assert_eq!(compute_id(&tx), T1);
}

#[test]
fn serialized_form_is_exact() {
    let tx = Transaction {
        version: 0x0102_0304,
        inputs: vec![TxInput { utxo_ref: r(T0, 0x0a0b), signature: [5; 64] }],
        outputs: vec![out(B, 0x0100)],
        locktime: 9,
    };
    let bytes = encode_transaction(&tx);
    let mut expected: Vec<u8> = vec![4, 3, 2, 1, 1, 0, 0, 0, 0, 0, 0, 0];
    expected.extend_from_slice(&T0);
    expected.extend_from_slice(&[0x0b, 0x0a, 0, 0]);
    expected.extend_from_slice(&[5; 64]);
    expected.extend_from_slice(&[1, 0, 0, 0, 0, 0, 0, 0]);
    expected.extend_from_slice(&B);
    expected.extend_from_slice(&[0, 1, 0, 0, 0, 0, 0, 0]);
    expected.extend_from_slice(&[9, 0, 0, 0]);
    assert_eq!(bytes, expected);
}

#[test]
fn surplus_is_burned_and_supply_never_grows() {
    let mut p = genesis_ledger();
    assert_eq!(p.add_genesis_utxo(r(T0, 1), out(B, 50)), Ok(()));
    assert_eq!(p.get_total_supply(), 150);
    let tx = spend(&[r(T0, 0)], &[out(B, 90)]);
    let id = p.validate_and_add_transaction(tx, &PermissiveAuthorizer).unwrap();
    assert_eq!(p.get_total_supply(), 140);
    let tx = spend(&[r(id, 0), r(T0, 1)], &[out(C, 130), out(A, 5)]);
    assert!(p.validate_and_add_transaction(tx, &PermissiveAuthorizer).is_ok());
    assert_eq!(p.get_total_supply(), 135);
}

#[test]
fn each_output_has_at_most_one_spender() {
    let mut p = genesis_ledger();
    let first = spend(&[r(T0, 0)], &[out(B, 60), out(A, 40)]);
    let id = p.validate_and_add_transaction(first, &PermissiveAuthorizer).unwrap();
    let second = spend(&[r(id, 1)], &[out(C, 40)]);
    assert!(p.validate_and_add_transaction(second, &PermissiveAuthorizer).is_ok());
    let spender = p.get_transaction_by_input(&r(T0, 0)).unwrap();
    assert_eq!(spender.outputs, vec![out(B, 60), out(A, 40)]);
    let spender = p.get_transaction_by_input(&r(id, 1)).unwrap();
    assert_eq!(spender.outputs, vec![out(C, 40)]);
    assert!(p.get_transaction_by_input(&r(id, 0)).is_none());
    let again = spend(&[r(id, 1)], &[out(C, 40)]);
    assert_eq!(
        p.validate_and_add_transaction(again, &PermissiveAuthorizer),
        Err(RejectReason::UnknownInput(r(id, 1)))
    );
}

#[test]
fn refusal_leaves_the_ledger_unchanged() {
    let mut p = genesis_ledger();
    let before: Vec<(UtxoRef, TxOutput)> = p.utxo_db().get_all_utxos().clone();
    let tx = spend(&[r(T0, 0)], &[out(B, 101)]);
    assert!(p.validate_and_add_transaction(tx, &PermissiveAuthorizer).is_err());
    assert_eq!(p.utxo_db().get_all_utxos(), &before);
    assert_eq!(p.mempool().len(), 0);
}

#[test]
fn genesis_refuses_reuse_and_overflow() {
    let mut p = genesis_ledger();
    assert_eq!(p.add_genesis_utxo(r(T0, 0), out(B, 1)), Err(RejectReason::DuplicateUtxo));
    assert_eq!(
        p.add_genesis_utxo(r(T0, 1), out(B, u64::MAX)),
        Err(RejectReason::SupplyOverflow)
    );
    let tx = spend(&[r(T0, 0)], &[out(B, 100)]);
    assert!(p.validate_and_add_transaction(tx, &PermissiveAuthorizer).is_ok());
    assert_eq!(p.add_genesis_utxo(r(T0, 0), out(B, 1)), Err(RejectReason::DuplicateUtxo));
    assert_eq!(p.get_total_supply(), 100);
}

#[test]
fn store_add_get_remove() {
    let mut db = UtxoDatabase::new();
    assert_eq!(db.total_value(), Ok(0));
    assert_eq!(db.add_utxo(r(T0, 0), out(A, 3)), Ok(()));
    assert_eq!(db.add_utxo(r(T0, 0), out(B, 4)), Err(RejectReason::DuplicateUtxo));
    assert_eq!(db.add_utxo(r(T0, 1), out(B, 4)), Ok(()));
    assert_eq!(db.get_utxo(&r(T0, 0)), Some(&out(A, 3)));
    assert_eq!(db.total_value(), Ok(7));
    assert_eq!(db.remove_utxo(&r(T0, 0)), Some(out(A, 3)));
    assert_eq!(db.remove_utxo(&r(T0, 0)), None);
    assert_eq!(db.get_utxo(&r(T0, 0)), None);
    assert_eq!(db.get_all_utxos(), &vec![(r(T0, 1), out(B, 4))]);
    assert_eq!(db.total_value(), Ok(4));
}

#[test]
fn first_fit_selection_stops_at_the_target() {
    let available = vec![(r(T0, 0), out(A, 30)), (r(T0, 1), out(A, 50)), (r(T0, 2), out(A, 70))];
    let (refs, total) = select_inputs(&available, 60).unwrap();
    assert_eq!(refs, vec![r(T0, 0), r(T0, 1)]);
    assert_eq!(total, 80);
    let (refs, total) = select_inputs(&available, 30).unwrap();
    assert_eq!(refs, vec![r(T0, 0)]);
    assert_eq!(total, 30);
    let (refs, total) = select_inputs(&available, 0).unwrap();
    assert!(refs.is_empty());
    assert_eq!(total, 0);
    assert_eq!(
        select_inputs(&available, 151).err(),
        Some(RejectReason::InsufficientFunds { available: 150, required: 151 })
    );
}

#[test]
fn transfer_returns_change() {
    let t = build_transfer(&vec![r(T0, 0), r(T0, 1)], 80, B, 60, A);
    assert_eq!(t.version, 1);
    assert_eq!(t.locktime, 0);
    assert_eq!(t.inputs.len(), 2);
    assert_eq!(t.inputs[1].utxo_ref, r(T0, 1));
    assert_eq!(t.inputs[1].signature, [0; 64]);
    assert_eq!(t.outputs, vec![out(B, 60), out(A, 20)]);
    let exact = build_transfer(&vec![r(T0, 0)], 60, B, 60, A);
    assert_eq!(exact.outputs, vec![out(B, 60)]);
}

#[test]
fn wallet_pays_from_its_own_outputs() {
    let mut p = genesis_ledger();
    assert_eq!(p.add_genesis_utxo(r(T0, 1), out(C, 500)), Ok(()));
    assert_eq!(p.add_genesis_utxo(r(T0, 2), out(A, 25)), Ok(()));
    let wallet = Wallet::new(A);
    assert_eq!(
        wallet.create_transaction(p.utxo_db(), B, 200).err(),
        Some(RejectReason::InsufficientFunds { available: 125, required: 200 })
    );
    let tx = wallet.create_transaction(p.utxo_db(), B, 110).ok().unwrap();
    assert_eq!(tx.inputs.len(), 2);
    assert_eq!(tx.inputs[0].utxo_ref, r(T0, 0));
    assert_eq!(tx.inputs[1].utxo_ref, r(T0, 2));
    assert_eq!(tx.outputs, vec![out(B, 110), out(A, 15)]);
    let id = p.validate_and_add_transaction(tx, &PermissiveAuthorizer).unwrap();
    assert_eq!(p.get_utxo(&r(id, 1)), Some(&out(A, 15)));
    assert_eq!(p.get_total_supply(), 625);
    assert_eq!(wallet.owned_utxos(p.utxo_db()), vec![(r(id, 1), out(A, 15))]);
}
