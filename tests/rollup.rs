use rollup_crypto::circuit::{c_rollup, c_step};
use rollup_crypto::crypto::RollupParams;
use rollup_crypto::field::{fe_add, fe_eq, fe_fits, fe_lt, fe_sub, Fe};
use rollup_crypto::ledger::Ledger;
use rollup_crypto::model::{Leaf, MerkleProof, Tx, TxEx};
use rollup_crypto::testdata::gen_test_data;
use rollup_crypto::tree::RollupState;

fn n(x: u64) -> Fe {
    Fe::from_u64(x)
}

fn signed(params: &RollupParams, sk: Fe, from: u64, to: u64, amount: u64, nonce: u64) -> Tx {
    let mut tx = Tx { from: n(from), to: n(to), amount: n(amount), nonce: n(nonce), s: n(0), r: n(0) };
    tx.sign(sk, params);
    tx
}

/// Four accounts; account 0 is owned by secret 1001 and holds `amount0`.
fn genesis(params: &RollupParams, amount0: u64, batch: usize) -> RollupState {
    let mut leaves = Vec::new();
    for i in 0..4u64 {
        let owner = params.public_key(n(1001 + i));
        let amount = if i == 0 { amount0 } else { 0 };
        leaves.push(Leaf { owner, amount: n(amount), nonce: n(0) });
    }
    RollupState::from_leaf(2, batch, &leaves, params)
}

fn same_proof(a: &MerkleProof, b: &MerkleProof) -> bool {
    a.sibling == b.sibling && a.path == b.path
}

fn same_witness(a: &TxEx, b: &TxEx) -> bool {
    a.leaf_from == b.leaf_from
        && a.leaf_to == b.leaf_to
        && same_proof(&a.proof_from, &b.proof_from)
        && same_proof(&a.proof_to, &b.proof_to)
}

#[test]
fn test_rollup() {
    let params = RollupParams::new();
    let sk: Vec<Fe> = (0..4u64).map(|i| n(7 + i)).collect();
    let balance = vec![1000u32, 2000, 3000, 4000];
    let draws = vec![(0u64, 2u64, 250u64), (2, 0, 2999)];
    let (p, s) = gen_test_data(2, &sk, &balance, &draws, &params).unwrap();
    assert_eq!(s.tx.len(), 2);
    assert_eq!((s.tx[0].from, s.tx[0].to, s.tx[0].amount), (n(0), n(3), n(250)));
    assert_eq!((s.tx[1].from, s.tx[1].to, s.tx[1].amount), (n(2), n(0), n(2999)));
    assert!(c_rollup(&p, &s, 2, 2, &params));
}

#[test]
fn gen_test_data_follows_balances() {
    let params = RollupParams::new();
    let sk: Vec<Fe> = (0..2u64).map(|i| n(7 + i)).collect();
    let balance = vec![0u32, 10];
    let draws = vec![(0u64, 5u64, 99u64), (1, 0, 25), (3, 1, 99)];
    let (p, s) = gen_test_data(1, &sk, &balance, &draws, &params).unwrap();
    assert_eq!((s.tx[0].from, s.tx[0].to, s.tx[0].amount, s.tx[0].nonce), (n(0), n(1), n(0), n(0)));
    assert_eq!((s.tx[1].from, s.tx[1].to, s.tx[1].amount, s.tx[1].nonce), (n(1), n(0), n(5), n(0)));
    assert_eq!((s.tx[2].from, s.tx[2].to, s.tx[2].amount, s.tx[2].nonce), (n(1), n(0), n(4), n(1)));
    assert_ne!(p.root_before, p.root_after);
    let (q, e) = gen_test_data(1, &sk, &balance, &vec![], &params).unwrap();
    assert_eq!(q.root_before, q.root_after);
    assert!(e.tx.is_empty());
}

#[test]
fn two_transfer_block_satisfies_circuit() {
    let params = RollupParams::new();
    let mut leaves = Vec::new();
    for i in 0..4u64 {
        leaves.push(Leaf { owner: params.public_key(n(7 + i)), amount: n(1000 * (i + 1)), nonce: n(0) });
    }
    let mut state = RollupState::from_leaf(2, 2, &leaves, &params);
    let txs = vec![signed(&params, n(7), 0, 3, 250, 0), signed(&params, n(9), 2, 1, 3000, 0)];
    let (p, s) = state.block(&txs, &params).unwrap();
    assert_eq!(p.root_before, RollupState::from_leaf(2, 2, &leaves, &params).root());
    assert_eq!(p.root_after, state.root());
    assert!(c_rollup(&p, &s, 2, 2, &params));
    assert_eq!(state.leaf[0].amount, n(750));
    assert_eq!(state.leaf[3].amount, n(4250));
    assert_eq!(state.leaf[2].amount, n(0));
    assert_eq!(state.leaf[1].amount, n(5000));
}

#[test]
fn concrete_scenario_single_transfer() {
    let params = RollupParams::new();
    let state = genesis(&params, 100, 1);
    let mut ledger = Ledger::new(state);
    let tx = signed(&params, n(1001), 0, 1, 30, 0);
    assert!(ledger.post_tx(tx, &params));
    let (p, s) = ledger.publish_block();
    assert_eq!(ledger.get_leaf(0).unwrap().amount, n(70));
    assert_eq!(ledger.get_leaf(0).unwrap().nonce, n(1));
    assert_eq!(ledger.get_leaf(1).unwrap().amount, n(30));
    assert_eq!(p.root_after, ledger.rollup.root());
    assert_ne!(p.root_before, p.root_after);
    assert!(c_rollup(&p, &s, 2, 1, &params));
    assert!(!ledger.post_tx(tx, &params));
    assert_eq!(ledger.get_leaf(0).unwrap().nonce, n(1));
}

#[test]
fn concrete_scenario_block() {
    let params = RollupParams::new();
    let mut state = genesis(&params, 100, 1);
    let tx = signed(&params, n(1001), 0, 1, 30, 0);
    let (p, s) = state.block(&vec![tx], &params).unwrap();
    assert!(c_rollup(&p, &s, 2, 1, &params));
    assert_eq!(state.leaf[0], Leaf { owner: params.public_key(n(1001)), amount: n(70), nonce: n(1) });
    assert_eq!(state.leaf[1].amount, n(30));
    assert!(state.transact(&tx, &params).is_none());
}

#[test]
fn circuit_rejects_wrong_root_after() {
    let params = RollupParams::new();
    let mut state = genesis(&params, 100, 1);
    let tx = signed(&params, n(1001), 0, 1, 30, 0);
    let (mut p, s) = state.block(&vec![tx], &params).unwrap();
    p.root_after = p.root_before;
    assert!(!c_rollup(&p, &s, 2, 1, &params));
}

#[test]
fn update_matches_rebuild() {
    let params = RollupParams::new();
    let mut state = genesis(&params, 100, 1);
    let leaf = Leaf { owner: n(5), amount: n(6), nonce: n(7) };
    state.leaf[2] = leaf;
    state.update(2, &params);
    let mut leaves = state.leaf.clone();
    leaves[2] = leaf;
    let rebuilt = RollupState::from_leaf(2, 1, &leaves, &params);
    assert_eq!(state.root(), rebuilt.root());
    assert_eq!(state.level, rebuilt.level);
}

#[test]
fn proof_round_trip() {
    let params = RollupParams::new();
    let state = genesis(&params, 100, 1);
    for i in 0..4 {
        let proof = state.proof_of(i);
        assert_eq!(proof.sibling.len(), 2);
        assert_eq!(proof.path, vec![i % 2 == 1, (i / 2) % 2 == 1]);
        assert_eq!(proof.root(state.leaf[i].hash(&params), &params), state.root());
    }
    let other = state.proof_of(0).root(Leaf::default().hash(&params), &params);
    assert_ne!(other, state.root());
}

#[test]
fn bad_nonce_rejected_without_change() {
    let params = RollupParams::new();
    let mut state = genesis(&params, 100, 1);
    let root = state.root();
    let tx = signed(&params, n(1001), 0, 1, 30, 1);
    assert!(state.transact(&tx, &params).is_none());
    assert_eq!(state.root(), root);
    assert_eq!(state.leaf[0].amount, n(100));
}

#[test]
fn insufficient_balance_rejected_without_change() {
    let params = RollupParams::new();
    let mut state = genesis(&params, 100, 1);
    let root = state.root();
    let tx = signed(&params, n(1001), 0, 1, 101, 0);
    assert!(state.transact(&tx, &params).is_none());
    assert_eq!(state.root(), root);
    assert_eq!(state.leaf[0].nonce, n(0));
    let all = signed(&params, n(1001), 0, 1, 100, 0);
    assert!(state.transact(&all, &params).is_some());
    assert_eq!(state.leaf[0].amount, n(0));
}

#[test]
fn bad_signature_rejected() {
    let params = RollupParams::new();
    let mut state = genesis(&params, 100, 1);
    let tx = signed(&params, n(1002), 0, 1, 30, 0);
    assert!(!tx.sigverify(state.leaf[0].owner, &params));
    assert!(state.transact(&tx, &params).is_none());
    let mut tampered = signed(&params, n(1001), 0, 1, 30, 0);
    assert!(tampered.sigverify(state.leaf[0].owner, &params));
    tampered.amount = n(31);
    assert!(state.transact(&tampered, &params).is_none());
}

#[test]
fn account_out_of_range_rejected() {
    let params = RollupParams::new();
    let mut state = genesis(&params, 100, 1);
    let tx = signed(&params, n(1001), 0, 4, 30, 0);
    assert!(state.transact(&tx, &params).is_none());
    let big = Fe { w0: 0, w1: 1, w2: 0, w3: 0 };
    let mut tx2 = Tx { from: n(0), to: big, amount: n(1), nonce: n(0), s: n(0), r: n(0) };
    tx2.sign(n(1001), &params);
    assert!(state.transact(&tx2, &params).is_none());
}

#[test]
fn credit_past_amount_width_rejected() {
    let params = RollupParams::new();
    let mut leaves = Vec::new();
    leaves.push(Leaf { owner: params.public_key(n(1001)), amount: n(10), nonce: n(0) });
    leaves.push(Leaf { owner: n(0), amount: n(u64::MAX - 5), nonce: n(0) });
    let mut state = RollupState::from_leaf(1, 1, &leaves, &params);
    assert!(state.transact(&signed(&params, n(1001), 0, 1, 6, 0), &params).is_none());
    assert!(state.transact(&signed(&params, n(1001), 0, 1, 5, 0), &params).is_some());
    assert_eq!(state.leaf[1].amount, n(u64::MAX));
}

#[test]
fn identical_trees_give_identical_witnesses() {
    let params = RollupParams::new();
    let mut a = genesis(&params, 100, 1);
    let mut b = genesis(&params, 100, 1);
    let tx = signed(&params, n(1001), 0, 2, 40, 0);
    let wa = a.transact(&tx, &params).unwrap();
    let wb = b.transact(&tx, &params).unwrap();
    assert_eq!(a.root(), b.root());
    assert!(same_witness(&wa, &wb));
}

#[test]
fn padding_keeps_running_root() {
    let params = RollupParams::new();
    let state = genesis(&params, 100, 1);
    let cur = state.root();
    let pad = Tx { from: n(1), to: n(3), amount: n(0), nonce: n(9), s: n(0), r: n(0) };
    assert_eq!(c_step(cur, &pad, &TxEx::padding(2), &params), Some(cur));
    assert_eq!(c_step(cur, &Tx::default(), &TxEx::padding(2), &params), Some(cur));
}

#[test]
fn zero_amount_transfer_spends_a_nonce() {
    let params = RollupParams::new();
    let mut state = genesis(&params, 100, 1);
    let root = state.root();
    assert!(state.transact(&signed(&params, n(1001), 0, 1, 0, 0), &params).is_some());
    assert_eq!(state.leaf[0].nonce, n(1));
    assert_ne!(state.root(), root);
    let mut again = genesis(&params, 100, 1);
    let (p, s) = again.block(&vec![signed(&params, n(1001), 0, 1, 0, 0)], &params).unwrap();
    assert_ne!(p.root_before, p.root_after);
    assert!(!c_rollup(&p, &s, 2, 1, &params));
}

#[test]
fn self_transfer_applied_natively_rejected_by_circuit() {
    let params = RollupParams::new();
    let mut state = genesis(&params, 100, 1);
    let tx = signed(&params, n(1001), 0, 0, 30, 0);
    let (p, s) = state.block(&vec![tx], &params).unwrap();
    assert_eq!(state.leaf[0].amount, n(100));
    assert_eq!(state.leaf[0].nonce, n(1));
    assert!(!c_rollup(&p, &s, 2, 1, &params));
    assert_eq!(c_step(p.root_before, &s.tx[0], &s.txex[0], &params), None);
}

#[test]
fn block_stops_at_first_rejection() {
    let params = RollupParams::new();
    let mut state = genesis(&params, 100, 2);
    let good = signed(&params, n(1001), 0, 1, 30, 0);
    let bad = signed(&params, n(1001), 0, 1, 30, 5);
    assert!(state.block(&vec![good, bad], &params).is_none());
    assert_eq!(state.leaf[0].amount, n(70));
    assert_eq!(state.leaf[1].amount, n(30));
}

#[test]
fn pool_refuses_past_batch() {
    let params = RollupParams::new();
    let mut ledger = Ledger::new(genesis(&params, 100, 2));
    assert!(ledger.post_tx(signed(&params, n(1001), 0, 1, 1, 0), &params));
    assert!(ledger.post_tx(signed(&params, n(1001), 0, 2, 1, 1), &params));
    assert!(!ledger.post_tx(signed(&params, n(1001), 0, 3, 1, 2), &params));
    assert_eq!(ledger.pending_tx.len(), 2);
    let (p, s) = ledger.publish_block();
    assert!(c_rollup(&p, &s, 2, 2, &params));
    assert!(ledger.post_tx(signed(&params, n(1001), 0, 3, 1, 2), &params));
}

#[test]
fn publish_pads_block() {
    let params = RollupParams::new();
    let mut ledger = Ledger::new(genesis(&params, 100, 3));
    let before = ledger.root_before;
    assert!(ledger.post_tx(signed(&params, n(1001), 0, 1, 10, 0), &params));
    let (p, s) = ledger.publish_block();
    assert_eq!(p.root_before, before);
    assert_eq!(s.tx.len(), 3);
    assert_eq!(s.txex.len(), 3);
    assert_eq!(s.tx[1], Tx::default());
    assert_eq!(s.tx[2], Tx::default());
    assert!(c_rollup(&p, &s, 2, 3, &params));
    assert_eq!(ledger.root_before, p.root_after);
    assert!(ledger.pending_tx.is_empty());
    let (q, _) = ledger.publish_block();
    assert_eq!(q.root_before, q.root_after);
}

#[test]
fn get_leaf_out_of_range() {
    let params = RollupParams::new();
    let ledger = Ledger::new(genesis(&params, 100, 1));
    assert_eq!(ledger.get_leaf(3).unwrap().amount, n(0));
    assert!(ledger.get_leaf(4).is_none());
}

#[test]
fn new_tree_is_empty() {
    let params = RollupParams::new();
    let state = RollupState::new(2, 1, &params);
    assert_eq!(state.leaf.len(), 4);
    let leaves = vec![Leaf::default(); 4];
    assert_eq!(state.root(), RollupState::from_leaf(2, 1, &leaves, &params).root());
}

#[test]
fn field_arithmetic_wraps_at_modulus() {
    let p_minus_1 = fe_sub(n(0), n(1));
    assert_eq!(
        p_minus_1,
        Fe { w0: 0xffffffff00000000, w1: 0x53bda402fffe5bfe, w2: 0x3339d80809a1d805, w3: 0x73eda753299d7d48 }
    );
    assert_eq!(fe_add(p_minus_1, n(2)), n(1));
    assert_eq!(fe_add(n(40), n(2)), n(42));
    assert_eq!(fe_sub(n(100), n(30)), n(70));
    assert!(fe_lt(n(3), n(4)));
    assert!(!fe_lt(n(4), n(4)));
    assert!(fe_lt(n(u64::MAX), Fe { w0: 0, w1: 1, w2: 0, w3: 0 }));
}

#[test]
fn hashes_are_domain_separated() {
    let params = RollupParams::new();
    let leaf = Leaf { owner: n(1), amount: n(2), nonce: n(3) };
    let tx = Tx { from: n(1), to: n(2), amount: n(3), nonce: n(0), s: n(0), r: n(0) };
    assert_ne!(leaf.hash(&params), tx.hash(&params));
    assert_ne!(leaf.hash(&params), n(1));
    let t2 = Tx { s: n(5), r: n(6), ..tx };
    assert_eq!(tx.hash(&params), t2.hash(&params));
}

#[test]
fn pool_refuses_transfers_that_move_nothing() {
    let params = RollupParams::new();
    let mut ledger = Ledger::new(genesis(&params, 100, 2));
    let root = ledger.rollup.root();
    assert!(!ledger.post_tx(signed(&params, n(1001), 0, 1, 0, 0), &params));
    assert!(!ledger.post_tx(signed(&params, n(1001), 0, 0, 5, 0), &params));
    assert_eq!(ledger.rollup.root(), root);
    assert!(ledger.pending_tx.is_empty());
    assert!(ledger.pending_tx_ex.is_empty());
    assert!(ledger.post_tx(signed(&params, n(1001), 0, 1, 5, 0), &params));
    assert_eq!(ledger.pending_tx_ex.len(), 1);
    assert_eq!(ledger.pending_tx_ex[0].leaf_from.amount, n(100));
    assert_eq!(ledger.pending_tx_ex[0].proof_from.root(ledger.pending_tx_ex[0].leaf_from.hash(&params), &params), root);
}

#[test]
fn padding_witness_is_all_zero() {
    let w = TxEx::padding(3);
    assert_eq!(w.leaf_from, Leaf::default());
    assert_eq!(w.leaf_to, Leaf::default());
    assert_eq!(w.proof_from.sibling, vec![n(0); 3]);
    assert_eq!(w.proof_from.path, vec![false; 3]);
    assert_eq!(w.proof_to.sibling, vec![n(0); 3]);
    assert_eq!(w.proof_to.path, vec![false; 3]);
}

#[test]
fn field_equality_and_amount_width() {
    let p = Fe { w0: 0xffffffff00000001, w1: 0x53bda402fffe5bfe, w2: 0x3339d80809a1d805, w3: 0x73eda753299d7d48 };
    assert!(fe_eq(p, n(0)));
    assert!(!fe_eq(p, n(1)));
    assert!(fe_eq(n(7), n(7)));
    let minus_one = fe_sub(n(0), n(1));
    assert!(!fe_fits(minus_one));
    assert!(fe_fits(n(u64::MAX)));
    assert!(!fe_fits(Fe { w0: 0, w1: 1, w2: 0, w3: 0 }));
}

#[test]
fn circuit_rejects_field_negative_amount() {
    let params = RollupParams::new();
    let state = genesis(&params, 100, 1);
    let cur = state.root();
    let mut tx = Tx { from: n(0), to: n(1), amount: fe_sub(n(0), n(1)), nonce: n(0), s: n(0), r: n(0) };
    tx.sign(n(1001), &params);
    let w = TxEx {
        leaf_from: state.leaf[0],
        leaf_to: state.leaf[1],
        proof_from: state.proof_of(0),
        proof_to: state.proof_of(1),
    };
    assert_eq!(c_step(cur, &tx, &w, &params), None);
    let mut fresh = genesis(&params, 100, 1);
    assert!(fresh.transact(&tx, &params).is_none());
}
