//! The constraint system of a block, evaluated on concrete values: it holds
//! exactly when every constraint that the circuit asserts is met.
use vstd::prelude::*;

use crate::crypto::RollupParams;
use crate::engine::{accepts, applied, credit, debit, debited, index_of, run, witness_of};
use crate::field::{
    fe_add, fe_eq, fe_fits, fe_sub, feq, fits_field, lemma_fe_of_small, lemma_feq_refl, lemma_fits_amount,
    modulus, word, Fe,
};
use crate::model::{Leaf, RollupPub, RollupSec, Tx, TxEx};
use crate::tree::tree_root;

verus! {

/// `a` where `cond` holds, else `b`: the circuit's branch-free choice
/// `b + (a - b) * cond`.
pub open spec fn select(cond: bool, a: Fe, b: Fe) -> Fe {
    if cond {
        a
    } else {
        b
    }
}

pub fn select_fe(cond: bool, a: Fe, b: Fe) -> (r: Fe)
    ensures
        r == select(cond, a, b),
{
    if cond {
        a
    } else {
        b
    }
}

/// The witness has the shape that a circuit over `depth` levels allocates.
pub open spec fn witness_shaped(w: TxEx, depth: nat) -> bool {
    &&& w.proof_from.wf() && w.proof_from.depth() == depth
    &&& w.proof_to.wf() && w.proof_to.depth() == depth
}

/// The constraints of one transfer, from the running root `cur`: the new
/// running root if they hold. Equalities are of field values. A transfer of
/// zero is padding: only the range checks bind it, and the running root
/// stays.
pub open spec fn circuit_step(cur: Fe, tx: Tx, w: TxEx) -> Option<Fe> {
    let notempty = !feq(tx.amount, Fe::spec_from_u64(0));
    let selftx = feq(tx.from, tx.to);
    let from1 = debit(w.leaf_from, tx.amount);
    let mid = select(notempty, w.proof_from.spec_root(from1.spec_hash()), cur);
    let to1 = credit(w.leaf_to, tx.amount);
    let after = select(notempty, w.proof_to.spec_root(to1.spec_hash()), mid);
    if notempty && selftx {
        None
    } else if notempty && !fits_field(tx.amount) {
        None
    } else if notempty && !feq(w.leaf_from.nonce, tx.nonce) {
        None
    } else if notempty && !tx.spec_sigverify(w.leaf_from.owner) {
        None
    } else if notempty && !feq(w.proof_from.spec_root(w.leaf_from.spec_hash()), cur) {
        None
    } else if !from1.amount.spec_fits_amount() {
        None
    } else if notempty && !feq(w.proof_to.spec_root(w.leaf_to.spec_hash()), mid) {
        None
    } else if !to1.amount.spec_fits_amount() {
        None
    } else {
        Some(after)
    }
}

/// The running root after the first `k` transfers, if their constraints
/// hold.
pub open spec fn circuit_run(root: Fe, txs: Seq<Tx>, ws: Seq<TxEx>, k: nat) -> Option<Fe>
    decreases k,
{
    if k == 0 {
        Some(root)
    } else {
        match circuit_run(root, txs, ws, (k - 1) as nat) {
            Some(cur) => circuit_step(cur, txs[k - 1], ws[k - 1]),
            None => None,
        }
    }
}

/// Whether the circuit of a block of `batch` transfers over a tree of
/// `depth` levels is satisfied by the public input `p` and the witness `s`.
pub open spec fn circuit_holds(p: RollupPub, s: RollupSec, depth: nat, batch: nat) -> bool {
    &&& s.tx@.len() == batch
    &&& s.txex@.len() == batch
    &&& forall|i: int| 0 <= i < batch ==> witness_shaped(#[trigger] s.txex@[i], depth)
    &&& circuit_run(p.root_before, s.tx@, s.txex@, batch) matches Some(root) && feq(root, p.root_after)
}

fn debit_leaf(l: Leaf, amount: Fe) -> (r: Leaf)
    ensures
        r == debit(l, amount),
{
    Leaf { owner: l.owner, amount: fe_sub(l.amount, amount), nonce: fe_add(l.nonce, Fe::from_u64(1)) }
}

fn credit_leaf(l: Leaf, amount: Fe) -> (r: Leaf)
    ensures
        r == credit(l, amount),
{
    Leaf { owner: l.owner, amount: fe_add(l.amount, amount), nonce: l.nonce }
}

/// Evaluates the constraints of one transfer from the running root `cur`.
pub fn c_step(cur: Fe, tx: &Tx, w: &TxEx, params: &RollupParams) -> (r: Option<Fe>)
    requires
        params.wf(),
        w.proof_from.wf(),
        w.proof_to.wf(),
    ensures
        r == circuit_step(cur, *tx, *w),
{
    let notempty = !fe_eq(tx.amount, Fe::zero());
    let selftx = fe_eq(tx.from, tx.to);
    if notempty && selftx {
        return None;
    }
    if notempty && !fe_fits(tx.amount) {
        return None;
    }
    if notempty && !fe_eq(w.leaf_from.nonce, tx.nonce) {
        return None;
    }
    if notempty && !tx.sigverify(w.leaf_from.owner, params) {
        return None;
    }
    if notempty && !fe_eq(w.proof_from.root(w.leaf_from.hash(params), params), cur) {
        return None;
    }
    let from1 = debit_leaf(w.leaf_from, tx.amount);
    if !from1.amount.fits_amount() {
        return None;
    }
    let mid = select_fe(notempty, w.proof_from.root(from1.hash(params), params), cur);
    if notempty && !fe_eq(w.proof_to.root(w.leaf_to.hash(params), params), mid) {
        return None;
    }
    let to1 = credit_leaf(w.leaf_to, tx.amount);
    if !to1.amount.fits_amount() {
        return None;
    }
    Some(select_fe(notempty, w.proof_to.root(to1.hash(params), params), mid))
}

/// Whether the circuit of a block of `batch` transfers over a tree of
/// `depth` levels is satisfied by `p` and `s`.
pub fn c_rollup(p: &RollupPub, s: &RollupSec, depth: usize, batch: usize, params: &RollupParams) -> (r: bool)
    requires
        params.wf(),
    ensures
        r == circuit_holds(*p, *s, depth as nat, batch as nat),
{
    if s.tx.len() != batch || s.txex.len() != batch {
        return false;
    }
    let mut k: usize = 0;
    while k < batch
        invariant
            s.txex@.len() == batch,
            k <= batch,
            forall|i: int| 0 <= i < k ==> witness_shaped(#[trigger] s.txex@[i], depth as nat),
        decreases batch - k,
    {
        let w = &s.txex[k];
        if w.proof_from.sibling.len() != depth || w.proof_from.path.len() != depth
            || w.proof_to.sibling.len() != depth || w.proof_to.path.len() != depth {
            assert(!witness_shaped(s.txex@[k as int], depth as nat));
            return false;
        }
        k = k + 1;
    }
    let mut cur = p.root_before;
    let mut i: usize = 0;
    while i < batch
        invariant
            params.wf(),
            s.tx@.len() == batch,
            s.txex@.len() == batch,
            i <= batch,
            forall|j: int| 0 <= j < batch ==> witness_shaped(#[trigger] s.txex@[j], depth as nat),
            circuit_run(p.root_before, s.tx@, s.txex@, i as nat) == Some(cur),
        decreases batch - i,
    {
        assert(witness_shaped(s.txex@[i as int], depth as nat));
        match c_step(cur, &s.tx[i], &s.txex[i], params) {
            Some(next) => {
                cur = next;
            },
            None => {
                proof {
                    lemma_run_fails_on(p.root_before, s.tx@, s.txex@, (i + 1) as nat, batch as nat);
                }
                return false;
            },
        }
        i = i + 1;
    }
    fe_eq(cur, p.root_after)
}

/// Once the constraints of a transfer fail, those of every longer prefix do.
pub proof fn lemma_run_fails_on(root: Fe, txs: Seq<Tx>, ws: Seq<TxEx>, k: nat, n: nat)
    requires
        k <= n,
        circuit_run(root, txs, ws, k) is None,
    ensures
        circuit_run(root, txs, ws, n) is None,
    decreases n - k,
{
    if k < n {
        lemma_run_fails_on(root, txs, ws, k + 1, n);
    }
}

/// A padding transfer leaves the running root as it was.
pub proof fn lemma_padding_keeps_root(cur: Fe, tx: Tx, w: TxEx)
    requires
        feq(tx.amount, Fe::spec_from_u64(0)),
    ensures
        circuit_step(cur, tx, w) is Some ==> circuit_step(cur, tx, w) == Some(cur),
{
}

/// A transfer of a nonzero amount from an account to itself never meets the
/// constraints, whatever its witness.
pub proof fn lemma_self_transfer_rejected(cur: Fe, tx: Tx, w: TxEx)
    requires
        !feq(tx.amount, Fe::spec_from_u64(0)),
        feq(tx.from, tx.to),
    ensures
        circuit_step(cur, tx, w) is None,
{
}

/// Every balance fits the amount width.
pub open spec fn amounts_fit(leaves: Seq<Leaf>) -> bool {
    forall|j: int| 0 <= j < leaves.len() ==> (#[trigger] leaves[j]).amount.spec_fits_amount()
}

/// A transfer that the circuit treats as a transfer: nonzero, between two
/// accounts.
pub open spec fn moves_value(tx: Tx) -> bool {
    !feq(tx.amount, Fe::spec_from_u64(0)) && !feq(tx.from, tx.to)
}

/// One accepted transfer that moves value meets the constraints, from the
/// root before it to the root after it, and keeps every balance in width.
proof fn lemma_step_satisfied(x: Seq<Leaf>, depth: nat, tx: Tx, w: TxEx)
    requires
        accepts(x, tx),
        amounts_fit(x),
        moves_value(tx),
        witness_of(x, depth, tx, w),
    ensures
        circuit_step(tree_root(x, depth), tx, w) == Some(tree_root(applied(x, tx), depth)),
        amounts_fit(applied(x, tx)),
{
    let f = index_of(tx.from, x.len()).unwrap();
    let t = index_of(tx.to, x.len()).unwrap();
    let l1 = debited(x, tx, f);
    let a = x[f as int].amount;
    let from1 = debit(x[f as int], tx.amount);
    let to1 = credit(l1[t as int], tx.amount);
    lemma_feq_refl(tx.from);
    assert(f != t);
    assert(l1[t as int] == x[t as int]);
    lemma_feq_refl(x[f as int].nonce);
    lemma_feq_refl(tree_root(x, depth));
    lemma_feq_refl(tree_root(debited(x, tx, f), depth));
    vstd::arithmetic::div_mod::lemma_small_mod(tx.amount.val() as nat, modulus() as nat);
    lemma_fits_amount(a);
    lemma_fits_amount(from1.amount);
    lemma_fits_amount(tx.amount);
    assert(word() < modulus());
    assert(0 <= a.val() - tx.amount.val() < word());
    assert((a.val() - tx.amount.val()) % modulus() == a.val() - tx.amount.val()) by {
        vstd::arithmetic::div_mod::lemma_small_mod(
            (a.val() - tx.amount.val()) as nat,
            modulus() as nat,
        );
    }
    lemma_fe_of_small(a.val() - tx.amount.val());
    assert(from1.amount.spec_fits_amount());
    assert(to1.amount.spec_fits_amount());
    let y = applied(x, tx);
    assert forall|j: int| 0 <= j < y.len() implies (#[trigger] y[j]).amount.spec_fits_amount() by {
        if j != f && j != t {
            assert(y[j] == x[j]);
        }
    }
}

/// A block that the engine accepts in full, of transfers that each move
/// value, from accounts whose balances fit their width, satisfies the
/// circuit on the roots and witnesses that `block` returns.
pub proof fn lemma_block_satisfies_circuit(
    leaves: Seq<Leaf>,
    depth: nat,
    txs: Seq<Tx>,
    p: RollupPub,
    s: RollupSec,
)
    requires
        amounts_fit(leaves),
        forall|i: int| 0 <= i < txs.len() ==> moves_value(#[trigger] txs[i]),
        run(leaves, txs).1,
        p.root_before == tree_root(leaves, depth),
        p.root_after == tree_root(run(leaves, txs).0, depth),
        s.tx@ == txs,
        s.txex@.len() == txs.len(),
        forall|i: int|
            0 <= i < txs.len() ==> witness_of(#[trigger] run(leaves, txs.take(i)).0, depth, txs[i], s.txex@[i]),
    ensures
        circuit_holds(p, s, depth, txs.len()),
{
    assert(txs.take(txs.len() as int) =~= txs);
    assert forall|i: int| 0 <= i < txs.len() implies #[trigger] s.tx@[i] == txs[i] by {}
    lemma_run_prefix(leaves, depth, txs, p, s, txs.len());
    lemma_feq_refl(p.root_after);
    assert forall|i: int| 0 <= i < txs.len() implies witness_shaped(#[trigger] s.txex@[i], depth) by {
        assert(witness_of(run(leaves, txs.take(i)).0, depth, txs[i], s.txex@[i]));
    }
}

/// The running root after the first `k` transfers of `s`, when they are the
/// accepted, value-moving transfers `txs` with their witnesses.
pub proof fn lemma_run_prefix(leaves: Seq<Leaf>, depth: nat, txs: Seq<Tx>, p: RollupPub, s: RollupSec, k: nat)
    requires
        k <= txs.len(),
        txs.len() <= s.tx@.len(),
        txs.len() <= s.txex@.len(),
        forall|i: int| 0 <= i < txs.len() ==> #[trigger] s.tx@[i] == txs[i],
        amounts_fit(leaves),
        forall|i: int| 0 <= i < txs.len() ==> moves_value(#[trigger] txs[i]),
        run(leaves, txs.take(k as int)).1,
        p.root_before == tree_root(leaves, depth),
        forall|i: int|
            0 <= i < txs.len() ==> witness_of(#[trigger] run(leaves, txs.take(i)).0, depth, txs[i], s.txex@[i]),
    ensures
        circuit_run(p.root_before, s.tx@, s.txex@, k) == Some(tree_root(run(leaves, txs.take(k as int)).0, depth)),
        amounts_fit(run(leaves, txs.take(k as int)).0),
    decreases k,
{
    if k == 0 {
        assert(txs.take(0) =~= Seq::<Tx>::empty());
    } else {
        let k1 = (k - 1) as nat;
        assert(txs.take(k as int).drop_last() =~= txs.take(k1 as int));
        assert(txs.take(k as int).last() == txs[k1 as int]);
        lemma_run_prefix(leaves, depth, txs, p, s, k1);
        let x = run(leaves, txs.take(k1 as int)).0;
        assert(witness_of(x, depth, txs[k1 as int], s.txex@[k1 as int]));
        assert(s.tx@[k1 as int] == txs[k1 as int]);
        lemma_step_satisfied(x, depth, txs[k1 as int], s.txex@[k1 as int]);
    }
}

/// Padding transfers with empty accounts leave the running root as it is.
pub proof fn lemma_padding_run(root: Fe, s: RollupSec, m: nat, k: nat)
    requires
        m <= k <= s.tx@.len(),
        k <= s.txex@.len(),
        circuit_run(root, s.tx@, s.txex@, m) is Some,
        forall|i: int| m <= i < s.tx@.len() ==> #[trigger] s.tx@[i] == Tx::empty(),
        forall|i: int|
            m <= i < s.txex@.len() ==> (#[trigger] s.txex@[i]).leaf_from == Leaf::empty() && s.txex@[i].leaf_to
                == Leaf::empty(),
    ensures
        circuit_run(root, s.tx@, s.txex@, k) == circuit_run(root, s.tx@, s.txex@, m),
    decreases k - m,
{
    if k > m {
        let k1 = (k - 1) as nat;
        lemma_padding_run(root, s, m, k1);
        lemma_feq_refl(Fe::spec_from_u64(0));
        vstd::arithmetic::div_mod::lemma_small_mod(0, modulus() as nat);
        lemma_fe_of_small(0);
        assert(s.tx@[k1 as int] == Tx::empty());
        assert(s.txex@[k1 as int].leaf_from == Leaf::empty());
    }
}

} // verus!
