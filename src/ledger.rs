//! The sequencer's state: the account tree, the transfers accepted since
//! the last block with their witnesses, and the root the block starts from.
use vstd::prelude::*;

use crate::circuit::{
    amounts_fit, circuit_holds, lemma_padding_run, lemma_run_prefix, moves_value, witness_shaped,
};
use crate::crypto::RollupParams;
use crate::engine::{accepts, applied, run, witness_of};
use crate::field::{fe_eq, lemma_feq_refl, Fe};
use crate::model::{Leaf, RollupPub, RollupSec, Tx, TxEx};
use crate::tree::{tree_root, RollupState};

verus! {

/// A padding witness: empty accounts and all-zero proofs of `depth` levels.
pub open spec fn is_padding(w: TxEx, depth: nat) -> bool {
    &&& w.leaf_from == Leaf::empty()
    &&& w.leaf_to == Leaf::empty()
    &&& witness_shaped(w, depth)
    &&& w.proof_from.is_zeroed()
    &&& w.proof_to.is_zeroed()
}

impl RollupState {
    /// Writes account `i` and rehashes its path.
    pub fn set_leaf(&mut self, i: usize, leaf: Leaf, params: &RollupParams)
        requires
            params.wf(),
            old(self).wf(),
            i < old(self).leaf@.len(),
        ensures
            final(self).wf(),
            final(self).depth == old(self).depth,
            final(self).batch == old(self).batch,
            final(self).leaf@ == old(self).leaf@.update(i as int, leaf),
    {
        self.leaf.set(i, leaf);
        assert(self.wf_except(i as nat));
        self.update(i, params);
    }
}

/// The sequencer's state. `opened` is the accounts as they stood when the
/// pending block was opened: the pending transfers, applied to them in
/// order, give the current accounts, each with its witness.
pub struct Ledger {
    pub rollup: RollupState,
    pub pending_tx: Vec<Tx>,
    pub pending_tx_ex: Vec<TxEx>,
    pub root_before: Fe,
    pub opened: Ghost<Seq<Leaf>>,
}

impl Ledger {
    pub open spec fn wf(&self) -> bool {
        &&& self.rollup.wf()
        &&& self.pending_tx@.len() == self.pending_tx_ex@.len()
        &&& self.pending_tx@.len() <= self.rollup.batch
        &&& amounts_fit(self.opened@)
        &&& self.root_before == tree_root(self.opened@, self.rollup.depth as nat)
        &&& run(self.opened@, self.pending_tx@) == (self.rollup.leaf@, true)
        &&& forall|i: int| 0 <= i < self.pending_tx@.len() ==> moves_value(#[trigger] self.pending_tx@[i])
        &&& forall|i: int|
            0 <= i < self.pending_tx@.len() ==> witness_of(
                #[trigger] run(self.opened@, self.pending_tx@.take(i)).0,
                self.rollup.depth as nat,
                self.pending_tx@[i],
                self.pending_tx_ex@[i],
            )
    }

    /// A ledger that opens its first block on the tree as it stands; every
    /// balance must fit its width.
    pub fn new(rollup: RollupState) -> (r: Ledger)
        requires
            rollup.wf(),
            amounts_fit(rollup.leaf@),
        ensures
            r.wf(),
            r.rollup == rollup,
            r.pending_tx@.len() == 0,
            r.root_before == tree_root(rollup.leaf@, rollup.depth as nat),
    {
        let root_before = rollup.root();
        let ghost opened = rollup.leaf@;
        let r = Ledger { rollup, pending_tx: Vec::new(), pending_tx_ex: Vec::new(), root_before, opened: Ghost(opened) };
        assert(r.pending_tx@ =~= Seq::<Tx>::empty());
        r
    }

    /// Takes a transfer into the pending block. It is refused once the block
    /// holds `batch` transfers, so a block never overflows; when it moves no
    /// value (a zero amount, or a nonzero amount to its own sender), since no
    /// block holding it could be proved; and when the engine rejects it. A
    /// refused transfer changes nothing.
    pub fn post_tx(&mut self, tx: Tx, params: &RollupParams) -> (r: bool)
        requires
            params.wf(),
            old(self).wf(),
        ensures
            final(self).wf(),
            final(self).root_before == old(self).root_before,
            final(self).rollup.depth == old(self).rollup.depth,
            final(self).rollup.batch == old(self).rollup.batch,
            r == (old(self).pending_tx@.len() < old(self).rollup.batch && moves_value(tx) && accepts(
                old(self).rollup.leaf@,
                tx,
            )),
            r ==> final(self).rollup.leaf@ == applied(old(self).rollup.leaf@, tx)
                && final(self).pending_tx@ == old(self).pending_tx@.push(tx)
                && final(self).pending_tx_ex@.len() == old(self).pending_tx_ex@.len() + 1
                && final(self).pending_tx_ex@.drop_last() == old(self).pending_tx_ex@
                && witness_of(
                old(self).rollup.leaf@,
                old(self).rollup.depth as nat,
                tx,
                final(self).pending_tx_ex@.last(),
            ),
            !r ==> final(self).rollup.leaf@ == old(self).rollup.leaf@
                && final(self).pending_tx@ == old(self).pending_tx@
                && final(self).pending_tx_ex@ == old(self).pending_tx_ex@,
    {
        if self.pending_tx.len() >= self.rollup.batch {
            return false;
        }
        if fe_eq(tx.amount, Fe::zero()) || fe_eq(tx.from, tx.to) {
            return false;
        }
        let ghost old_tx = self.pending_tx@;
        let ghost old_ex = self.pending_tx_ex@;
        match self.rollup.transact(&tx, params) {
            Some(w) => {
                self.pending_tx.push(tx);
                self.pending_tx_ex.push(w);
                proof {
                    let o = self.opened@;
                    assert(self.pending_tx@.drop_last() =~= old_tx);
                    assert(self.pending_tx_ex@.drop_last() =~= old_ex);
                    assert forall|i: int| 0 <= i <= old_tx.len() implies #[trigger] self.pending_tx@.take(i)
                        == old_tx.take(i) by {
                        assert(self.pending_tx@.take(i) =~= old_tx.take(i));
                    }
                    assert(old_tx.take(old_tx.len() as int) =~= old_tx);
                    assert forall|i: int| 0 <= i < self.pending_tx@.len() implies witness_of(
                        #[trigger] run(o, self.pending_tx@.take(i)).0,
                        self.rollup.depth as nat,
                        self.pending_tx@[i],
                        self.pending_tx_ex@[i],
                    ) by {
                        assert(self.pending_tx@.take(i) == old_tx.take(i));
                    }
                }
                true
            },
            None => false,
        }
    }

    /// Seals the pending block: pads it to `batch` transfers with zero
    /// transfers from account 0 to itself, whose witnesses hold empty
    /// accounts and all-zero proofs; returns its public and private input,
    /// which satisfy the block circuit; and opens the next block on the
    /// current root.
    pub fn publish_block(&mut self) -> (r: (RollupPub, RollupSec))
        requires
            old(self).wf(),
        ensures
            final(self).wf(),
            final(self).rollup == old(self).rollup,
            final(self).pending_tx@.len() == 0,
            final(self).root_before == tree_root(old(self).rollup.leaf@, old(self).rollup.depth as nat),
            r.0.root_before == old(self).root_before,
            r.0.root_after == tree_root(old(self).rollup.leaf@, old(self).rollup.depth as nat),
            r.1.tx@.len() == old(self).rollup.batch,
            r.1.txex@.len() == old(self).rollup.batch,
            forall|i: int| 0 <= i < old(self).pending_tx@.len() ==> #[trigger] r.1.tx@[i] == old(self).pending_tx@[i],
            forall|i: int| 0 <= i < old(self).pending_tx@.len() ==> #[trigger] r.1.txex@[i] == old(self).pending_tx_ex@[i],
            forall|i: int| old(self).pending_tx@.len() <= i < old(self).rollup.batch ==> #[trigger] r.1.tx@[i] == Tx::empty(),
            forall|i: int|
                old(self).pending_tx@.len() <= i < old(self).rollup.batch ==> is_padding(
                    #[trigger] r.1.txex@[i],
                    old(self).rollup.depth as nat,
                ),
            circuit_holds(r.0, r.1, old(self).rollup.depth as nat, old(self).rollup.batch as nat),
    {
        let batch = self.rollup.batch;
        let depth = self.rollup.depth;
        let root = self.rollup.root();
        let mut tx: Vec<Tx> = Vec::new();
        let mut txex: Vec<TxEx> = Vec::new();
        std::mem::swap(&mut tx, &mut self.pending_tx);
        std::mem::swap(&mut txex, &mut self.pending_tx_ex);
        let ghost n = tx@.len();
        let ghost ptx = tx@;
        let ghost pex = txex@;
        while tx.len() < batch
            invariant
                n <= tx@.len() <= batch,
                ptx.len() == n,
                pex.len() == n,
                tx@.len() == txex@.len(),
                forall|i: int| 0 <= i < n ==> #[trigger] tx@[i] == ptx[i],
                forall|i: int| 0 <= i < n ==> #[trigger] txex@[i] == pex[i],
                forall|i: int| n <= i < tx@.len() ==> #[trigger] tx@[i] == Tx::empty(),
                forall|i: int| n <= i < tx@.len() ==> is_padding(#[trigger] txex@[i], depth as nat),
            decreases batch - tx@.len(),
        {
            tx.push(Tx::default());
            txex.push(TxEx::padding(depth));
        }
        let p = RollupPub { root_before: self.root_before, root_after: root };
        let s = RollupSec { tx, txex };
        proof {
            let o = self.opened@;
            let d = depth as nat;
            assert(ptx.take(n as int) =~= ptx);
            lemma_run_prefix(o, d, ptx, p, s, n);
            lemma_padding_run(p.root_before, s, n, batch as nat);
            lemma_feq_refl(root);
            assert forall|i: int| 0 <= i < batch implies witness_shaped(#[trigger] s.txex@[i], d) by {
                if i < n {
                    assert(witness_of(run(o, ptx.take(i)).0, d, ptx[i], pex[i]));
                }
            }
        }
        self.root_before = root;
        self.opened = Ghost(self.rollup.leaf@);
        assert(self.pending_tx@ =~= Seq::<Tx>::empty());
        (p, s)
    }

    /// Account `id`, or nothing when there is no such account.
    pub fn get_leaf(&self, id: usize) -> (r: Option<Leaf>)
        requires
            self.wf(),
        ensures
            r == (if id < self.rollup.leaf@.len() {
                Some(self.rollup.leaf@[id as int])
            } else {
                None::<Leaf>
            }),
    {
        if id < self.rollup.leaf.len() {
            Some(self.rollup.leaf[id])
        } else {
            None
        }
    }
}

} // verus!
