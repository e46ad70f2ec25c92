//! The transition engine: checks a transfer against the accounts, applies
//! it, and records what a prover needs; and blocks of transfers.
use vstd::prelude::*;

use crate::crypto::RollupParams;
use crate::field::{fe_add, fe_lt, fe_sub, field_add, field_sub, lemma_fe_of_val, modulus, Fe};
use crate::model::{Leaf, RollupPub, RollupSec, Tx, TxEx};
use crate::tree::{leaf_hashes, proof_matches, tree_root, RollupState};

verus! {

/// The account that `x` names among `n`, if any.
pub open spec fn index_of(x: Fe, n: nat) -> Option<nat> {
    if x.w1 == 0 && x.w2 == 0 && x.w3 == 0 && (x.w0 as nat) < n {
        Some(x.w0 as nat)
    } else {
        None
    }
}

/// The sender after the transfer: debited, its nonce one up.
pub open spec fn debit(l: Leaf, amount: Fe) -> Leaf {
    Leaf {
        owner: l.owner,
        amount: field_sub(l.amount, amount),
        nonce: field_add(l.nonce, Fe::spec_from_u64(1)),
    }
}

/// The receiver after the transfer: credited.
pub open spec fn credit(l: Leaf, amount: Fe) -> Leaf {
    Leaf { owner: l.owner, amount: field_add(l.amount, amount), nonce: l.nonce }
}

/// The accounts once the sender of `tx`, account `f`, is debited.
pub open spec fn debited(leaves: Seq<Leaf>, tx: Tx, f: nat) -> Seq<Leaf> {
    leaves.update(f as int, debit(leaves[f as int], tx.amount))
}

/// Whether `tx` is accepted against `leaves`: both accounts exist, the
/// nonce is the sender's, the signature is the sender's, the sender holds
/// the amount, and the receiver's new balance still fits its bit width.
pub open spec fn accepts(leaves: Seq<Leaf>, tx: Tx) -> bool {
    match (index_of(tx.from, leaves.len()), index_of(tx.to, leaves.len())) {
        (Some(f), Some(t)) => {
            &&& leaves[f as int].nonce == tx.nonce
            &&& tx.spec_sigverify(leaves[f as int].owner)
            &&& !(leaves[f as int].amount.val() < tx.amount.val())
            &&& (f == t || field_add(leaves[t as int].amount, tx.amount).spec_fits_amount())
        },
        _ => false,
    }
}

/// The accounts after an accepted `tx`: the debit, then the credit.
pub open spec fn applied(leaves: Seq<Leaf>, tx: Tx) -> Seq<Leaf> {
    let f = index_of(tx.from, leaves.len()).unwrap();
    let t = index_of(tx.to, leaves.len()).unwrap();
    let l1 = debited(leaves, tx, f);
    l1.update(t as int, credit(l1[t as int], tx.amount))
}

/// What the witness of `tx`, applied to `leaves` in a tree of `depth`
/// levels, holds: both accounts as they were before the transfer, and
/// proofs that lead from the sender as it was to the root before, from the
/// debited sender to the root in between, from the receiver to the root in
/// between, and from the credited receiver to the root after.
pub open spec fn witness_of(leaves: Seq<Leaf>, depth: nat, tx: Tx, w: TxEx) -> bool {
    let f = index_of(tx.from, leaves.len()).unwrap();
    let t = index_of(tx.to, leaves.len()).unwrap();
    let l1 = debited(leaves, tx, f);
    &&& w.leaf_from == leaves[f as int]
    &&& w.leaf_to == leaves[t as int]
    &&& proof_matches(leaf_hashes(leaves), depth, f, w.proof_from)
    &&& proof_matches(leaf_hashes(l1), depth, t, w.proof_to)
    &&& w.proof_from.spec_root(leaves[f as int].spec_hash()) == tree_root(leaves, depth)
    &&& w.proof_from.spec_root(debit(leaves[f as int], tx.amount).spec_hash()) == tree_root(l1, depth)
    &&& w.proof_to.spec_root(l1[t as int].spec_hash()) == tree_root(l1, depth)
    &&& w.proof_to.spec_root(credit(l1[t as int], tx.amount).spec_hash()) == tree_root(applied(leaves, tx), depth)
}

/// The accounts after `txs` are applied in order, up to the first one that
/// is rejected; and whether none was.
pub open spec fn run(leaves: Seq<Leaf>, txs: Seq<Tx>) -> (Seq<Leaf>, bool)
    decreases txs.len(),
{
    if txs.len() == 0 {
        (leaves, true)
    } else {
        let (before, ok) = run(leaves, txs.drop_last());
        if ok && accepts(before, txs.last()) {
            (applied(before, txs.last()), true)
        } else {
            (before, false)
        }
    }
}

/// Once a transfer of `txs` is rejected, the later ones change nothing.
pub proof fn lemma_run_stops(leaves: Seq<Leaf>, txs: Seq<Tx>, k: nat)
    requires
        k <= txs.len(),
        !run(leaves, txs.take(k as int)).1,
    ensures
        run(leaves, txs) == run(leaves, txs.take(k as int)),
    decreases txs.len() - k,
{
    if k < txs.len() {
        assert(txs.take(k as int + 1).drop_last() =~= txs.take(k as int));
        lemma_run_stops(leaves, txs, k + 1);
    } else {
        assert(txs.take(k as int) =~= txs);
    }
}

/// A transfer whose nonce is not its sender's is rejected: `transact`
/// then returns nothing and leaves the accounts and hashes as they were.
pub proof fn lemma_bad_nonce_rejected(leaves: Seq<Leaf>, tx: Tx)
    requires
        index_of(tx.from, leaves.len()) is Some,
        leaves[index_of(tx.from, leaves.len()).unwrap() as int].nonce != tx.nonce,
    ensures
        !accepts(leaves, tx),
{
}

/// A transfer of more than its sender holds is rejected: `transact` then
/// returns nothing and leaves the accounts and hashes as they were.
pub proof fn lemma_overdraft_rejected(leaves: Seq<Leaf>, tx: Tx)
    requires
        index_of(tx.from, leaves.len()) is Some,
        leaves[index_of(tx.from, leaves.len()).unwrap() as int].amount.val() < tx.amount.val(),
    ensures
        !accepts(leaves, tx),
{
}

/// Two witnesses of one transfer on one set of accounts are the same: the
/// same accounts and the same proofs, sibling for sibling and bit for bit.
/// With `transact`'s own contract, two trees built apart over the same
/// accounts thus give the same roots and the same witness.
pub proof fn lemma_witness_unique(leaves: Seq<Leaf>, depth: nat, tx: Tx, w1: TxEx, w2: TxEx)
    requires
        witness_of(leaves, depth, tx, w1),
        witness_of(leaves, depth, tx, w2),
    ensures
        w1.leaf_from == w2.leaf_from,
        w1.leaf_to == w2.leaf_to,
        w1.proof_from.sibling@ == w2.proof_from.sibling@,
        w1.proof_from.path@ == w2.proof_from.path@,
        w1.proof_to.sibling@ == w2.proof_to.sibling@,
        w1.proof_to.path@ == w2.proof_to.path@,
{
    assert(w1.proof_from.sibling@ =~= w2.proof_from.sibling@);
    assert forall|m: int| 0 <= m < depth implies w1.proof_from.path@[m] == w2.proof_from.path@[m] by {
        assert(w1.proof_from.sibling@[m] == w2.proof_from.sibling@[m]);
    }
    assert(w1.proof_from.path@ =~= w2.proof_from.path@);
    assert(w1.proof_to.sibling@ =~= w2.proof_to.sibling@);
    assert forall|m: int| 0 <= m < depth implies w1.proof_to.path@[m] == w2.proof_to.path@[m] by {
        assert(w1.proof_to.sibling@[m] == w2.proof_to.sibling@[m]);
    }
    assert(w1.proof_to.path@ =~= w2.proof_to.path@);
}

/// An accepted transfer of zero moves no value: every balance stays, and
/// only the sender's nonce goes up by one.
pub proof fn lemma_zero_transfer_moves_nothing(leaves: Seq<Leaf>, tx: Tx)
    requires
        accepts(leaves, tx),
        tx.amount == Fe::spec_from_u64(0),
        forall|j: int| 0 <= j < leaves.len() ==> (#[trigger] leaves[j]).amount.wf(),
    ensures
        applied(leaves, tx).len() == leaves.len(),
        forall|j: int| 0 <= j < leaves.len() ==> #[trigger] applied(leaves, tx)[j].amount == leaves[j].amount,
        forall|j: int|
            0 <= j < leaves.len() && j != index_of(tx.from, leaves.len()).unwrap() ==> #[trigger] applied(leaves, tx)[j].nonce
                == leaves[j].nonce,
{
    let f = index_of(tx.from, leaves.len()).unwrap();
    let t = index_of(tx.to, leaves.len()).unwrap();
    let a = leaves[f as int].amount;
    lemma_fe_of_val(a);
    vstd::arithmetic::div_mod::lemma_small_mod(a.val() as nat, modulus() as nat);
    assert(field_sub(a, tx.amount) == a);
    let l1 = debited(leaves, tx, f);
    let b = l1[t as int].amount;
    lemma_fe_of_val(b);
    vstd::arithmetic::div_mod::lemma_small_mod(b.val() as nat, modulus() as nat);
    assert(field_add(b, tx.amount) == b);
}

fn account_index(x: Fe, n: usize) -> (r: Option<usize>)
    ensures
        r == (match index_of(x, n as nat) {
            Some(i) => Some(i as usize),
            None => None::<usize>,
        }),
{
    if x.w1 == 0 && x.w2 == 0 && x.w3 == 0 && x.w0 < n as u64 {
        Some(x.w0 as usize)
    } else {
        None
    }
}

impl RollupState {
    /// Checks `tx` against the accounts and, if it is accepted, applies it and
    /// returns its witness; a rejected transfer changes nothing.
    pub fn transact(&mut self, tx: &Tx, params: &RollupParams) -> (r: Option<TxEx>)
        requires
            params.wf(),
            old(self).wf(),
        ensures
            final(self).wf(),
            final(self).depth == old(self).depth,
            final(self).batch == old(self).batch,
            r.is_some() == accepts(old(self).leaf@, *tx),
            r.is_none() ==> final(self).leaf@ == old(self).leaf@ && final(self).level@ == old(self).level@,
            r.is_some() ==> final(self).leaf@ == applied(old(self).leaf@, *tx),
            r.is_some() ==> witness_of(old(self).leaf@, old(self).depth as nat, *tx, r.unwrap()),
    {
        let ghost l0 = self.leaf@;
        let ghost d = self.depth as nat;
        let n = self.leaf.len();
        let f = match account_index(tx.from, n) {
            Some(f) => f,
            None => {
                return None;
            },
        };
        let t = match account_index(tx.to, n) {
            Some(t) => t,
            None => {
                return None;
            },
        };
        if self.leaf[f].nonce != tx.nonce {
            return None;
        }
        if !tx.sigverify(self.leaf[f].owner, params) {
            return None;
        }
        if fe_lt(self.leaf[f].amount, tx.amount) {
            return None;
        }
        if f != t {
            let credited = fe_add(self.leaf[t].amount, tx.amount);
            if !credited.fits_amount() {
                return None;
            }
        }
        let leaf_from = self.leaf[f];
        let leaf_to = self.leaf[t];
        let proof_from = self.proof_of(f);
        let d_from = Leaf {
            owner: leaf_from.owner,
            amount: fe_sub(leaf_from.amount, tx.amount),
            nonce: fe_add(leaf_from.nonce, Fe::from_u64(1)),
        };
        let ghost b0 = self.base();
        self.leaf.set(f, d_from);
        assert(self.wf_except(f as nat));
        self.update(f, params);
        let ghost l1 = self.leaf@;
        assert(l1 == debited(l0, *tx, f as nat));
        assert(b0.update(f as int, d_from.spec_hash()) =~= leaf_hashes(l1));
        assert(b0.update(f as int, leaf_from.spec_hash()) =~= b0);
        let proof_to = self.proof_of(t);
        let c_to = Leaf {
            owner: self.leaf[t].owner,
            amount: fe_add(self.leaf[t].amount, tx.amount),
            nonce: self.leaf[t].nonce,
        };
        let ghost b1 = self.base();
        self.leaf.set(t, c_to);
        assert(self.wf_except(t as nat));
        self.update(t, params);
        assert(self.leaf@ == applied(l0, *tx));
        assert(b1.update(t as int, c_to.spec_hash()) =~= leaf_hashes(self.leaf@));
        assert(b1.update(t as int, l1[t as int].spec_hash()) =~= b1);
        Some(TxEx { leaf_from, leaf_to, proof_from, proof_to })
    }
}

impl RollupState {
    /// Applies a block of exactly `batch` transfers in order. It returns the
    /// roots before and after and the transfers with their witnesses, or
    /// nothing when one is rejected; the transfers before that one stay
    /// applied.
    pub fn block(&mut self, txs: &Vec<Tx>, params: &RollupParams) -> (r: Option<(RollupPub, RollupSec)>)
        requires
            params.wf(),
            old(self).wf(),
            txs@.len() == old(self).batch,
        ensures
            final(self).wf(),
            final(self).depth == old(self).depth,
            final(self).batch == old(self).batch,
            final(self).leaf@ == run(old(self).leaf@, txs@).0,
            r.is_some() == run(old(self).leaf@, txs@).1,
            r.is_some() ==> ({
                let (p, s) = r.unwrap();
                &&& p.root_before == tree_root(old(self).leaf@, old(self).depth as nat)
                &&& p.root_after == tree_root(final(self).leaf@, old(self).depth as nat)
                &&& s.tx@ == txs@
                &&& s.txex@.len() == txs@.len()
                &&& forall|i: int|
                    0 <= i < txs@.len() ==> witness_of(
                        #[trigger] run(old(self).leaf@, txs@.take(i)).0,
                        old(self).depth as nat,
                        txs@[i],
                        s.txex@[i],
                    )
            }),
    {
        let ghost l0 = self.leaf@;
        let ghost d = self.depth as nat;
        let root_before = self.root();
        let mut tx: Vec<Tx> = Vec::new();
        let mut txex: Vec<TxEx> = Vec::new();
        let mut i: usize = 0;
        assert(txs@.take(0) =~= Seq::<Tx>::empty());
        while i < txs.len()
            invariant
                params.wf(),
                self.wf(),
                self.depth == old(self).depth,
                d == old(self).depth,
                self.batch == old(self).batch,
                l0 == old(self).leaf@,
                i <= txs@.len(),
                run(l0, txs@.take(i as int)) == (self.leaf@, true),
                tx@ == txs@.take(i as int),
                txex@.len() == i,
                forall|j: int|
                    0 <= j < i ==> witness_of(#[trigger] run(l0, txs@.take(j)).0, d, txs@[j], txex@[j]),
            decreases txs@.len() - i,
        {
            assert(txs@.take(i as int + 1).drop_last() =~= txs@.take(i as int));
            let ghost before = self.leaf@;
            match self.transact(&txs[i], params) {
                Some(w) => {
                    tx.push(txs[i]);
                    txex.push(w);
                    i = i + 1;
                    assert(tx@ =~= txs@.take(i as int));
                },
                None => {
                    proof {
                        lemma_run_stops(l0, txs@, i as nat + 1);
                    }
                    return None;
                },
            }
        }
        assert(txs@.take(i as int) =~= txs@);
        let root_after = self.root();
        Some((RollupPub { root_before, root_after }, RollupSec { tx, txex }))
    }
}

} // verus!
