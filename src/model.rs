//! Accounts, transfers, Merkle proofs and the records handed to the prover.
use vstd::prelude::*;

use crate::crypto::{compress, leaf_hash3, sig_valid, signature, tx_hash4, RollupParams};
use crate::field::Fe;

verus! {

/// One account: the owner's public key, its balance and its next nonce.
#[derive(Debug, Clone, Copy, PartialEq, Eq, Structural)]
pub struct Leaf {
    pub owner: Fe,
    pub amount: Fe,
    pub nonce: Fe,
}

impl Default for Leaf {
    fn default() -> (r: Leaf)
        ensures
            r == Leaf::empty(),
    {
        Leaf { owner: Fe::zero(), amount: Fe::zero(), nonce: Fe::zero() }
    }
}

impl Leaf {
    pub open spec fn empty() -> Leaf {
        Leaf {
            owner: Fe::spec_from_u64(0),
            amount: Fe::spec_from_u64(0),
            nonce: Fe::spec_from_u64(0),
        }
    }

    pub open spec fn spec_hash(self) -> Fe {
        leaf_hash3(self.owner, self.amount, self.nonce)
    }

    pub fn hash(&self, params: &RollupParams) -> (r: Fe)
        requires
            params.wf(),
        ensures
            r == self.spec_hash(),
            r.wf(),
    {
        let inputs: Vec<Fe> = vec![self.owner, self.amount, self.nonce];
        assert(inputs@ =~= seq![self.owner, self.amount, self.nonce]);
        params.leaf.hash(&inputs)
    }
}

/// A signed transfer of `amount` from account `from` to account `to`.
#[derive(Debug, Clone, Copy, PartialEq, Eq, Structural)]
pub struct Tx {
    pub from: Fe,
    pub to: Fe,
    pub amount: Fe,
    pub nonce: Fe,
    pub s: Fe,
    pub r: Fe,
}

impl Default for Tx {
    fn default() -> (r: Tx)
        ensures
            r == Tx::empty(),
    {
        Tx {
            from: Fe::zero(),
            to: Fe::zero(),
            amount: Fe::zero(),
            nonce: Fe::zero(),
            s: Fe::zero(),
            r: Fe::zero(),
        }
    }
}

impl Tx {
    /// The padding transfer: zero amount from account 0 to itself.
    pub open spec fn empty() -> Tx {
        Tx {
            from: Fe::spec_from_u64(0),
            to: Fe::spec_from_u64(0),
            amount: Fe::spec_from_u64(0),
            nonce: Fe::spec_from_u64(0),
            s: Fe::spec_from_u64(0),
            r: Fe::spec_from_u64(0),
        }
    }

    /// The signed message: the signature fields take no part in it.
    pub open spec fn spec_hash(self) -> Fe {
        tx_hash4(self.from, self.to, self.amount, self.nonce)
    }

    pub open spec fn spec_sigverify(self, owner: Fe) -> bool {
        sig_valid(self.s, self.r, owner, self.spec_hash())
    }

    pub fn hash(&self, params: &RollupParams) -> (r: Fe)
        requires
            params.wf(),
        ensures
            r == self.spec_hash(),
            r.wf(),
    {
        let inputs: Vec<Fe> = vec![self.from, self.to, self.amount, self.nonce];
        assert(inputs@ =~= seq![self.from, self.to, self.amount, self.nonce]);
        params.tx.hash(&inputs)
    }

    pub fn sigverify(&self, owner: Fe, params: &RollupParams) -> (ok: bool)
        requires
            params.wf(),
        ensures
            ok == self.spec_sigverify(owner),
    {
        let m = self.hash(params);
        params.verify(self.s, self.r, owner, m)
    }

    /// Signs the transfer with the sender's secret scalar.
    pub fn sign(&mut self, secret: Fe, params: &RollupParams)
        requires
            params.wf(),
        ensures
            (final(self).s, final(self).r) == signature(secret, old(self).spec_hash()),
            final(self).from == old(self).from,
            final(self).to == old(self).to,
            final(self).amount == old(self).amount,
            final(self).nonce == old(self).nonce,
    {
        let m = self.hash(params);
        let (s, r) = params.sign_message(secret, m);
        self.s = s;
        self.r = r;
    }
}

/// Hashes of one step up the tree: the node `cur` and its sibling `sib`,
/// with `right` telling that `cur` is the right child.
pub open spec fn step_up(cur: Fe, sib: Fe, right: bool) -> Fe {
    if right {
        compress(sib, cur)
    } else {
        compress(cur, sib)
    }
}

/// The root that the first `k` levels of a proof give from the hash `leaf`.
pub open spec fn proof_root_upto(leaf: Fe, sibling: Seq<Fe>, path: Seq<bool>, k: nat) -> Fe
    decreases k,
{
    if k == 0 {
        leaf
    } else {
        step_up(
            proof_root_upto(leaf, sibling, path, (k - 1) as nat),
            sibling[k - 1],
            path[k - 1],
        )
    }
}

/// One sibling hash and one direction bit per level, leaf level first.
#[derive(Debug, Clone)]
pub struct MerkleProof {
    pub sibling: Vec<Fe>,
    pub path: Vec<bool>,
}

impl MerkleProof {
    pub open spec fn depth(&self) -> nat {
        self.sibling@.len()
    }

    pub open spec fn wf(&self) -> bool {
        self.path@.len() == self.sibling@.len()
    }

    pub open spec fn spec_root(&self, leaf: Fe) -> Fe {
        proof_root_upto(leaf, self.sibling@, self.path@, self.sibling@.len())
    }

    /// Every sibling is zero and every bit clear.
    pub open spec fn is_zeroed(&self) -> bool {
        forall|k: int| 0 <= k < self.sibling@.len() ==> #[trigger] self.sibling@[k] == Fe::spec_from_u64(0) && !self.path@[k]
    }

    /// A proof of `depth` levels with every sibling zero and every bit clear.
    pub fn zeroed(depth: usize) -> (r: MerkleProof)
        ensures
            r.wf(),
            r.depth() == depth,
            r.is_zeroed(),
    {
        let mut sibling: Vec<Fe> = Vec::new();
        let mut path: Vec<bool> = Vec::new();
        let mut k: usize = 0;
        while k < depth
            invariant
                k <= depth,
                sibling@.len() == k,
                path@.len() == k,
                forall|j: int| 0 <= j < k ==> sibling@[j] == Fe::spec_from_u64(0) && !path@[j],
            decreases depth - k,
        {
            sibling.push(Fe::zero());
            path.push(false);
            k = k + 1;
        }
        MerkleProof { sibling, path }
    }

    /// The root that this proof gives from the leaf hash `leaf`.
    pub fn root(&self, leaf: Fe, params: &RollupParams) -> (r: Fe)
        requires
            self.wf(),
            params.wf(),
        ensures
            r == self.spec_root(leaf),
    {
        let mut cur = leaf;
        let mut k: usize = 0;
        while k < self.sibling.len()
            invariant
                self.wf(),
                params.wf(),
                k <= self.sibling@.len(),
                cur == proof_root_upto(leaf, self.sibling@, self.path@, k as nat),
            decreases self.sibling@.len() - k,
        {
            cur = hash_step(cur, self.sibling[k], self.path[k], params);
            k = k + 1;
        }
        cur
    }
}

/// Compresses a node with its sibling, in the order that `right` gives.
pub fn hash_step(cur: Fe, sib: Fe, right: bool, params: &RollupParams) -> (r: Fe)
    requires
        params.wf(),
    ensures
        r == step_up(cur, sib, right),
        r.wf(),
{
    let pair: Vec<Fe> = if right {
        vec![sib, cur]
    } else {
        vec![cur, sib]
    };
    if right {
        assert(pair@ =~= seq![sib, cur]);
    } else {
        assert(pair@ =~= seq![cur, sib]);
    }
    params.compress.hash(&pair)
}

/// What the prover needs of one applied transfer: both accounts and their
/// proofs, each taken just before the account was changed.
#[derive(Debug, Clone)]
pub struct TxEx {
    pub leaf_from: Leaf,
    pub leaf_to: Leaf,
    pub proof_from: MerkleProof,
    pub proof_to: MerkleProof,
}

impl TxEx {
    /// The witness of a padding transfer in a tree of `depth` levels.
    pub fn padding(depth: usize) -> (r: TxEx)
        ensures
            r.leaf_from == Leaf::empty(),
            r.leaf_to == Leaf::empty(),
            r.proof_from.wf() && r.proof_from.depth() == depth,
            r.proof_to.wf() && r.proof_to.depth() == depth,
            r.proof_from.is_zeroed(),
            r.proof_to.is_zeroed(),
    {
        TxEx {
            leaf_from: Leaf::default(),
            leaf_to: Leaf::default(),
            proof_from: MerkleProof::zeroed(depth),
            proof_to: MerkleProof::zeroed(depth),
        }
    }
}

/// The public input of a block: the roots before and after it.
#[derive(Debug, Clone, Copy, PartialEq, Eq, Structural)]
pub struct RollupPub {
    pub root_before: Fe,
    pub root_after: Fe,
}

/// The private input of a block: its transfers and their witnesses, index
/// for index.
#[derive(Debug, Clone)]
pub struct RollupSec {
    pub tx: Vec<Tx>,
    pub txex: Vec<TxEx>,
}

} // verus!
