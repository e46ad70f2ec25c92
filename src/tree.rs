//! The account tree: a complete binary Merkle tree with one leaf per account,
//! stored level by level from the leaf hashes up to the root.
use vstd::arithmetic::div_mod::lemma_div_denominator;
use vstd::arithmetic::power2::{lemma2_to64, lemma_pow2_pos, lemma_pow2_unfold, pow2};
use vstd::prelude::*;

use crate::crypto::{compress, RollupParams};
use crate::field::Fe;
use crate::model::{hash_step, proof_root_upto, Leaf, MerkleProof};

verus! {

/// The leaf hashes of a sequence of accounts.
pub open spec fn leaf_hashes(leaves: Seq<Leaf>) -> Seq<Fe> {
    leaves.map_values(|l: Leaf| l.spec_hash())
}

/// One level up: node `j` is the compression of nodes `2j` and `2j + 1`.
pub open spec fn pair_up(s: Seq<Fe>) -> Seq<Fe> {
    Seq::new(s.len() / 2, |j: int| compress(s[2 * j], s[2 * j + 1]))
}

/// Level `k` of the tree whose bottom level is `base`.
pub open spec fn level_of(base: Seq<Fe>, k: nat) -> Seq<Fe>
    decreases k,
{
    if k == 0 {
        base
    } else {
        pair_up(level_of(base, (k - 1) as nat))
    }
}

/// The root of the tree of `depth` levels over `leaves`, built from scratch.
pub open spec fn tree_root(leaves: Seq<Leaf>, depth: nat) -> Fe {
    level_of(leaf_hashes(leaves), depth)[0]
}

/// The position, on level `k`, of the ancestor of leaf `i`.
pub open spec fn path_index(i: nat, k: nat) -> nat {
    i / pow2(k)
}

/// The position of the sibling of that ancestor.
pub open spec fn sibling_index(i: nat, k: nat) -> nat {
    if path_index(i, k) % 2 == 1 {
        (path_index(i, k) - 1) as nat
    } else {
        path_index(i, k) + 1
    }
}

pub proof fn lemma_level_len(base: Seq<Fe>, d: nat, k: nat)
    requires
        base.len() == pow2(d),
        k <= d,
    ensures
        level_of(base, k).len() == pow2((d - k) as nat),
    decreases k,
{
    if k > 0 {
        lemma_level_len(base, d, (k - 1) as nat);
        lemma_pow2_unfold((d - k + 1) as nat);
    }
}

pub proof fn lemma_path_index_step(i: nat, k: nat)
    ensures
        path_index(i, k + 1) == path_index(i, k) / 2,
        pow2(k + 1) == 2 * pow2(k),
{
    lemma_pow2_unfold(k + 1);
    lemma_pow2_pos(k);
    lemma_div_denominator(i as int, pow2(k) as int, 2);
}

proof fn lemma_pair_up_update(s: Seq<Fe>, j: int, v: Fe)
    requires
        s.len() % 2 == 0,
        0 <= j < s.len(),
    ensures
        pair_up(s.update(j, v)) == pair_up(s).update(
            j / 2,
            compress(s.update(j, v)[2 * (j / 2)], s.update(j, v)[2 * (j / 2) + 1]),
        ),
{
    let t = s.update(j, v);
    assert(pair_up(t) =~= pair_up(s).update(j / 2, compress(t[2 * (j / 2)], t[2 * (j / 2) + 1])));
}

/// Changing one leaf hash changes each level at the ancestor of that leaf
/// alone.
pub proof fn lemma_level_update(base: Seq<Fe>, d: nat, i: nat, v: Fe, k: nat)
    requires
        base.len() == pow2(d),
        i < base.len(),
        k <= d,
    ensures
        path_index(i, k) < pow2((d - k) as nat),
        level_of(base.update(i as int, v), k) == level_of(base, k).update(
            path_index(i, k) as int,
            level_of(base.update(i as int, v), k)[path_index(i, k) as int],
        ),
    decreases k,
{
    let nb = base.update(i as int, v);
    lemma_level_len(base, d, k);
    lemma_level_len(nb, d, k);
    if k == 0 {
        assert(path_index(i, 0) == i) by {
            vstd::arithmetic::power2::lemma2_to64();
        }
        assert(level_of(nb, 0) =~= level_of(base, 0).update(i as int, level_of(nb, 0)[i as int]));
    } else {
        let k1 = (k - 1) as nat;
        lemma_level_update(base, d, i, v, k1);
        lemma_level_len(base, d, k1);
        lemma_path_index_step(i, k1);
        lemma_pow2_unfold((d - k1) as nat);
        let prev = level_of(base, k1);
        let p = path_index(i, k1) as int;
        let x = level_of(nb, k1)[p];
        lemma_pair_up_update(prev, p, x);
    }
}

/// The root that a proof of leaf `i`, taken from `base`, gives from a new
/// hash `v` is the root of `base` with leaf `i` replaced by `v`.
pub proof fn lemma_proof_root(base: Seq<Fe>, d: nat, i: nat, v: Fe, sibling: Seq<Fe>, path: Seq<bool>, k: nat)
    requires
        base.len() == pow2(d),
        i < base.len(),
        k <= d,
        sibling.len() == d,
        path.len() == d,
        forall|m: int|
            0 <= m < d ==> #[trigger] sibling[m] == level_of(base, m as nat)[sibling_index(i, m as nat) as int]
                && path[m] == (path_index(i, m as nat) % 2 == 1),
    ensures
        proof_root_upto(v, sibling, path, k) == level_of(base.update(i as int, v), k)[path_index(i, k) as int],
    decreases k,
{
    let nb = base.update(i as int, v);
    if k == 0 {
        assert(path_index(i, 0) == i) by {
            lemma2_to64();
        }
    } else {
        let k1 = (k - 1) as nat;
        lemma_proof_root(base, d, i, v, sibling, path, k1);
        lemma_level_update(base, d, i, v, k1);
        lemma_level_len(base, d, k1);
        lemma_level_len(nb, d, k1);
        lemma_path_index_step(i, k1);
        lemma_pow2_unfold((d - k1) as nat);
        let p = path_index(i, k1);
        assert(sibling[k1 as int] == level_of(base, k1)[sibling_index(i, k1) as int]);
        assert(sibling_index(i, k1) != p);
        assert(level_of(nb, k1)[sibling_index(i, k1) as int] == level_of(base, k1)[sibling_index(i, k1) as int]);
    }
}

/// `proof` is the proof of leaf `i` in the tree of `depth` levels over the
/// leaf hashes `base`.
pub open spec fn proof_matches(base: Seq<Fe>, depth: nat, i: nat, proof: MerkleProof) -> bool {
    &&& proof.wf()
    &&& proof.depth() == depth
    &&& forall|m: int|
        0 <= m < depth ==> #[trigger] proof.sibling@[m] == level_of(base, m as nat)[sibling_index(i, m as nat) as int]
            && proof.path@[m] == (path_index(i, m as nat) % 2 == 1)
}

/// The accounts of the ledger and the hashes over them.
pub struct RollupState {
    /// Number of levels above the leaves; there are `2^depth` accounts.
    pub depth: usize,
    /// Number of transfers in a block.
    pub batch: usize,
    pub leaf: Vec<Leaf>,
    /// `level[0]` holds the leaf hashes, `level[depth]` the root alone.
    pub level: Vec<Vec<Fe>>,
}

impl RollupState {
    pub open spec fn base(&self) -> Seq<Fe> {
        self.level@[0]@
    }

    /// Every level above the leaf hashes is built from the one below it.
    pub open spec fn shape(&self) -> bool {
        &&& self.depth < 64
        &&& self.leaf@.len() == pow2(self.depth as nat)
        &&& self.level@.len() == self.depth + 1
        &&& self.base().len() == self.leaf@.len()
        &&& forall|k: int| 0 <= k <= self.depth ==> #[trigger] self.level@[k]@ == level_of(self.base(), k as nat)
    }

    /// The leaf hashes agree with the accounts, but perhaps at `i`.
    pub open spec fn wf_except(&self, i: nat) -> bool {
        &&& self.shape()
        &&& forall|j: int| 0 <= j < self.leaf@.len() && j != i ==> #[trigger] self.base()[j] == self.leaf@[j].spec_hash()
    }

    pub open spec fn wf(&self) -> bool {
        &&& self.shape()
        &&& self.base() == leaf_hashes(self.leaf@)
    }

    pub open spec fn spec_root(&self) -> Fe {
        self.level@[self.depth as int]@[0]
    }

    pub proof fn lemma_root(&self)
        requires
            self.wf(),
        ensures
            self.spec_root() == tree_root(self.leaf@, self.depth as nat),
            self.level@[self.depth as int]@.len() == 1,
    {
        lemma_level_len(self.base(), self.depth as nat, self.depth as nat);
        assert(pow2(0) == 1) by {
            lemma2_to64();
        }
    }
}

/// Writes `x` at position `j` of row `k`.
fn set_cell(rows: &mut Vec<Vec<Fe>>, k: usize, j: usize, x: Fe)
    requires
        k < old(rows)@.len(),
        j < old(rows)@[k as int]@.len(),
    ensures
        final(rows)@.len() == old(rows)@.len(),
        forall|m: int| 0 <= m < old(rows)@.len() && m != k ==> final(rows)@[m] == old(rows)@[m],
        final(rows)@[k as int]@ == old(rows)@[k as int]@.update(j as int, x),
{
    let mut row: Vec<Fe> = Vec::new();
    std::mem::swap(&mut row, &mut rows[k]);
    row.set(j, x);
    std::mem::swap(&mut row, &mut rows[k]);
}

/// The row above `below`.
fn pair_row(below: &Vec<Fe>, params: &RollupParams) -> (r: Vec<Fe>)
    requires
        params.wf(),
    ensures
        r@ == pair_up(below@),
{
    let len = below.len();
    let m = len / 2;
    let mut row: Vec<Fe> = Vec::new();
    let mut j: usize = 0;
    while j < m
        invariant
            params.wf(),
            len == below@.len(),
            m == len / 2,
            j <= m,
            row@ =~= pair_up(below@).take(j as int),
        decreases m - j,
    {
        assert(2 * j + 1 < len) by (nonlinear_arith)
            requires
                j < m,
                m == len / 2,
        ;
        let h = hash_step(below[2 * j], below[2 * j + 1], false, params);
        row.push(h);
        j = j + 1;
        assert(row@ =~= pair_up(below@).take(j as int));
    }
    row
}

impl RollupState {
    /// A tree of `2^depth` empty accounts; `2^depth` must be addressable on
    /// every target, hence `depth < 32`.
    pub fn new(depth: usize, batch: usize, params: &RollupParams) -> (r: RollupState)
        requires
            params.wf(),
            depth < 32,
        ensures
            r.wf(),
            r.depth == depth,
            r.batch == batch,
            r.leaf@ == Seq::new(pow2(depth as nat), |j: int| Leaf::empty()),
    {
        let mut n: usize = 1;
        let mut k: usize = 0;
        proof {
            lemma2_to64();
        }
        while k < depth
            invariant
                k <= depth < 32,
                n == pow2(k as nat),
            decreases depth - k,
        {
            proof {
                lemma_pow2_unfold((k + 1) as nat);
                lemma2_to64();
                if k + 1 < 31 {
                    vstd::arithmetic::power2::lemma_pow2_strictly_increases((k + 1) as nat, 31);
                }
                assert(pow2((k + 1) as nat) <= 0x8000_0000);
            }
            n = n * 2;
            k = k + 1;
        }
        let mut leaves: Vec<Leaf> = Vec::new();
        let mut i: usize = 0;
        while i < n
            invariant
                i <= n,
                leaves@ =~= Seq::new(i as nat, |j: int| Leaf::empty()),
            decreases n - i,
        {
            leaves.push(Leaf::default());
            i = i + 1;
        }
        RollupState::from_leaf(depth, batch, &leaves, params)
    }

    /// The tree over the given accounts, one per leaf.
    pub fn from_leaf(depth: usize, batch: usize, leaves: &Vec<Leaf>, params: &RollupParams) -> (r: RollupState)
        requires
            params.wf(),
            depth < 64,
            leaves@.len() == pow2(depth as nat),
        ensures
            r.wf(),
            r.depth == depth,
            r.batch == batch,
            r.leaf@ == leaves@,
    {
        let n = leaves.len();
        let mut leaf: Vec<Leaf> = Vec::new();
        let mut base: Vec<Fe> = Vec::new();
        let mut i: usize = 0;
        while i < n
            invariant
                params.wf(),
                n == leaves@.len(),
                i <= n,
                leaf@ =~= leaves@.take(i as int),
                base@ =~= leaf_hashes(leaves@).take(i as int),
            decreases n - i,
        {
            let h = leaves[i].hash(params);
            leaf.push(leaves[i]);
            base.push(h);
            i = i + 1;
            assert(leaf@ =~= leaves@.take(i as int));
            assert(base@ =~= leaf_hashes(leaves@).take(i as int));
        }
        assert(leaf@ =~= leaves@);
        assert(base@ =~= leaf_hashes(leaves@));
        let ghost hb = base@;
        let mut level: Vec<Vec<Fe>> = Vec::new();
        level.push(base);
        let mut k: usize = 1;
        while k <= depth
            invariant
                params.wf(),
                depth < 64,
                1 <= k <= depth + 1,
                level@.len() == k,
                forall|j: int| 0 <= j < k ==> #[trigger] level@[j]@ == level_of(hb, j as nat),
            decreases depth + 1 - k,
        {
            let row = pair_row(&level[k - 1], params);
            level.push(row);
            assert(level@[k as int]@ == level_of(hb, k as nat));
            k = k + 1;
        }
        RollupState { depth, batch, leaf, level }
    }

    pub fn root(&self) -> (r: Fe)
        requires
            self.wf(),
        ensures
            r == self.spec_root(),
            r == tree_root(self.leaf@, self.depth as nat),
    {
        proof {
            self.lemma_root();
        }
        self.level[self.depth][0]
    }

    /// Recomputes the hash of leaf `i` and of each of its ancestors, after a
    /// change of that account.
    pub fn update(&mut self, i: usize, params: &RollupParams)
        requires
            params.wf(),
            old(self).wf_except(i as nat),
            i < old(self).leaf@.len(),
        ensures
            final(self).wf(),
            final(self).depth == old(self).depth,
            final(self).batch == old(self).batch,
            final(self).leaf@ == old(self).leaf@,
            final(self).spec_root() == tree_root(final(self).leaf@, final(self).depth as nat),
    {
        let ghost ob = self.base();
        let ghost d = self.depth as nat;
        let h = self.leaf[i].hash(params);
        let ghost nb = ob.update(i as int, h);
        assert(nb =~= leaf_hashes(self.leaf@));
        proof {
            lemma_level_len(ob, d, 0);
        }
        set_cell(&mut self.level, 0, i, h);
        assert(self.level@[0]@ == nb);
        let mut idx: usize = i;
        let mut k: usize = 1;
        proof {
            lemma2_to64();
            lemma_level_update(ob, d, i as nat, h, 0);
        }
        while k <= self.depth
            invariant
                params.wf(),
                self.depth == d,
                self.batch == old(self).batch,
                self.leaf@ == old(self).leaf@,
                nb == leaf_hashes(self.leaf@),
                d < 64,
                ob.len() == pow2(d),
                i < ob.len(),
                nb == ob.update(i as int, h),
                1 <= k <= d + 1,
                self.level@.len() == d + 1,
                forall|j: int| 0 <= j < k ==> #[trigger] self.level@[j]@ == level_of(nb, j as nat),
                forall|j: int| k <= j <= d ==> #[trigger] self.level@[j]@ == level_of(ob, j as nat),
                idx == path_index(i as nat, (k - 1) as nat),
                idx < pow2((d - (k - 1)) as nat),
                level_of(nb, (k - 1) as nat) == level_of(ob, (k - 1) as nat).update(
                    idx as int,
                    level_of(nb, (k - 1) as nat)[idx as int],
                ),
            decreases d + 1 - k,
        {
            let ghost k1 = (k - 1) as nat;
            proof {
                lemma_level_len(ob, d, k1);
                lemma_level_len(ob, d, k as nat);
                lemma_level_len(nb, d, k1);
                lemma_path_index_step(i as nat, k1);
                lemma_pow2_unfold((d - k1) as nat);
                lemma_level_update(ob, d, i as nat, h, k as nat);
                lemma_pair_up_update(level_of(ob, k1), idx as int, level_of(nb, k1)[idx as int]);
            }
            let up = idx / 2;
            let v = hash_step(self.level[k - 1][2 * up], self.level[k - 1][2 * up + 1], false, params);
            set_cell(&mut self.level, k, up, v);
            assert(self.level@[k as int]@ =~= level_of(nb, k as nat));
            idx = up;
            k = k + 1;
        }
        assert(self.base() == leaf_hashes(self.leaf@));
        proof {
            self.lemma_root();
        }
    }

    /// The proof of leaf `i`: per level, the sibling of its ancestor and
    /// whether that ancestor is a right child.
    pub fn proof_of(&self, i: usize) -> (r: MerkleProof)
        requires
            self.shape(),
            i < self.leaf@.len(),
        ensures
            proof_matches(self.base(), self.depth as nat, i as nat, r),
            forall|v: Fe| #[trigger] r.spec_root(v) == level_of(self.base().update(i as int, v), self.depth as nat)[0],
    {
        let ghost d = self.depth as nat;
        let ghost b = self.base();
        let mut sibling: Vec<Fe> = Vec::new();
        let mut path: Vec<bool> = Vec::new();
        let mut idx: usize = i;
        let mut k: usize = 0;
        proof {
            lemma2_to64();
        }
        while k < self.depth
            invariant
                self.shape(),
                b == self.base(),
                d == self.depth,
                i < b.len(),
                k <= d,
                sibling@.len() == k,
                path@.len() == k,
                idx == path_index(i as nat, k as nat),
                idx < pow2((d - k) as nat),
                forall|m: int|
                    0 <= m < k ==> #[trigger] sibling@[m] == level_of(b, m as nat)[sibling_index(i as nat, m as nat) as int]
                        && path@[m] == (path_index(i as nat, m as nat) % 2 == 1),
            decreases d - k,
        {
            proof {
                lemma_level_len(b, d, k as nat);
                lemma_path_index_step(i as nat, k as nat);
                lemma_pow2_unfold((d - k) as nat);
            }
            let s = if idx % 2 == 1 {
                idx - 1
            } else {
                idx + 1
            };
            assert(self.level@[k as int]@ == level_of(b, k as nat));
            sibling.push(self.level[k][s]);
            path.push(idx % 2 == 1);
            idx = idx / 2;
            k = k + 1;
        }
        let r = MerkleProof { sibling, path };
        assert(r.sibling@ == sibling@ && r.path@ == path@);
        assert forall|m: int| 0 <= m < d implies #[trigger] r.sibling@[m] == level_of(b, m as nat)[sibling_index(
            i as nat,
            m as nat,
        ) as int] && r.path@[m] == (path_index(i as nat, m as nat) % 2 == 1) by {
            assert(sibling@[m] == level_of(b, m as nat)[sibling_index(i as nat, m as nat) as int]);
        }
        assert(proof_matches(b, d, i as nat, r));
        proof {
            assert forall|v: Fe| #[trigger] r.spec_root(v) == level_of(b.update(i as int, v), d)[0] by {
                lemma_proof_root(b, d, i as nat, v, r.sibling@, r.path@, d);
                lemma_level_update(b, d, i as nat, v, d);
                lemma_pow2_pos(d);
                assert(path_index(i as nat, d) == 0);
            }
        }
        r
    }
}

} // verus!
