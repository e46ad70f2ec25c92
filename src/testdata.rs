//! Blocks of random transfers for exercising the prover: the draws come in
//! as plain numbers, and each transfer is built from the accounts as they
//! stand when it is made.
use vstd::arithmetic::power2::pow2;
use vstd::prelude::*;

use crate::crypto::{public_key_of, signature, RollupParams};
use crate::engine::{accepts, run, witness_of};
use crate::field::Fe;
use crate::model::{Leaf, RollupPub, RollupSec, Tx, TxEx};
use crate::tree::{tree_root, RollupState};

verus! {

/// The accounts that the generator starts from: account `i` is owned by
/// the key of secret `sk[i]` and holds `balance[i]`.
pub open spec fn genesis_leaves(sk: Seq<Fe>, balance: Seq<u32>) -> Seq<Leaf> {
    Seq::new(
        sk.len(),
        |i: int|
            Leaf {
                owner: public_key_of(sk[i]),
                amount: Fe::spec_from_u64(balance[i] as u64),
                nonce: Fe::spec_from_u64(0),
            },
    )
}

/// The sender that the draw `a` picks among `n` accounts.
pub open spec fn pick_from(a: u64, n: nat) -> nat {
    (a as nat) % n
}

/// The receiver that the draw `b` picks: any account but the sender.
pub open spec fn pick_to(b: u64, from: nat, n: nat) -> nat {
    let t = (b as nat) % ((n - 1) as nat);
    if t >= from {
        t + 1
    } else {
        t
    }
}

/// The amount that the draw `c` picks: below the sender's balance, or zero.
pub open spec fn pick_amount(c: u64, held: u64) -> u64 {
    if held == 0 {
        0
    } else {
        ((c as nat) % (held as nat)) as u64
    }
}

/// The transfer that the draws `(a, b, c)` give on `leaves`, signed with
/// the sender's secret.
pub open spec fn gen_tx(leaves: Seq<Leaf>, sk: Seq<Fe>, draw: (u64, u64, u64)) -> Tx {
    let n = leaves.len();
    let f = pick_from(draw.0, n);
    let t = pick_to(draw.1, f, n);
    let unsigned = Tx {
        from: Fe::spec_from_u64(f as u64),
        to: Fe::spec_from_u64(t as u64),
        amount: Fe::spec_from_u64(pick_amount(draw.2, leaves[f as int].amount.w0)),
        nonce: leaves[f as int].nonce,
        s: Fe::spec_from_u64(0),
        r: Fe::spec_from_u64(0),
    };
    let (s, r) = signature(sk[f as int], unsigned.spec_hash());
    Tx { s, r, ..unsigned }
}

/// The transfers that the draws give, each on the accounts left by the
/// ones before; and whether every one of them was accepted. Generation
/// stops at the first rejected transfer.
pub open spec fn gen_all(leaves: Seq<Leaf>, sk: Seq<Fe>, draws: Seq<(u64, u64, u64)>) -> (Seq<Tx>, bool)
    decreases draws.len(),
{
    if draws.len() == 0 {
        (Seq::empty(), true)
    } else {
        let (txs, ok) = gen_all(leaves, sk, draws.drop_last());
        let next = gen_tx(run(leaves, txs).0, sk, draws.last());
        if ok && accepts(run(leaves, txs).0, next) {
            (txs.push(next), true)
        } else {
            (txs, false)
        }
    }
}

proof fn lemma_gen_stops(leaves: Seq<Leaf>, sk: Seq<Fe>, draws: Seq<(u64, u64, u64)>, k: nat)
    requires
        k <= draws.len(),
        !gen_all(leaves, sk, draws.take(k as int)).1,
    ensures
        !gen_all(leaves, sk, draws).1,
    decreases draws.len() - k,
{
    if k < draws.len() {
        assert(draws.take(k as int + 1).drop_last() =~= draws.take(k as int));
        lemma_gen_stops(leaves, sk, draws, k + 1);
    } else {
        assert(draws.take(k as int) =~= draws);
    }
}

/// Builds the tree over `genesis_leaves(sk, balance)` and applies, in order,
/// one generated transfer per draw. It returns what `block` would return on
/// those transfers: the roots and witnesses, or nothing if one is rejected.
pub fn gen_test_data(
    depth: usize,
    sk: &Vec<Fe>,
    balance: &Vec<u32>,
    draws: &Vec<(u64, u64, u64)>,
    params: &RollupParams,
) -> (r: Option<(RollupPub, RollupSec)>)
    requires
        params.wf(),
        1 <= depth < 32,
        sk@.len() == pow2(depth as nat),
        balance@.len() == pow2(depth as nat),
    ensures
        r is Some == gen_all(genesis_leaves(sk@, balance@), sk@, draws@).1,
        r matches Some((p, s)) ==> {
            let l0 = genesis_leaves(sk@, balance@);
            &&& s.tx@ == gen_all(l0, sk@, draws@).0
            &&& s.tx@.len() == draws@.len()
            &&& s.txex@.len() == draws@.len()
            &&& forall|i: int|
                0 <= i < draws@.len() ==> #[trigger] s.tx@[i] == gen_tx(
                    run(l0, s.tx@.take(i)).0,
                    sk@,
                    draws@[i],
                )
            &&& run(l0, s.tx@).1
            &&& p.root_before == tree_root(l0, depth as nat)
            &&& p.root_after == tree_root(run(l0, s.tx@).0, depth as nat)
            &&& forall|i: int|
                0 <= i < draws@.len() ==> witness_of(
                    #[trigger] run(l0, s.tx@.take(i)).0,
                    depth as nat,
                    s.tx@[i],
                    s.txex@[i],
                )
        },
{
    let n = sk.len();
    let ghost l0 = genesis_leaves(sk@, balance@);
    let mut leaves: Vec<Leaf> = Vec::new();
    let mut i: usize = 0;
    while i < n
        invariant
            n == sk@.len(),
            n == balance@.len(),
            l0 == genesis_leaves(sk@, balance@),
            i <= n,
            leaves@ =~= l0.take(i as int),
        decreases n - i,
    {
        let owner = params.public_key(sk[i]);
        leaves.push(Leaf { owner, amount: Fe::from_u64(balance[i] as u64), nonce: Fe::zero() });
        i = i + 1;
        assert(leaves@ =~= l0.take(i as int));
    }
    assert(leaves@ =~= l0);
    let mut state = RollupState::from_leaf(depth, draws.len(), &leaves, params);
    let root_before = state.root();
    proof {
        vstd::arithmetic::power2::lemma_pow2_strictly_increases(0, depth as nat);
        vstd::arithmetic::power2::lemma2_to64();
    }
    let mut tx: Vec<Tx> = Vec::new();
    let mut txex: Vec<TxEx> = Vec::new();
    let mut k: usize = 0;
    assert(tx@.take(0) =~= Seq::<Tx>::empty());
    while k < draws.len()
        invariant
            params.wf(),
            state.wf(),
            state.depth == depth,
            n == sk@.len(),
            state.leaf@.len() == n,
            n >= 2,
            k <= draws@.len(),
            tx@.len() == k,
            txex@.len() == k,
            root_before == tree_root(l0, depth as nat),
            l0 == genesis_leaves(sk@, balance@),
            gen_all(l0, sk@, draws@.take(k as int)) == (tx@, true),
            run(l0, tx@) == (state.leaf@, true),
            forall|j: int|
                0 <= j < k ==> #[trigger] tx@[j] == gen_tx(run(l0, tx@.take(j)).0, sk@, draws@[j]),
            forall|j: int|
                0 <= j < k ==> witness_of(#[trigger] run(l0, tx@.take(j)).0, depth as nat, tx@[j], txex@[j]),
        decreases draws@.len() - k,
    {
        let (a, b, c) = draws[k];
        let f = (a % (n as u64)) as usize;
        let t0 = (b % ((n - 1) as u64)) as usize;
        let t = if t0 >= f {
            t0 + 1
        } else {
            t0
        };
        let held = state.leaf[f].amount.w0;
        let amount = if held == 0 {
            0
        } else {
            c % held
        };
        let mut next = Tx {
            from: Fe::from_u64(f as u64),
            to: Fe::from_u64(t as u64),
            amount: Fe::from_u64(amount),
            nonce: state.leaf[f].nonce,
            s: Fe::zero(),
            r: Fe::zero(),
        };
        next.sign(sk[f], params);
        assert(next == gen_tx(state.leaf@, sk@, draws@[k as int]));
        let ghost before = tx@;
        assert(draws@.take(k as int + 1).drop_last() =~= draws@.take(k as int));
        match state.transact(&next, params) {
            Some(w) => {
                tx.push(next);
                txex.push(w);
                proof {
                    assert(tx@.drop_last() =~= before);
                    assert forall|j: int| 0 <= j < k implies #[trigger] tx@.take(j) == before.take(j) by {
                        assert(tx@.take(j) =~= before.take(j));
                    }
                    assert(tx@.take(k as int) =~= before);
                }
                k = k + 1;
            },
            None => {
                proof {
                    lemma_gen_stops(l0, sk@, draws@, k as nat + 1);
                }
                return None;
            },
        }
    }
    assert(tx@.take(k as int) =~= tx@);
    assert(draws@.take(k as int) =~= draws@);
    let root_after = state.root();
    Some((RollupPub { root_before, root_after }, RollupSec { tx, txex }))
}

} // verus!
