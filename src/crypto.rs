//! The hash and signature primitives, called in fawkes-crypto: Poseidon over
//! the BLS12-381 scalar field and EdDSA on JubJub with a Poseidon challenge.
use vstd::prelude::*;

use crate::field::Fe;
use fawkes_crypto::engines::bls12_381::{Fr, Fs, JubJubBLS12_381};
use fawkes_crypto::engines::U256;
use fawkes_crypto::ff_uint::{Num, NumRepr};
use fawkes_crypto::native::ecc::JubJubParams;
use fawkes_crypto::native::eddsaposeidon::{eddsaposeidon_sign, eddsaposeidon_verify};
use fawkes_crypto::native::poseidon::{poseidon, PoseidonParams};

verus! {

/// The JubJub curve constants in fawkes-crypto, carried opaque to the
/// signature calls.
#[verifier::external_type_specification]
#[verifier::external_body]
pub struct ExJubJubBLS12_381(JubJubBLS12_381);

/// The Poseidon permutation with `t` lanes, `f` full and `p` partial rounds,
/// round constants drawn under `salt`, applied to `inputs`.
pub uninterp spec fn poseidon_of(inputs: Seq<Fe>, t: nat, f: nat, p: nat, salt: Seq<char>) -> Fe;

/// Whether `(s, r)` is a valid signature of `m` under the public key `owner`,
/// checked with the Poseidon instance `(t, f, p, salt)`.
pub uninterp spec fn eddsa_verify_of(
    s: Fe,
    r: Fe,
    owner: Fe,
    m: Fe,
    t: nat,
    f: nat,
    p: nat,
    salt: Seq<char>,
) -> bool;

/// The signature `(s, r)` that the secret scalar `sk` gives to `m`.
pub uninterp spec fn eddsa_sign_of(sk: Fe, m: Fe, t: nat, f: nat, p: nat, salt: Seq<char>) -> (
    Fe,
    Fe,
);

/// The public key (x-coordinate of `sk` times the base point) of `sk`.
pub uninterp spec fn public_key_of(sk: Fe) -> Fe;

/// One instance of the Poseidon hash: its width, its numbers of full and
/// partial rounds, and the salt its round constants are drawn under.
pub struct Poseidon {
    t: usize,
    f: usize,
    p: usize,
    salt: String,
}

impl Poseidon {
    pub closed spec fn t(&self) -> nat {
        self.t as nat
    }

    pub closed spec fn f(&self) -> nat {
        self.f as nat
    }

    pub closed spec fn p(&self) -> nat {
        self.p as nat
    }

    pub closed spec fn salt(&self) -> Seq<char> {
        self.salt@
    }

    pub fn new(t: usize, f: usize, p: usize, salt: &str) -> (r: Poseidon)
        ensures
            r.t() == t,
            r.f() == f,
            r.p() == p,
            r.salt() == salt@,
    {
        Poseidon { t, f, p, salt: salt.to_string() }
    }

    /// Relies on `PoseidonParams::new_with_salt`, which derives the round
    /// constants from `(t, f, p, salt)` alone, and on `poseidon`, which
    /// panics unless `0 < inputs.len() < t`.
    #[verifier::external_body]
    pub fn hash(&self, inputs: &Vec<Fe>) -> (r: Fe)
        requires
            0 < inputs@.len() < self.t(),
        ensures
            r == poseidon_of(inputs@, self.t(), self.f(), self.p(), self.salt()),
            r.wf(),
    {
        let xs: Vec<Num<Fr>> = inputs.iter().map(
            |a| Num::<Fr>::from_uint_reduced(NumRepr(U256::new(a.words()))),
        ).collect();
        let u = poseidon(&xs, &PoseidonParams::new_with_salt(self.t, self.f, self.p, &self.salt)).to_uint().0.0;
        Fe::from_words(u)
    }
}

/// Relies on `JubJubBLS12_381::new`, which builds the fixed curve constants.
#[verifier::external_body]
fn jubjub() -> (r: JubJubBLS12_381) {
    JubJubBLS12_381::new()
}

/// The process-wide hash instances of the ledger, one per domain, and the
/// curve of its signatures.
pub struct RollupParams {
    pub compress: Poseidon,
    pub leaf: Poseidon,
    pub tx: Poseidon,
    pub sign: Poseidon,
    pub jubjub: JubJubBLS12_381,
}

pub open spec fn compress_salt() -> Seq<char> {
    seq!['c', 'o', 'm', 'p', 'r', 'e', 's', 's']
}

pub open spec fn leaf_salt() -> Seq<char> {
    seq!['l', 'e', 'a', 'f']
}

pub open spec fn tx_salt() -> Seq<char> {
    seq!['t', 'x']
}

pub open spec fn sign_salt() -> Seq<char> {
    seq!['s', 'i', 'g', 'n']
}

/// Tree compression: the hash of an inner node from its two children.
pub open spec fn compress(a: Fe, b: Fe) -> Fe {
    poseidon_of(seq![a, b], 3, 8, 53, compress_salt())
}

/// The hash of an account record.
pub open spec fn leaf_hash3(owner: Fe, amount: Fe, nonce: Fe) -> Fe {
    poseidon_of(seq![owner, amount, nonce], 4, 8, 53, leaf_salt())
}

/// The hash of a transfer, the message that its signature signs.
pub open spec fn tx_hash4(from: Fe, to: Fe, amount: Fe, nonce: Fe) -> Fe {
    poseidon_of(seq![from, to, amount, nonce], 5, 8, 54, tx_salt())
}

pub open spec fn sig_valid(s: Fe, r: Fe, owner: Fe, m: Fe) -> bool {
    eddsa_verify_of(s, r, owner, m, 4, 8, 54, sign_salt())
}

pub open spec fn signature(sk: Fe, m: Fe) -> (Fe, Fe) {
    eddsa_sign_of(sk, m, 4, 8, 54, sign_salt())
}

impl RollupParams {
    /// Each domain is served by its own instance.
    pub open spec fn wf(&self) -> bool {
        &&& self.compress.t() == 3 && self.compress.f() == 8 && self.compress.p() == 53
        &&& self.compress.salt() == compress_salt()
        &&& self.leaf.t() == 4 && self.leaf.f() == 8 && self.leaf.p() == 53
        &&& self.leaf.salt() == leaf_salt()
        &&& self.tx.t() == 5 && self.tx.f() == 8 && self.tx.p() == 54
        &&& self.tx.salt() == tx_salt()
        &&& self.sign.t() == 4 && self.sign.f() == 8 && self.sign.p() == 54
        &&& self.sign.salt() == sign_salt()
    }

    pub fn new() -> (r: RollupParams)
        ensures
            r.wf(),
    {
        proof {
            reveal_strlit("compress");
            reveal_strlit("leaf");
            reveal_strlit("tx");
            reveal_strlit("sign");
        }
        let compress = Poseidon::new(3, 8, 53, "compress");
        let leaf = Poseidon::new(4, 8, 53, "leaf");
        let tx = Poseidon::new(5, 8, 54, "tx");
        let sign = Poseidon::new(4, 8, 54, "sign");
        assert(compress.salt() =~= compress_salt());
        assert(leaf.salt() =~= leaf_salt());
        assert(tx.salt() =~= tx_salt());
        assert(sign.salt() =~= sign_salt());
        RollupParams { compress, leaf, tx, sign, jubjub: jubjub() }
    }

    /// Relies on `eddsaposeidon_verify`, a deterministic check that returns
    /// `false` on a malformed key or signature. It hashes three values with
    /// the signature's Poseidon instance, which panics unless its width
    /// exceeds three.
    #[verifier::external_body]
    pub fn verify(&self, s: Fe, r: Fe, owner: Fe, m: Fe) -> (ok: bool)
        requires
            self.sign.t() > 3,
        ensures
            ok == eddsa_verify_of(s, r, owner, m, self.sign.t(), self.sign.f(), self.sign.p(), self.sign.salt()),
    {
        eddsaposeidon_verify(
            Num::<Fs>::from_uint_reduced(NumRepr(U256::new(s.words()))),
            Num::<Fr>::from_uint_reduced(NumRepr(U256::new(r.words()))),
            Num::<Fr>::from_uint_reduced(NumRepr(U256::new(owner.words()))),
            Num::<Fr>::from_uint_reduced(NumRepr(U256::new(m.words()))),
            &PoseidonParams::new_with_salt(self.sign.t, self.sign.f, self.sign.p, &self.sign.salt),
            &self.jubjub,
        )
    }

    /// Relies on `eddsaposeidon_sign`, deterministic in the secret and the
    /// message: the nonce is derived from both by Blake2s. It hashes three
    /// values with the signature's Poseidon instance, which panics unless its
    /// width exceeds three.
    #[verifier::external_body]
    pub fn sign_message(&self, sk: Fe, m: Fe) -> (sr: (Fe, Fe))
        requires
            self.sign.t() > 3,
        ensures
            sr == eddsa_sign_of(sk, m, self.sign.t(), self.sign.f(), self.sign.p(), self.sign.salt()),
            sr.0.wf(),
            sr.1.wf(),
    {
        let (s, r) = eddsaposeidon_sign(
            Num::<Fs>::from_uint_reduced(NumRepr(U256::new(sk.words()))),
            Num::<Fr>::from_uint_reduced(NumRepr(U256::new(m.words()))),
            &PoseidonParams::new_with_salt(self.sign.t, self.sign.f, self.sign.p, &self.sign.salt),
            &self.jubjub,
        );
        let (a, b) = (s.to_uint().0.0, r.to_uint().0.0);
        (Fe::from_words(a), Fe::from_words(b))
    }

    /// Relies on `EdwardsPoint::mul` on the base point: the public key of a
    /// secret scalar is the x-coordinate of that multiple.
    #[verifier::external_body]
    pub fn public_key(&self, sk: Fe) -> (r: Fe)
        ensures
            r == public_key_of(sk),
            r.wf(),
    {
        let k = Num::<Fs>::from_uint_reduced(NumRepr(U256::new(sk.words())));
        let u = self.jubjub.edwards_g().mul(k, &self.jubjub).x.to_uint().0.0;
        Fe::from_words(u)
    }
}

} // verus!
