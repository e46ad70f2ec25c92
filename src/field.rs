//! Elements of the scalar field of BLS12-381, held as their canonical
//! integer representative in four little-endian 64-bit words.
use vstd::arithmetic::div_mod::{
    lemma_div_denominator, lemma_fundamental_div_mod_converse_div,
    lemma_fundamental_div_mod_converse_mod, lemma_small_mod,
};
use vstd::prelude::*;

use fawkes_crypto::engines::bls12_381::Fr;
use fawkes_crypto::engines::U256;
use fawkes_crypto::ff_uint::{Num, NumRepr};

verus! {

/// The order of the scalar field,
/// 52435875175126190479447740508185965837690552500527637822603658699938581184513.
pub open spec fn modulus() -> int {
    0xffffffff00000001 + word() * (0x53bda402fffe5bfe + word() * (0x3339d80809a1d805 + word()
        * 0x73eda753299d7d48))
}

pub open spec fn word() -> int {
    18446744073709551616
}

/// Bit width of a balance.
pub const AMOUNT_LENGTH: u64 = 64;

/// A field element: `w0` is the least significant word.
#[derive(Debug, Clone, Copy, PartialEq, Eq, Structural)]
pub struct Fe {
    pub w0: u64,
    pub w1: u64,
    pub w2: u64,
    pub w3: u64,
}

impl Fe {
    /// The integer that the four words spell.
    pub open spec fn val(self) -> int {
        self.w0 as int + word() * (self.w1 as int + word() * (self.w2 as int + word()
            * self.w3 as int))
    }

    /// The words spell the canonical representative, below the modulus.
    pub open spec fn wf(self) -> bool {
        self.val() < modulus()
    }

    pub open spec fn spec_from_u64(x: u64) -> Fe {
        Fe { w0: x, w1: 0, w2: 0, w3: 0 }
    }

    pub fn from_u64(x: u64) -> (r: Fe)
        ensures
            r == Fe::spec_from_u64(x),
            r.val() == x as int,
            r.wf(),
    {
        Fe { w0: x, w1: 0, w2: 0, w3: 0 }
    }

    pub fn zero() -> (r: Fe)
        ensures
            r == Fe::spec_from_u64(0),
            r.val() == 0,
            r.wf(),
    {
        Fe::from_u64(0)
    }

    pub fn words(&self) -> (r: [u64; 4])
        ensures
            r@ == seq![self.w0, self.w1, self.w2, self.w3],
    {
        [self.w0, self.w1, self.w2, self.w3]
    }

    pub fn from_words(u: [u64; 4]) -> (r: Fe)
        ensures
            r == (Fe { w0: u@[0], w1: u@[1], w2: u@[2], w3: u@[3] }),
    {
        Fe { w0: u[0], w1: u[1], w2: u[2], w3: u[3] }
    }

    /// The value decomposes into `AMOUNT_LENGTH` bits.
    pub open spec fn spec_fits_amount(self) -> bool {
        self.w1 == 0 && self.w2 == 0 && self.w3 == 0
    }

    pub fn fits_amount(&self) -> (r: bool)
        ensures
            r == self.spec_fits_amount(),
    {
        self.w1 == 0 && self.w2 == 0 && self.w3 == 0
    }

    pub fn is_zero(&self) -> (r: bool)
        ensures
            r == (*self == Fe::spec_from_u64(0)),
    {
        self.w0 == 0 && self.w1 == 0 && self.w2 == 0 && self.w3 == 0
    }
}

/// The four words of the integer `v`, for `0 <= v < 2^256`.
pub open spec fn fe_of(v: int) -> Fe {
    Fe {
        w0: (v % word()) as u64,
        w1: (v / word() % word()) as u64,
        w2: (v / (word() * word()) % word()) as u64,
        w3: (v / (word() * word() * word()) % word()) as u64,
    }
}

/// The field sum of `a` and `b`.
pub open spec fn field_add(a: Fe, b: Fe) -> Fe {
    fe_of((a.val() + b.val()) % modulus())
}

/// The field difference of `a` and `b`.
pub open spec fn field_sub(a: Fe, b: Fe) -> Fe {
    fe_of((a.val() - b.val()) % modulus())
}

/// A value below `2^64` is its own low word and fits the amount width.
pub proof fn lemma_fe_of_small(v: int)
    requires
        0 <= v < word(),
    ensures
        fe_of(v).spec_fits_amount(),
        fe_of(v).w0 == v,
{
    let w = word();
    vstd::arithmetic::div_mod::lemma_basic_div(v, w);
    vstd::arithmetic::div_mod::lemma_basic_div(v, w * w);
    vstd::arithmetic::div_mod::lemma_basic_div(v, w * w * w);
}

/// The words of a value below `2^256` are the words it was read from.
pub proof fn lemma_fe_of_val(x: Fe)
    ensures
        fe_of(x.val()) == x,
{
    let w = word();
    let v = x.val();
    let q2 = x.w2 as int + w * x.w3 as int;
    let q1 = x.w1 as int + w * q2;
    assert(v == q1 * w + x.w0 as int) by (nonlinear_arith)
        requires
            v == x.w0 as int + w * q1,
    ;
    lemma_fundamental_div_mod_converse_div(v, w, q1, x.w0 as int);
    lemma_fundamental_div_mod_converse_mod(v, w, q1, x.w0 as int);
    assert(q1 == q2 * w + x.w1 as int) by (nonlinear_arith)
        requires
            q1 == x.w1 as int + w * q2,
    ;
    lemma_fundamental_div_mod_converse_div(q1, w, q2, x.w1 as int);
    lemma_fundamental_div_mod_converse_mod(q1, w, q2, x.w1 as int);
    assert(q2 == (x.w3 as int) * w + x.w2 as int) by (nonlinear_arith)
        requires
            q2 == x.w2 as int + w * x.w3 as int,
    ;
    lemma_fundamental_div_mod_converse_div(q2, w, x.w3 as int, x.w2 as int);
    lemma_fundamental_div_mod_converse_mod(q2, w, x.w3 as int, x.w2 as int);
    lemma_small_mod(x.w3 as nat, w as nat);
    lemma_div_denominator(v, w, w);
    lemma_div_denominator(v, w * w, w);
    lemma_div_denominator(v / w, w, w);
}

/// A value fits the amount width exactly when it is below `2^64`.
pub proof fn lemma_fits_amount(x: Fe)
    ensures
        x.spec_fits_amount() <==> x.val() < word(),
{
    let w = word();
    let q2 = x.w2 as int + w * x.w3 as int;
    let q1 = x.w1 as int + w * q2;
    assert(q2 >= 0) by (nonlinear_arith)
        requires
            q2 == x.w2 as int + w * x.w3 as int,
            w > 0,
            x.w2 >= 0,
            x.w3 >= 0,
    ;
    assert(q1 >= 0) by (nonlinear_arith)
        requires
            q1 == x.w1 as int + w * q2,
            w > 0,
            q2 >= 0,
    ;
    if x.val() < w {
        assert(q1 == 0) by (nonlinear_arith)
            requires
                x.w0 as int + w * q1 < w,
                x.w0 >= 0,
                q1 >= 0,
                w > 0,
        ;
        assert(x.w1 == 0 && q2 == 0) by (nonlinear_arith)
            requires
                q1 == x.w1 as int + w * q2,
                q1 == 0,
                x.w1 >= 0,
                q2 >= 0,
                w > 0,
        ;
        assert(x.w2 == 0 && x.w3 == 0) by (nonlinear_arith)
            requires
                q2 == x.w2 as int + w * x.w3 as int,
                q2 == 0,
                x.w2 >= 0,
                x.w3 >= 0,
                w > 0,
        ;
    }
}

/// `a` and `b` are the same field element: their difference is zero.
pub open spec fn feq(a: Fe, b: Fe) -> bool {
    (a.val() - b.val()) % modulus() == 0
}

/// The field value of `x` fits the amount width.
pub open spec fn fits_field(x: Fe) -> bool {
    x.val() % modulus() < word()
}

pub proof fn lemma_feq_refl(x: Fe)
    ensures
        feq(x, x),
{
    vstd::arithmetic::div_mod::lemma_small_mod(0, modulus() as nat);
}

pub fn fe_eq(a: Fe, b: Fe) -> (r: bool)
    ensures
        r == feq(a, b),
{
    let d = fe_sub(a, b);
    proof {
        lemma_fits_amount(d);
    }
    d.is_zero()
}

/// Whether the field value of `x` fits the amount width.
pub fn fe_fits(x: Fe) -> (r: bool)
    ensures
        r == fits_field(x),
{
    let c = fe_sub(x, Fe::from_u64(0));
    proof {
        lemma_fits_amount(c);
    }
    c.fits_amount()
}

/// Relies on `Num<Fr>` addition, which adds modulo the field order, and on
/// `Num::to_uint`, which gives the canonical representative.
#[verifier::external_body]
pub fn fe_add(a: Fe, b: Fe) -> (r: Fe)
    ensures
        r == field_add(a, b),
        r.wf(),
        r.val() == (a.val() + b.val()) % modulus(),
{
    let x = Num::<Fr>::from_uint_reduced(NumRepr(U256::new(a.words())));
    let y = Num::<Fr>::from_uint_reduced(NumRepr(U256::new(b.words())));
    let u = (x + y).to_uint().0.0;
    Fe::from_words(u)
}

/// Relies on `Num<Fr>` subtraction, which subtracts modulo the field order,
/// and on `Num::to_uint`, which gives the canonical representative.
#[verifier::external_body]
pub fn fe_sub(a: Fe, b: Fe) -> (r: Fe)
    ensures
        r == field_sub(a, b),
        r.wf(),
        r.val() == (a.val() - b.val()) % modulus(),
{
    let x = Num::<Fr>::from_uint_reduced(NumRepr(U256::new(a.words())));
    let y = Num::<Fr>::from_uint_reduced(NumRepr(U256::new(b.words())));
    let u = (x - y).to_uint().0.0;
    Fe::from_words(u)
}

/// Relies on the order of `NumRepr<U256>`, which compares the unsigned
/// integers that the words spell.
#[verifier::external_body]
pub fn fe_lt(a: Fe, b: Fe) -> (r: bool)
    ensures
        r == (a.val() < b.val()),
{
    NumRepr(U256::new(a.words())) < NumRepr(U256::new(b.words()))
}

} // verus!
