use vstd::prelude::*;
use casper_types::{U256, U512};

verus! {

/// The number that little-endian 64-bit limbs stand for.
pub open spec fn limbs_value(limbs: Seq<u64>) -> nat
    decreases limbs.len(),
{
    if limbs.len() == 0 {
        0
    } else {
        limbs[0] as nat + 0x1_0000_0000_0000_0000nat * limbs_value(limbs.drop_first())
    }
}

/// 2 to the power 512: no 512-bit value reaches it.
pub open spec fn u512_modulus() -> nat {
    13407807929942597099574024998205846127479365820592393377723561443721764030073546976801874298166903427690031858186486050853753882811946569946433649006084096nat
}

/// 2 to the power 256: no 256-bit value reaches it.
pub open spec fn u256_modulus() -> nat {
    115792089237316195423570985008687907853269984665640564039457584007913129639936nat
}

/// The number of values that `n` limbs can hold.
pub open spec fn limbs_capacity(n: nat) -> nat
    decreases n,
{
    if n == 0 {
        1
    } else {
        0x1_0000_0000_0000_0000nat * limbs_capacity((n - 1) as nat)
    }
}

pub proof fn lemma_limbs_value_bound(limbs: Seq<u64>)
    ensures
        limbs_value(limbs) < limbs_capacity(limbs.len()),
    decreases limbs.len(),
{
    if limbs.len() > 0 {
        let rest = limbs.drop_first();
        lemma_limbs_value_bound(rest);
        let v = limbs_value(rest);
        let c = limbs_capacity(rest.len());
        let d = limbs[0] as nat;
        assert(d + 0x1_0000_0000_0000_0000nat * v < 0x1_0000_0000_0000_0000nat * c) by (nonlinear_arith)
            requires
                v < c,
                d < 0x1_0000_0000_0000_0000nat,
        ;
    }
}

pub proof fn lemma_limbs_value_injective(a: Seq<u64>, b: Seq<u64>)
    requires
        a.len() == b.len(),
        limbs_value(a) == limbs_value(b),
    ensures
        a == b,
    decreases a.len(),
{
    if a.len() > 0 {
        let va = limbs_value(a.drop_first());
        let vb = limbs_value(b.drop_first());
        let da = a[0] as int;
        let db = b[0] as int;
        assert(da == db && va == vb) by (nonlinear_arith)
            requires
                da + 0x1_0000_0000_0000_0000 * va == db + 0x1_0000_0000_0000_0000 * vb,
                0 <= da < 0x1_0000_0000_0000_0000,
                0 <= db < 0x1_0000_0000_0000_0000,
                va >= 0,
                vb >= 0,
        ;
        lemma_limbs_value_injective(a.drop_first(), b.drop_first());
        assert(a =~= b) by {
            assert forall|i: int| 0 <= i < a.len() implies a[i] == b[i] by {
                if i > 0 {
                    assert(a[i] == a.drop_first()[i - 1]);
                    assert(b[i] == b.drop_first()[i - 1]);
                }
            }
        }
    }
}

/// Two 512-bit amounts with the same value are the same.
pub proof fn lemma_u512_view_injective(a: Uint512, b: Uint512)
    requires
        a@ == b@,
    ensures
        a == b,
{
    broadcast use vstd::array::group_array_axioms;
    lemma_limbs_value_injective(a.limbs@, b.limbs@);
    assert(a.limbs =~= b.limbs);
}

/// No 512-bit amount reaches 2 to the power 512.
pub proof fn lemma_u512_bound(x: Uint512)
    ensures
        x@ < u512_modulus(),
{
    lemma_limbs_value_bound(x.limbs@);
    assert(limbs_capacity(8) == u512_modulus()) by {
        reveal_with_fuel(limbs_capacity, 9);
    }
}

/// A 512-bit unsigned amount (reputation stakes), held as its eight little-endian
/// limbs; its view is the number it stands for.
#[derive(Clone, Copy, Debug, PartialEq, Eq)]
pub struct Uint512 {
    pub limbs: [u64; 8],
}

/// A 256-bit unsigned amount (reputation balances), held as its four little-endian
/// limbs; its view is the number it stands for.
#[derive(Clone, Copy, Debug, PartialEq, Eq)]
pub struct Uint256 {
    pub limbs: [u64; 4],
}

impl View for Uint512 {
    type V = nat;

    open spec fn view(&self) -> nat {
        limbs_value(self.limbs@)
    }
}

impl View for Uint256 {
    type V = nat;

    open spec fn view(&self) -> nat {
        limbs_value(self.limbs@)
    }
}

/// `U512::zero`: the value 0.
#[verifier::external_body]
fn u512_zero() -> (z: Uint512)
    ensures
        z@ == 0,
{
    Uint512 { limbs: U512::zero().0 }
}

/// `U512::from(u64)`: the same number.
#[verifier::external_body]
fn u512_from_u64(v: u64) -> (r: Uint512)
    ensures
        r@ == v,
{
    Uint512 { limbs: U512::from(v).0 }
}

/// `U512 + U512`: the sum; the operator panics on overflow, which `requires` rules out.
#[verifier::external_body]
fn u512_add(a: Uint512, b: Uint512) -> (r: Uint512)
    requires
        a@ + b@ < u512_modulus(),
    ensures
        r@ == a@ + b@,
{
    Uint512 { limbs: (U512(a.limbs) + U512(b.limbs)).0 }
}

/// `U512 - U512`: the difference; the operator panics on underflow, which `requires`
/// rules out.
#[verifier::external_body]
fn u512_sub(a: Uint512, b: Uint512) -> (r: Uint512)
    requires
        b@ <= a@,
    ensures
        r@ == a@ - b@,
{
    Uint512 { limbs: (U512(a.limbs) - U512(b.limbs)).0 }
}

/// `U512 * U512`: the product; the operator panics on overflow, which `requires` rules
/// out.
#[verifier::external_body]
fn u512_mul(a: Uint512, b: Uint512) -> (r: Uint512)
    requires
        a@ * b@ < u512_modulus(),
    ensures
        r@ == a@ * b@,
{
    Uint512 { limbs: (U512(a.limbs) * U512(b.limbs)).0 }
}

/// `U512 / U512`: the quotient rounded down; the operator panics on a zero divisor,
/// which `requires` rules out.
#[verifier::external_body]
fn u512_div(a: Uint512, b: Uint512) -> (r: Uint512)
    requires
        b@ > 0,
    ensures
        r@ == a@ / b@,
{
    Uint512 { limbs: (U512(a.limbs) / U512(b.limbs)).0 }
}

/// `U512::checked_mul`: the product, or `None` where it does not fit in 512 bits.
#[verifier::external_body]
fn u512_checked_mul(a: Uint512, b: Uint512) -> (r: Option<Uint512>)
    ensures
        match r {
            Some(p) => a@ * b@ < u512_modulus() && p@ == a@ * b@,
            None => a@ * b@ >= u512_modulus(),
        },
{
    match U512(a.limbs).checked_mul(U512(b.limbs)) {
        Some(p) => Some(Uint512 { limbs: p.0 }),
        None => None,
    }
}

/// `U512::saturating_mul`: the product, or the largest 512-bit value where the product
/// does not fit.
#[verifier::external_body]
fn u512_saturating_mul(a: Uint512, b: Uint512) -> (r: Uint512)
    ensures
        r@ == (if a@ * b@ < u512_modulus() {
            a@ * b@
        } else {
            (u512_modulus() - 1) as nat
        }),
{
    Uint512 { limbs: U512(a.limbs).saturating_mul(U512(b.limbs)).0 }
}

/// `U512::abs_diff`: the distance between the two numbers.
#[verifier::external_body]
fn u512_abs_diff(a: Uint512, b: Uint512) -> (r: Uint512)
    ensures
        r@ == (if a@ >= b@ {
            a@ - b@
        } else {
            b@ - a@
        }),
{
    Uint512 { limbs: U512(a.limbs).abs_diff(U512(b.limbs)).0 }
}

/// `U512 < U512`: whether the first number is smaller.
#[verifier::external_body]
fn u512_lt(a: Uint512, b: Uint512) -> (r: bool)
    ensures
        r == (a@ < b@),
{
    U512(a.limbs) < U512(b.limbs)
}

/// `U256::from(u64)`: the same number.
#[verifier::external_body]
fn u256_from_u64(v: u64) -> (r: Uint256)
    ensures
        r@ == v,
{
    Uint256 { limbs: U256::from(v).0 }
}

/// `U256 * u32`: the product; the operator panics on overflow, which `requires` rules
/// out.
#[verifier::external_body]
fn u256_mul_u32(a: Uint256, b: u32) -> (r: Uint256)
    requires
        a@ * b < u256_modulus(),
    ensures
        r@ == a@ * b,
{
    Uint256 { limbs: (U256(a.limbs) * b).0 }
}

/// `U256 / u32`: the quotient rounded down; the operator panics on a zero divisor, which
/// `requires` rules out.
#[verifier::external_body]
fn u256_div_u32(a: Uint256, b: u32) -> (r: Uint256)
    requires
        b > 0,
    ensures
        r@ == a@ / (b as nat),
{
    Uint256 { limbs: (U256(a.limbs) / b).0 }
}

impl Uint512 {
    /// The value 0.
    pub fn zero() -> (z: Self)
        ensures
            z@ == 0,
    {
        u512_zero()
    }

    /// The given number as a 512-bit amount.
    pub fn from_u64(v: u64) -> (r: Self)
        ensures
            r@ == v,
    {
        u512_from_u64(v)
    }

    /// The sum; it must fit in 512 bits.
    pub fn add(self, other: Self) -> (r: Self)
        requires
            self@ + other@ < u512_modulus(),
        ensures
            r@ == self@ + other@,
    {
        u512_add(self, other)
    }

    /// The difference; `other` must not exceed `self`.
    pub fn sub(self, other: Self) -> (r: Self)
        requires
            other@ <= self@,
        ensures
            r@ == self@ - other@,
    {
        u512_sub(self, other)
    }

    /// The product; it must fit in 512 bits.
    pub fn mul(self, other: Self) -> (r: Self)
        requires
            self@ * other@ < u512_modulus(),
        ensures
            r@ == self@ * other@,
    {
        u512_mul(self, other)
    }

    /// The product, or `None` where it does not fit in 512 bits.
    pub fn checked_mul(self, other: Self) -> (r: Option<Self>)
        ensures
            match r {
                Some(p) => self@ * other@ < u512_modulus() && p@ == self@ * other@,
                None => self@ * other@ >= u512_modulus(),
            },
    {
        u512_checked_mul(self, other)
    }

    /// The quotient rounded down; `other` must not be zero.
    pub fn div(self, other: Self) -> (r: Self)
        requires
            other@ > 0,
        ensures
            r@ == self@ / other@,
    {
        u512_div(self, other)
    }

    /// The product, or the largest 512-bit value where it does not fit.
    pub fn saturating_mul(self, other: Self) -> (r: Self)
        ensures
            r@ == (if self@ * other@ < u512_modulus() {
                self@ * other@
            } else {
                (u512_modulus() - 1) as nat
            }),
    {
        u512_saturating_mul(self, other)
    }

    /// The distance between the two numbers.
    pub fn abs_diff(self, other: Self) -> (r: Self)
        ensures
            r@ == (if self@ >= other@ {
                self@ - other@
            } else {
                other@ - self@
            }),
    {
        u512_abs_diff(self, other)
    }

    /// Whether `self` is smaller than `other`.
    pub fn less_than(self, other: Self) -> (r: bool)
        ensures
            r == (self@ < other@),
    {
        u512_lt(self, other)
    }

    /// Whether the value is 0.
    pub fn is_zero(self) -> (r: bool)
        ensures
            r == (self@ == 0),
    {
        !u512_lt(u512_zero(), self)
    }
}

impl Uint256 {
    /// The given number as a 256-bit amount.
    pub fn from_u64(v: u64) -> (r: Self)
        ensures
            r@ == v,
    {
        u256_from_u64(v)
    }

    /// The product with a 32-bit factor; it must fit in 256 bits.
    pub fn mul_u32(self, other: u32) -> (r: Self)
        requires
            self@ * other < u256_modulus(),
        ensures
            r@ == self@ * other,
    {
        u256_mul_u32(self, other)
    }

    /// The quotient by a 32-bit divisor, rounded down; the divisor must not be zero.
    pub fn div_u32(self, other: u32) -> (r: Self)
        requires
            other > 0,
        ensures
            r@ == self@ / (other as nat),
    {
        u256_div_u32(self, other)
    }
}

} // verus!
