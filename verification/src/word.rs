//! 256-bit unsigned amounts and 20-byte account addresses.

use vstd::arithmetic::power::pow;
use vstd::prelude::*;

verus! {

/// The weight of one limb: 2^64.
pub open spec fn limb_base() -> int {
    0x1_0000_0000_0000_0000
}

/// The number of values of a 256-bit word: 2^256.
pub open spec fn modulus() -> int {
    0x1_0000_0000_0000_0000int * 0x1_0000_0000_0000_0000int * 0x1_0000_0000_0000_0000int
        * 0x1_0000_0000_0000_0000int
}

/// The residue of a number modulo 2^256.
pub open spec fn wrapped(v: int) -> nat {
    (v % modulus()) as nat
}

/// The big-endian 32-byte encoding of a value below 2^256.
pub open spec fn be_bytes(v: nat) -> Seq<u8> {
    Seq::new(32, |i: int| ((v as int / pow(256, (31 - i) as nat)) % 256) as u8)
}

/// A 256-bit unsigned integer, least significant limb first.
#[derive(Clone, Copy, Debug, PartialEq, Eq)]
pub struct U256 {
    pub limbs: [u64; 4],
}

impl View for U256 {
    type V = nat;

    /// The number that the four limbs stand for.
    open spec fn view(&self) -> nat {
        (self.limbs[0] as int + limb_base() * (self.limbs[1] as int + limb_base() * (
        self.limbs[2] as int + limb_base() * (self.limbs[3] as int)))) as nat
    }
}

impl U256 {
    /// The value 0.
    pub fn zero() -> (r: U256)
        ensures
            r@ == 0,
    {
        U256 { limbs: [0, 0, 0, 0] }
    }

    /// The value of a machine word.
    pub fn from_u64(x: u64) -> (r: U256)
        ensures
            r@ == x,
    {
        U256 { limbs: [x, 0, 0, 0] }
    }

    /// Whether the value is 0.
    pub fn is_zero(&self) -> (r: bool)
        ensures
            r == (self@ == 0),
    {
        self.limbs[0] == 0 && self.limbs[1] == 0 && self.limbs[2] == 0 && self.limbs[3] == 0
    }

    /// Sum modulo 2^256.
    ///
    /// Trusted: the body applies `+` to two `alloy_primitives::U256`
    /// (`ruint::Uint<256, 4>`), whose `Add` forwards to `wrapping_add`. The
    /// contract claims that the result is the sum reduced modulo 2^256.
    #[verifier::external_body]
    pub(crate) fn wrapping_add(self, rhs: U256) -> (r: U256)
        ensures
            r@ == wrapped((self@ + rhs@) as int),
    {
        let a = stylus_sdk::alloy_primitives::U256::from_limbs(self.limbs);
        let b = stylus_sdk::alloy_primitives::U256::from_limbs(rhs.limbs);
        U256 { limbs: (a + b).into_limbs() }
    }

    /// Difference modulo 2^256.
    ///
    /// Trusted: the body applies `-` to two `alloy_primitives::U256`
    /// (`ruint::Uint<256, 4>`), whose `Sub` forwards to `wrapping_sub`. The
    /// contract claims that the result is the difference reduced modulo
    /// 2^256, so a larger subtrahend wraps around.
    #[verifier::external_body]
    pub(crate) fn wrapping_sub(self, rhs: U256) -> (r: U256)
        ensures
            r@ == wrapped(self@ - rhs@),
    {
        let a = stylus_sdk::alloy_primitives::U256::from_limbs(self.limbs);
        let b = stylus_sdk::alloy_primitives::U256::from_limbs(rhs.limbs);
        U256 { limbs: (a - b).into_limbs() }
    }

    /// Product modulo 2^256.
    ///
    /// Trusted: the body applies `*` to two `alloy_primitives::U256`
    /// (`ruint::Uint<256, 4>`), whose `Mul` forwards to `wrapping_mul`. The
    /// contract claims that the result is the product reduced modulo 2^256.
    #[verifier::external_body]
    pub(crate) fn wrapping_mul(self, rhs: U256) -> (r: U256)
        ensures
            r@ == wrapped((self@ * rhs@) as int),
    {
        let a = stylus_sdk::alloy_primitives::U256::from_limbs(self.limbs);
        let b = stylus_sdk::alloy_primitives::U256::from_limbs(rhs.limbs);
        U256 { limbs: (a * b).into_limbs() }
    }

    /// Quotient rounded down.
    ///
    /// Trusted: the body applies `/` to two `alloy_primitives::U256`
    /// (`ruint::Uint<256, 4>`), whose `Div` forwards to `wrapping_div`. The
    /// contract claims that the result is the quotient rounded down. With a
    /// zero divisor the call panics, so the precondition leaves that out.
    #[verifier::external_body]
    pub(crate) fn div(self, rhs: U256) -> (r: U256)
        requires
            rhs@ != 0,
        ensures
            r@ == self@ / rhs@,
    {
        let a = stylus_sdk::alloy_primitives::U256::from_limbs(self.limbs);
        let b = stylus_sdk::alloy_primitives::U256::from_limbs(rhs.limbs);
        U256 { limbs: (a / b).into_limbs() }
    }

    /// Strict order of the values.
    ///
    /// Trusted: the body applies `<` to two `alloy_primitives::U256`
    /// (`ruint::Uint<256, 4>`, `PartialOrd::lt`). The contract claims that it
    /// orders the words as the numbers they stand for.
    #[verifier::external_body]
    pub(crate) fn lt(&self, rhs: &U256) -> (r: bool)
        ensures
            r == (self@ < rhs@),
    {
        let a = stylus_sdk::alloy_primitives::U256::from_limbs(self.limbs);
        let b = stylus_sdk::alloy_primitives::U256::from_limbs(rhs.limbs);
        a < b
    }

    /// The 32 bytes of the value, most significant first.
    ///
    /// Trusted: the body calls `to_be_bytes::<32>` of
    /// `alloy_primitives::U256` (`ruint::Uint<256, 4>`). The contract claims
    /// that byte `i` of the result is digit `31 - i` of the value in base 256.
    #[verifier::external_body]
    pub(crate) fn to_be_bytes(&self) -> (r: [u8; 32])
        ensures
            r@ == be_bytes(self@),
    {
        stylus_sdk::alloy_primitives::U256::from_limbs(self.limbs).to_be_bytes::<32>()
    }
}

/// Every word stands for a number below 2^256.
pub proof fn lemma_value_bound(x: U256)
    ensures
        x@ < modulus(),
{
}

/// A number from 0 up to 2^256 - 1 is its own residue modulo 2^256.
pub proof fn lemma_wrapped_small(v: int)
    requires
        0 <= v < modulus(),
    ensures
        wrapped(v) == v,
{
    vstd::arithmetic::div_mod::lemma_small_mod(v as nat, modulus() as nat);
}

/// A 20-byte account address.
#[derive(Clone, Copy, Debug, PartialEq, Eq)]
pub struct Address {
    pub bytes: [u8; 20],
}

impl Address {
    /// Whether this is the null account: twenty zero bytes.
    pub open spec fn is_null(&self) -> bool {
        forall|i: int| 0 <= i < 20 ==> self.bytes[i] == 0
    }

    /// The null account.
    pub fn zero() -> (r: Address)
        ensures
            r.is_null(),
    {
        Address { bytes: [0u8; 20] }
    }

    /// Whether this is the null account.
    pub fn is_zero(&self) -> (r: bool)
        ensures
            r == self.is_null(),
    {
        let z = Self::zero();
        proof {
            if self.is_null() {
                assert(self.bytes =~= z.bytes);
            }
        }
        self.same(&z)
    }

    /// Whether two addresses are the same account.
    pub fn same(&self, other: &Address) -> (r: bool)
        ensures
            r == (*self == *other),
    {
        let mut i: usize = 0;
        while i < 20
            invariant
                i <= 20,
                forall|j: int| 0 <= j < i ==> self.bytes[j] == other.bytes[j],
            decreases 20 - i,
        {
            if self.bytes[i] != other.bytes[i] {
                return false;
            }
            i += 1;
        }
        assert(self.bytes =~= other.bytes);
        true
    }
}

/// A transfer of value out of a ledger, which its caller has to make.
#[derive(Clone, Copy, Debug, PartialEq, Eq)]
pub struct Payout {
    pub payee: Address,
    pub amount: U256,
}

} // verus!
