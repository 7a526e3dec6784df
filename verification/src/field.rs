//! Exact-integer model of the proving field's elements.

use vstd::prelude::*;
use vstd::arithmetic::power::{lemma_pow0, lemma_pow1, lemma_pow_adds, lemma_pow_multiplies, lemma_pow_positive, pow};
use vstd::arithmetic::power2::pow2;

verus! {

/// One element of the proving field.
///
/// Every coefficient and witness value that the circuit layer produces is a
/// small integer: gate coefficients range over 0, plus or minus 1, 2 and
/// powers of two up to 2^64, and witness cells hold bits, 32-bit words,
/// 64-bit limbs and small sums of those.  All of them have magnitude far
/// below half the field modulus (about 2^254), so exact integer arithmetic
/// agrees with the field arithmetic on everything this crate computes.  The
/// element is therefore tracked as an exact signed integer; a negative value
/// stands for the field element `modulus - |value|`.  The conversion into
/// the proving engine's own representation happens outside this crate.
#[derive(Clone, Copy, PartialEq, Eq, Structural, Debug)]
pub struct FieldElement {
    pub value: i128,
}

impl FieldElement {
    /// The element's exact integer value.
    pub open spec fn as_int(self) -> int {
        self.value as int
    }

    /// The additive identity.
    pub fn zero() -> (r: Self)
        ensures
            r.value == 0,
    {
        FieldElement { value: 0 }
    }

    /// The multiplicative identity.
    pub fn one() -> (r: Self)
        ensures
            r.value == 1,
    {
        FieldElement { value: 1 }
    }

    /// Create a field element from a u64 value.
    pub fn from_u64(value: u64) -> (r: Self)
        ensures
            r.value == value,
    {
        FieldElement { value: value as i128 }
    }

    /// The additive inverse.
    pub fn neg(self) -> (r: Self)
        requires
            self.value > i128::MIN,
        ensures
            r.value == -self.value,
    {
        FieldElement { value: -self.value }
    }
}

/// Shorthand for building field-element constants in specifications.
pub open spec fn fe(value: int) -> FieldElement {
    FieldElement { value: value as i128 }
}

/// The field modulus.
pub open spec fn field_modulus() -> int {
    0x40000000000000000000000000000000224698fc094cf91b992d30ed00000001int
}

/// The little-endian value of a byte sequence.
pub open spec fn bytes_le_as_nat(b: Seq<u8>) -> int
    decreases b.len(),
{
    if b.len() == 0 {
        0
    } else {
        b.first() + 256 * bytes_le_as_nat(b.drop_first())
    }
}

/// The canonical 32-byte little-endian encoding of a field element: byte
/// `i` of the canonical representative `v mod modulus`.
pub open spec fn spec_field_bytes(v: int) -> Seq<u8> {
    Seq::new(32, |i: int| (((v % field_modulus()) / pow(256, i as nat)) % 256) as u8)
}

/// Low 128 bits of the field modulus.
pub const FIELD_MODULUS_LOW: u128 = 0x224698fc094cf91b992d30ed00000001;

/// High 128 bits of the field modulus.
pub const FIELD_MODULUS_HIGH: u128 = 0x40000000000000000000000000000000;

/// 2^128, the weight of the upper half of a 256-bit value.
pub open spec fn pow2_128() -> int {
    0x1_0000_0000_0000_0000_0000_0000_0000_0000int
}

impl FieldElement {
    /// Serialize to the canonical 32-byte little-endian encoding of the
    /// element's representative in `[0, modulus)`.
    pub fn to_bytes(&self) -> (r: Vec<u8>)
        ensures
            r@.len() == 32,
            r@ == spec_field_bytes(self.as_int()),
            bytes_le_as_nat(r@) == self.as_int() % field_modulus(),
    {
        let halves = self.canonical_halves();
        let mut low = halves.0;
        let mut high = halves.1;
        let ghost m = self.as_int() % field_modulus();
        let mut r: Vec<u8> = Vec::new();
        proof {
            lemma_pow0(256);
            assert(m / pow(256, 0) == m);
        }
        for i in 0..32usize
            invariant
                r@.len() == i,
                0 <= m < field_modulus(),
                low + high * pow2_128() == m / pow(256, i as nat),
                forall|j: int|
                    0 <= j < i ==> #[trigger] r@[j] == (((m / pow(256, j as nat)) % 256) as u8),
        {
            let b = #[verifier::truncate] ((low % 256) as u8);
            proof {
                lemma_pow_positive(256, i as nat);
                let cur = m / pow(256, i as nat);
                vstd::arithmetic::div_mod::lemma_div_pos_is_pos(m, pow(256, i as nat));
                assert(high * pow2_128() == 256 * (high * 0x100_0000_0000_0000_0000_0000_0000_0000))
                    by (nonlinear_arith);
                vstd::arithmetic::div_mod::lemma_mod_multiples_vanish(
                    high * 0x100_0000_0000_0000_0000_0000_0000_0000,
                    low as int,
                    256,
                );
                assert(cur % 256 == low % 256);
                vstd::arithmetic::div_mod::lemma_small_mod((low % 256) as nat, 256);
            }
            r.push(b);
            let carry = high % 256;
            let ghost old_low = low;
            let ghost old_high = high;
            low = low / 256 + carry * 0x100_0000_0000_0000_0000_0000_0000_0000;
            high = high / 256;
            proof {
                let cur = m / pow(256, i as nat);
                // The pair keeps tracking the running quotient: dividing the
                // 256-bit value by 256 moves the modulus' low byte of the
                // upper half into the top byte of the lower half.
                assert(carry * 0x100_0000_0000_0000_0000_0000_0000_0000 <= 0xFF
                    * 0x100_0000_0000_0000_0000_0000_0000_0000) by (nonlinear_arith)
                    requires
                        carry <= 0xFF,
                ;
                vstd::arithmetic::div_mod::lemma_fundamental_div_mod(old_low as int, 256);
                vstd::arithmetic::div_mod::lemma_fundamental_div_mod(old_high as int, 256);
                let qa = old_low as int / 256;
                let ra = old_low as int % 256;
                let qh = old_high as int / 256;
                let rh = old_high as int % 256;
                assert((old_low + old_high * pow2_128()) == 256 * (qa + rh
                    * 0x100_0000_0000_0000_0000_0000_0000_0000 + qh * pow2_128()) + ra)
                    by (nonlinear_arith)
                    requires
                        old_low == 256 * qa + ra,
                        old_high == 256 * qh + rh,
                ;
                vstd::arithmetic::div_mod::lemma_fundamental_div_mod_converse(
                    cur,
                    256,
                    low + high * pow2_128(),
                    old_low as int % 256,
                );
                lemma_pow_positive(256, i as nat);
                vstd::arithmetic::div_mod::lemma_div_denominator(m, pow(256, i as nat), 256);
                lemma_pow1(256);
                lemma_pow_adds(256, i as nat, 1);
                assert(pow(256, (i + 1) as nat) == 256 * pow(256, i as nat));
                assert(pow(256, i as nat) * 256 == 256 * pow(256, i as nat));
            }
        }
        proof {
            assert(r@ =~= spec_field_bytes(self.as_int()));
            lemma_modulus_below_pow256_32();
            lemma_le_bytes_of_quotients(r@, m);
        }
        r
    }

    /// The canonical representative `value mod modulus` as a 256-bit value
    /// in two 128-bit halves.
    fn canonical_halves(&self) -> (r: (u128, u128))
        ensures
            r.0 + r.1 * pow2_128() == self.as_int() % field_modulus(),
    {
        proof {
            assert(field_modulus() == FIELD_MODULUS_LOW + FIELD_MODULUS_HIGH * pow2_128());
        }
        let v = self.value;
        if v >= 0 {
            proof {
                vstd::arithmetic::div_mod::lemma_small_mod(v as nat, field_modulus() as nat);
            }
            (v as u128, 0)
        } else {
            // The representative of a negative value is modulus - |value|.
            let mag = ((-(v + 1)) as u128) + 1;
            proof {
                assert(mag == -(v as int));
                vstd::arithmetic::div_mod::lemma_fundamental_div_mod_converse(
                    v as int,
                    field_modulus(),
                    -1,
                    field_modulus() + v,
                );
            }
            if mag <= FIELD_MODULUS_LOW {
                (FIELD_MODULUS_LOW - mag, FIELD_MODULUS_HIGH)
            } else {
                ((u128::MAX - mag) + FIELD_MODULUS_LOW + 1, FIELD_MODULUS_HIGH - 1)
            }
        }
    }
}

proof fn lemma_modulus_below_pow256_32()
    ensures
        field_modulus() < pow(256, 32),
        pow(256, 32) > 0,
{
    vstd::arithmetic::power2::lemma2_to64();
    vstd::arithmetic::power2::lemma_pow2(8);
    vstd::arithmetic::power2::lemma_pow2(256);
    vstd::arithmetic::power2::lemma_pow2_adds(64, 64);
    vstd::arithmetic::power2::lemma_pow2_adds(128, 128);
    assert(pow2(8) == 256);
    assert(pow(2, 8) == 256);
    lemma_pow_multiplies(2, 8, 32);
    assert(pow(256, 32) == pow(2, 256));
    assert(pow2(64) == 0x1_0000_0000_0000_0000);
    assert(pow2(128) == pow2(64) * pow2(64));
    assert(pow2(128) == 0x1_0000_0000_0000_0000_0000_0000_0000_0000int);
    assert(pow2(256) == pow2(128) * pow2(128));
    assert(pow2(256) == 0x1_0000_0000_0000_0000_0000_0000_0000_0000int
        * 0x1_0000_0000_0000_0000_0000_0000_0000_0000int);
    assert(pow2(256)
        == 0x1_0000000000000000_0000000000000000_0000000000000000_0000000000000000int);
    assert(pow(2, 256) == pow2(256));
}

/// A byte sequence whose byte `j` is the `j`-th base-256 digit of `m` has
/// value `m`.
proof fn lemma_le_bytes_of_quotients(b: Seq<u8>, m: int)
    requires
        0 <= m < pow(256, b.len()),
        forall|j: int| 0 <= j < b.len() ==> #[trigger] b[j] == (((m / pow(256, j as nat)) % 256) as u8),
    ensures
        bytes_le_as_nat(b) == m,
    decreases b.len(),
{
    if b.len() == 0 {
        lemma_pow0(256);
    } else {
        let t = b.drop_first();
        lemma_pow0(256);
        assert(b[0] == ((m % 256) as u8));
        vstd::arithmetic::div_mod::lemma_fundamental_div_mod(m, 256);
        vstd::arithmetic::div_mod::lemma_mod_bound(m, 256);
        vstd::arithmetic::div_mod::lemma_div_pos_is_pos(m, 256);
        assert forall|j: int| 0 <= j < t.len() implies #[trigger] t[j] == ((((m / 256) / pow(
            256,
            j as nat,
        )) % 256) as u8) by {
            assert(t[j] == b[j + 1]);
            lemma_pow_positive(256, j as nat);
            vstd::arithmetic::div_mod::lemma_div_denominator(m, 256, pow(256, j as nat));
            lemma_pow1(256);
            lemma_pow_adds(256, 1, j as nat);
            assert(pow(256, (j + 1) as nat) == 256 * pow(256, j as nat));
        }
        assert(m / 256 < pow(256, t.len())) by {
            lemma_pow1(256);
            lemma_pow_adds(256, 1, t.len());
            assert(pow(256, b.len()) == 256 * pow(256, t.len()));
            lemma_pow_positive(256, t.len());
            if m / 256 >= pow(256, t.len()) {
                assert(m == 256 * (m / 256) + m % 256);
                assert(256 * (m / 256) >= 256 * pow(256, t.len())) by (nonlinear_arith)
                    requires
                        m / 256 >= pow(256, t.len()),
                ;
            }
        }
        lemma_le_bytes_of_quotients(t, m / 256);
        assert(bytes_le_as_nat(b) == b.first() + 256 * bytes_le_as_nat(t));
    }
}

} // verus!
