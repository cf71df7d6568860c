//! Powers of two and the bits of a word, stated by arithmetic.

use vstd::prelude::*;
use vstd::arithmetic::power2::pow2;
use vstd::arithmetic::power2::lemma_pow2_unfold;
use vstd::arithmetic::power2::lemma_pow2_pos;
use vstd::arithmetic::power2::lemma_pow2_strictly_increases;
use vstd::arithmetic::power2::lemma2_to64;

verus! {

/// Bit `i` of `v`, counted from the least significant.
pub open spec fn bit_of(v: nat, i: nat) -> bool {
    (v / pow2(i)) % 2 == 1
}

/// The number whose bits are `bits`, least significant first.
pub open spec fn pack_bits(bits: Seq<bool>) -> nat
    decreases bits.len(),
{
    if bits.len() == 0 {
        0
    } else {
        2 * pack_bits(bits.drop_first()) + if bits[0] { 1nat } else { 0nat }
    }
}

/// A number packed from `n` bits is below `2^n`.
pub proof fn lemma_pack_bits_bound(bits: Seq<bool>)
    ensures
        pack_bits(bits) < pow2(bits.len()),
    decreases bits.len(),
{
    if bits.len() == 0 {
        lemma2_to64();
    } else {
        lemma_pack_bits_bound(bits.drop_first());
        lemma_pow2_unfold(bits.len());
    }
}

/// `2^n` for `n` up to 32.
pub fn pow2_u64(n: u8) -> (r: u64)
    requires
        n <= 32,
    ensures
        r == pow2(n as nat),
        1 <= r <= 0x1_0000_0000,
{
    let mut r: u64 = 1;
    let mut i: u8 = 0;
    proof {
        lemma2_to64();
    }
    while i < n
        invariant
            i <= n <= 32,
            r == pow2(i as nat),
            1 <= r <= pow2(32),
            pow2(32) == 0x1_0000_0000,
        decreases n - i,
    {
        proof {
            lemma_pow2_unfold((i + 1) as nat);
            if i + 1 < 32 {
                lemma_pow2_strictly_increases((i + 1) as nat, 32);
            }
        }
        r = r * 2;
        i += 1;
    }
    r
}

/// The eight low bits of `value`, least significant first.
pub fn bits_from_int(value: u8) -> (bits: [bool; 8])
    ensures
        forall|i: int| 0 <= i < 8 ==> bits@[i] == bit_of(value as nat, i as nat),
{
    let mut bits: [bool; 8] = [false; 8];
    let mut rest: u8 = value;
    let mut i: usize = 0;
    proof {
        lemma2_to64();
    }
    while i < 8
        invariant
            i <= 8,
            rest as nat == (value as nat) / pow2(i as nat),
            forall|j: int| 0 <= j < i ==> bits@[j] == bit_of(value as nat, j as nat),
        decreases 8 - i,
    {
        bits[i] = rest % 2 == 1;
        proof {
            lemma_pow2_unfold((i + 1) as nat);
            lemma_pow2_pos(i as nat);
            vstd::arithmetic::div_mod::lemma_div_denominator(value as int, pow2(i as nat) as int, 2);
            assert(pow2(i as nat) * 2 == pow2((i + 1) as nat)) by(nonlinear_arith)
                requires pow2((i + 1) as nat) == 2 * pow2(i as nat);
        }
        rest = rest / 2;
        i += 1;
    }
    bits
}

/// The number whose bits are `bits`, least significant first.
pub fn int_from_bits(bits: &[bool]) -> (value: u32)
    requires
        bits@.len() <= 32,
    ensures
        value == pack_bits(bits@),
{
    let mut value: u64 = 0;
    let mut i: usize = bits.len();
    proof {
        assert(bits@.skip(bits@.len() as int) =~= Seq::<bool>::empty());
        lemma2_to64();
    }
    while i > 0
        invariant
            i <= bits@.len() <= 32,
            value == pack_bits(bits@.skip(i as int)),
            pow2(32) == 0x1_0000_0000,
        decreases i,
    {
        proof {
            let tail = bits@.skip(i - 1);
            assert(tail.drop_first() =~= bits@.skip(i as int));
            assert(tail[0] == bits@[i - 1]);
            lemma_pack_bits_bound(bits@.skip(i as int));
            lemma_pack_bits_bound(tail);
            if tail.len() < 32 {
                lemma_pow2_strictly_increases(tail.len(), 32);
            }
        }
        i -= 1;
        value = 2 * value + if bits[i] { 1 } else { 0 };
    }
    proof {
        assert(bits@.skip(0) =~= bits@);
        lemma_pack_bits_bound(bits@);
        if bits@.len() < 32 {
            lemma_pow2_strictly_increases(bits@.len(), 32);
        }
    }
    value as u32
}

/// The `count` low bits of `word`, least significant first.
pub fn bits_of_word(word: u32, count: usize) -> (bits: Vec<bool>)
    requires
        count <= 32,
    ensures
        bits@.len() == count,
        forall|i: int| 0 <= i < count ==> bits@[i] == bit_of(word as nat, i as nat),
{
    let mut bits: Vec<bool> = Vec::new();
    let mut rest: u32 = word;
    let mut i: usize = 0;
    proof {
        lemma2_to64();
    }
    while i < count
        invariant
            i <= count <= 32,
            bits@.len() == i,
            rest as nat == (word as nat) / pow2(i as nat),
            forall|j: int| 0 <= j < i ==> bits@[j] == bit_of(word as nat, j as nat),
        decreases count - i,
    {
        bits.push(rest % 2 == 1);
        proof {
            lemma_pow2_unfold((i + 1) as nat);
            lemma_pow2_pos(i as nat);
            vstd::arithmetic::div_mod::lemma_div_denominator(word as int, pow2(i as nat) as int, 2);
            assert(pow2(i as nat) * 2 == pow2((i + 1) as nat)) by (nonlinear_arith)
                requires
                    pow2((i + 1) as nat) == 2 * pow2(i as nat),
            ;
        }
        rest = rest / 2;
        i += 1;
    }
    bits
}

} // verus!
