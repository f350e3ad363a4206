//! Splitting an address into block offset, set index and tag, and putting it back
//! together.

use vstd::arithmetic::div_mod::{
    lemma_basic_div, lemma_div_denominator, lemma_fundamental_div_mod,
    lemma_fundamental_div_mod_converse, lemma_small_mod,
};
use vstd::arithmetic::power2::{lemma2_to64_rest, lemma_pow2_adds, lemma_pow2_pos, pow2};
use vstd::bits::{
    lemma_u64_low_bits_mask_is_mod, lemma_u64_mul_pow2_le_max_iff_max_shr,
    lemma_u64_pow2_no_overflow, lemma_u64_shl_is_mul, lemma_u64_shr_is_div,
};
use vstd::prelude::*;

verus! {

/// Number of bits in an address.
pub const ADDRESS_BITS: u32 = 64;

/// The set that `address` maps to: the `s` bits just above the `b` block-offset bits.
pub open spec fn set_index_of(address: nat, s: nat, b: nat) -> nat {
    (address / pow2(b)) % pow2(s)
}

/// The tag of `address`: everything above the set-index bits.
pub open spec fn tag_of(address: nat, s: nat, b: nat) -> nat {
    address / pow2(s + b)
}

/// The address that has the given tag, set index and block offset.
pub open spec fn compose(tag: nat, set_index: nat, offset: nat, s: nat, b: nat) -> nat {
    tag * pow2(s + b) + set_index * pow2(b) + offset
}

/// Splits `address` into `(set_index, tag)` for a cache with `s` set-index bits and
/// `b` block-offset bits.
pub fn decode(address: u64, s: u32, b: u32) -> (parts: (u64, u64))
    requires
        s + b <= ADDRESS_BITS,
    ensures
        parts.0 == set_index_of(address as nat, s as nat, b as nat),
        parts.1 == tag_of(address as nat, s as nat, b as nat),
{
    proof {
        lemma2_to64_rest();
    }
    // A shift by the whole width is not defined: nothing is left above 64 bits.
    let above_offset: u64 = if b >= 64 {
        0
    } else {
        proof {
            lemma_u64_shr_is_div(address, b as u64);
        }
        address >> b
    };
    let set_index: u64 = if s >= 64 {
        proof {
            lemma_small_mod(above_offset as nat, pow2(64));
        }
        above_offset
    } else {
        proof {
            lemma_u64_pow2_no_overflow(s as nat);
            lemma_u64_shl_is_mul(1, s as u64);
            lemma_u64_low_bits_mask_is_mod(above_offset, s as nat);
        }
        above_offset & ((1u64 << s) - 1)
    };
    let tag: u64 = if s + b >= 64 {
        proof {
            lemma_basic_div(address as int, pow2(64) as int);
        }
        0
    } else {
        proof {
            lemma_u64_shr_is_div(address, (s + b) as u64);
        }
        address >> (s + b)
    };
    (set_index, tag)
}

/// The set index of an address has `s` bits.
pub proof fn lemma_set_index_in_range(address: nat, s: nat, b: nat)
    ensures
        set_index_of(address, s, b) < pow2(s),
{
    lemma_pow2_pos(s);
}

/// The tag of an address has no more bits than the address has above its set index.
pub proof fn lemma_tag_in_range(address: u64, s: nat, b: nat)
    requires
        s + b <= ADDRESS_BITS,
    ensures
        tag_of(address as nat, s, b) < pow2((ADDRESS_BITS - s - b) as nat),
{
    let low = pow2(s + b);
    let high = pow2((ADDRESS_BITS - s - b) as nat);
    let a = address as nat;
    lemma_pow2_adds(s + b, (ADDRESS_BITS - s - b) as nat);
    lemma2_to64_rest();
    lemma_fundamental_div_mod(a as int, low as int);
    let tag = a / low;
    assert(tag < high) by (nonlinear_arith)
        requires
            low * tag <= a,
            a < low * high,
            low > 0,
    ;
}

/// An address put together from a tag, a set index and a block offset decodes to that
/// set index and that tag.
pub proof fn lemma_compose_decodes(tag: nat, set_index: nat, offset: nat, s: nat, b: nat)
    requires
        set_index < pow2(s),
        offset < pow2(b),
    ensures
        set_index_of(compose(tag, set_index, offset, s, b), s, b) == set_index,
        tag_of(compose(tag, set_index, offset, s, b), s, b) == tag,
{
    let p = pow2(b) as int;
    let q = pow2(s) as int;
    let whole = compose(tag, set_index, offset, s, b) as int;
    let upper = tag * q + set_index;
    lemma_pow2_adds(s, b);
    assert(whole == upper * p + offset) by (nonlinear_arith)
        requires
            whole == tag * (q * p) + set_index * p + offset,
            upper == tag * q + set_index,
    ;
    lemma_fundamental_div_mod_converse(whole, p, upper, offset as int);
    lemma_fundamental_div_mod_converse(upper, q, tag as int, set_index as int);
    lemma_div_denominator(whole, p, q);
}

/// An address put together from a tag, a set index and a block offset fits in an
/// address where the tag fits above the set index.
pub proof fn lemma_compose_in_range(tag: nat, set_index: nat, offset: nat, s: nat, b: nat)
    requires
        s + b <= ADDRESS_BITS,
        tag < pow2((ADDRESS_BITS - s - b) as nat),
        set_index < pow2(s),
        offset < pow2(b),
    ensures
        compose(tag, set_index, offset, s, b) <= u64::MAX,
{
    let p = pow2(b) as int;
    let q = pow2(s) as int;
    let r = pow2((ADDRESS_BITS - s - b) as nat) as int;
    lemma_pow2_adds(s, b);
    lemma_pow2_adds(s + b, (ADDRESS_BITS - s - b) as nat);
    lemma2_to64_rest();
    assert(tag * (q * p) + set_index * p + offset < (q * p) * r) by (nonlinear_arith)
        requires
            0 <= tag < r,
            0 <= set_index < q,
            0 <= offset < p,
    ;
}

/// Where tag, set index and block offset each fit in their bits, the address put
/// together from them is the three shifted into place and joined bit by bit.
pub proof fn lemma_compose_as_bits(tag: u64, set_index: u64, offset: u64, s: u64, b: u64)
    requires
        s + b < ADDRESS_BITS,
        tag < pow2((ADDRESS_BITS - s - b) as nat),
        set_index < pow2(s as nat),
        offset < pow2(b as nat),
    ensures
        compose(tag as nat, set_index as nat, offset as nat, s as nat, b as nat) == ((tag << ((s
            + b) as u64)) | (set_index << b) | offset),
{
    let sb: u64 = (s + b) as u64;
    let whole = compose(tag as nat, set_index as nat, offset as nat, s as nat, b as nat);
    lemma_compose_in_range(tag as nat, set_index as nat, offset as nat, s as nat, b as nat);
    assert(tag * pow2(sb as nat) <= whole && set_index * pow2(b as nat) <= whole)
        by (nonlinear_arith)
        requires
            whole == tag * pow2(sb as nat) + set_index * pow2(b as nat) + offset,
    ;
    lemma_u64_shl_is_mul(tag, sb);
    lemma_u64_shl_is_mul(set_index, b);
    lemma_u64_pow2_no_overflow(s as nat);
    lemma_u64_pow2_no_overflow(b as nat);
    lemma_u64_shl_is_mul(1, s);
    lemma_u64_shl_is_mul(1, b);
    lemma_u64_mul_pow2_le_max_iff_max_shr(tag, sb, u64::MAX);
    assert(((tag << sb) | (set_index << b) | offset) == (tag << sb) + (set_index << b) + offset)
        by (bit_vector)
        requires
            sb < 64,
            b <= sb,
            s == sb - b,
            set_index < (1u64 << s),
            offset < (1u64 << b),
            tag <= (u64::MAX >> sb),
    ;
}

} // verus!
