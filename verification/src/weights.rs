//! Transaction weights and the fees they imply at an integer fee rate.

use vstd::prelude::*;

verus! {

/// Weight units in 1000 virtual bytes: the denominator of every fee rate.
pub const WU_PER_KVB: u64 = 4000;

/// Weight of the version and lock time fields of a transaction.
pub const TX_FIXED_FIELD_WEIGHT: u64 = 32;

/// Bytes that the compact-size encoding of `v` takes.
pub open spec fn spec_varint_size(v: int) -> int {
    if v <= 0xfc {
        1
    } else if v <= 0xffff {
        3
    } else if v <= 0xffff_ffff {
        5
    } else {
        9
    }
}

/// Bytes that the compact-size encoding of `v` takes.
pub fn varint_size(v: usize) -> (size: u32)
    ensures
        size == spec_varint_size(v as int),
{
    if v <= 0xfc {
        return 1;
    }
    if v <= 0xffff {
        return 3;
    }
    if v <= 0xffff_ffff {
        return 5;
    }
    9
}

/// The fee, in satoshi, that `weight` weight units cost at `rate` satoshi per
/// 1000 virtual bytes: the least integer not below `weight * rate / 4000`.
pub open spec fn spec_fee(weight: int, rate: int) -> int {
    (weight * rate + 3999) / 4000
}

/// Largest weight for which a fee is worked out.
pub const MAX_TX_WEIGHT: u64 = 0xff_ffff_ffff;

/// The fee of `weight` weight units at `rate`, rounded up to a whole satoshi.
pub fn fee_at(weight: u64, rate: u64) -> (fee: u128)
    requires
        weight <= MAX_TX_WEIGHT,
    ensures
        fee == spec_fee(weight as int, rate as int),
{
    assert(0 <= weight as int * rate as int <= 0xff_ffff_ffff * 0xffff_ffff_ffff_ffff)
        by (nonlinear_arith)
        requires
            0 <= weight <= 0xff_ffff_ffff,
            0 <= rate <= 0xffff_ffff_ffff_ffff,
    ;
    let product: u128 = (weight as u128) * (rate as u128);
    (product + 3999) / 4000
}

} // verus!
