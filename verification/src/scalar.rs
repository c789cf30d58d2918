//! Scalars as ranks.
//!
//! The library compares scalars and never computes with them, so it holds each
//! one as its rank: a 64-bit integer that rises with the value. The embedding
//! program ranks a binary64 value by its bit pattern: a value above zero has
//! the pattern itself as rank, a value below zero the negated rank of its
//! magnitude, both zeros rank 0, and the two infinities take the ends of the
//! integer range. What is not a number has no rank: the embedding program
//! decides what stands for it before it hands a scalar in.

use vstd::prelude::*;

verus! {

/// The rank of a scalar.
pub type Scalar = i64;

/// The rank of zero.
pub const ZERO: Scalar = 0;

/// The rank of one: the bit pattern of the binary64 value 1.
pub const ONE: Scalar = 0x3FF0_0000_0000_0000;

/// The rank of positive infinity: no rank lies above it.
pub const INFINITY: Scalar = i64::MAX;

/// The rank of negative infinity: no rank lies below it.
pub const NEG_INFINITY: Scalar = i64::MIN;

/// The smaller of two ranks, the first where they tie.
pub open spec fn min_rank(a: Scalar, b: Scalar) -> Scalar {
    if a <= b {
        a
    } else {
        b
    }
}

/// The larger of two ranks, the first where they tie.
pub open spec fn max_rank(a: Scalar, b: Scalar) -> Scalar {
    if a >= b {
        a
    } else {
        b
    }
}

} // verus!
