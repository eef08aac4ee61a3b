//! Integer decision logic of the jesse indicator kernels.
//!
//! The indicators themselves are floating-point recurrences; what this crate
//! verifies is the decisions they take by comparing prices, counting or
//! reading names: which candle of a sliding window holds its extreme, which
//! candle of a block supplies the block's high and low, which parts of a
//! candle are snapped to the previous close, how many present values a
//! window holds, in which order numpy's pairwise sum adds a block, how the
//! variable-length moving average walks its period, when RSX has warmed up,
//! and which price an indicator reads.  Prices enter
//! as [`keys::PriceKey`] values, integers that compare exactly as the floats
//! do, with `None` standing for NaN.

pub mod keys;
pub mod window;
pub mod candle;
pub mod counts;
pub mod pairwise;
pub mod vlma;
pub mod rsx;
pub mod source;
