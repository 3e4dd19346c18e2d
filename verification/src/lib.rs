//! Multi-scalar multiplication on the twisted Edwards curve
//! `-x^2 + y^2 = 1 + 3021 x^2 y^2` over the scalar field of BLS12-377.
//!
//! The arithmetic of a device thread comes first: 256-bit integers in
//! eight limbs ([`u256`]), the field in Montgomery form ([`field`]) and the
//! addition of points in extended coordinates ([`curve`], with what the
//! additions have in common in [`curve_laws`]). The scheduling builds on it:
//! scalars are cut into windows ([`split`]); the points of a window are
//! gathered bucket by bucket and each bucket is summed by a scan of its
//! segment ([`bucket`]) or by a tree of additions of pairs
//! ([`intra_bucket`]); the buckets of a window are summed, each times its
//! number ([`inter_bucket`]); and the sums of the windows are folded into the
//! result ([`msm`]). [`mont`] holds the kernels that work point by point and
//! the batches in which a device runs them.
//!
//! The host has the same product by the curve library ([`ark`], [`cpu`]),
//! point for point in the layouts of [`bytes`]. [`harness`], [`probe`] and
//! [`utils`] serve the command line: the answers to hold a result against,
//! the probe of a device's memory, and stopwatches.

pub mod ark;
pub mod bucket;
pub mod bytes;
pub mod cpu;
pub mod curve;
pub mod curve_laws;
pub mod field;
pub mod harness;
pub mod inter_bucket;
pub mod intra_bucket;
pub mod limbs;
pub mod mont;
pub mod msm;
pub mod probe;
pub mod split;
pub mod u256;
pub mod utils;
