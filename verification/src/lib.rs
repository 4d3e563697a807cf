//! Sampling descriptions over a splittable pseudorandom source.
//!
//! A [`TreeRng`] is a deterministic source of random words that can be split
//! into independent children. A [`Variant`] describes how to draw one value
//! from such a source; descriptions are immutable and compose through the
//! builder methods of the trait.

pub mod constrain;
pub mod draws;
pub mod merge;
pub mod pool;
pub mod tree_rng;
pub mod variant;
pub mod xoshiro;

pub use constrain::ConstrainedVariant;
pub use constrain::TryConstrainedVariant;
pub use merge::MergeVariant;
pub use merge::VariantChain;
pub use pool::PoolVariant;
pub use pool::TryPoolVariant;
pub use tree_rng::FillError;
pub use tree_rng::Split;
pub use tree_rng::TreeRng;
pub use variant::FnVariant;
pub use variant::MapVariant;
pub use variant::Variant;
pub use variant::VariantIter;
