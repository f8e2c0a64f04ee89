//! Small, independent algorithmic building blocks with machine-checked
//! contracts: an associative range-query tree, a disjoint-set forest,
//! modular arithmetic, binomial coefficients, rolling hashes, integer
//! helpers, primes, rational numbers, binary search and grid neighbourhoods.

pub mod binary_search_ext;
pub mod combination;
pub mod ext;
pub mod int_impls;
pub mod integer;
pub mod modint_scalar;
pub mod modulo;
pub mod prime;
pub mod rational;
pub mod rational_scalar;
pub mod rolling_hash;
pub mod segment_tree;
pub mod two_dimension_vector_ext;
pub mod union_find;

pub use binary_search_ext::BinarySearchExt;
pub use combination::Comb;
pub use integer::{divosors, gcd, lcm, Int};
pub use modulo::{mod_inv, mod_pow, ModInt};
pub use prime::Prime;
pub use rolling_hash::{RHBase, RHMod, RollingHash};
pub use segment_tree::SegmentTree;
pub use two_dimension_vector_ext::TwoDimensionVectorExt;
pub use union_find::DisjointSet;
