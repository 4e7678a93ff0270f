//! Common subsequences of two byte sequences, by two interchangeable
//! strategies: an exact one, which finds a longest common subsequence with the
//! dynamic-programming table, and an approximate one, which greedily takes the
//! closest match of what is left of both sequences.

pub mod comparison;
pub mod cos_lcs;
pub mod lcs_trait;
pub mod slow_lcs;
pub mod stats;
