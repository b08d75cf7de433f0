//! A distinct-count sketch (HyperLogLog): a fixed array of registers raised
//! by hashed elements, merged by elementwise maximum, and read back as a
//! bias-corrected cardinality estimate. Register updates, merges, the cached
//! estimate and the estimator's choice of range correction are proved against
//! mathematical models.
mod estimate;
mod registers;
mod sketch;

pub use estimate::{
    alpha_denominator, alpha_numerator, estimate, estimate_of, harmonic_sum,
    lemma_empty_registers_estimate_zero, raw_denominator, raw_numerator, zero_count, Estimate,
    TWO_POW_64,
};
pub use registers::{
    bit_length, bucket_of, elementwise_max, insert_hash_into, lemma_insert_idempotent,
    lemma_merge_associative, lemma_merge_commutative, lemma_merge_idempotent, lemma_merge_is_union,
    lemma_split_in_range, merge_into, rank_of, rank_width, register_count, registers_in_range,
    registers_of, split_hash, valid_precision, valid_registers, with_hash, MAX_PRECISION,
    MIN_PRECISION,
};
pub use sketch::{HyperLogLog, SketchError, DEFAULT_PRECISION};
