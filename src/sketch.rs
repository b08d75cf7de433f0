//! The sketch: a register array, the hash provider that feeds it, and the
//! cached estimate that each mutation marks stale.
use std::hash::{DefaultHasher, Hash, Hasher};
use vstd::prelude::*;

use crate::estimate::{estimate, estimate_of, Estimate};
use crate::registers::{
    elementwise_max, insert_hash_into, merge_into, register_count, valid_precision,
    valid_registers, with_hash, MAX_PRECISION, MIN_PRECISION,
};

verus! {

/// Precision of a sketch made by `new`: 256 registers.
pub const DEFAULT_PRECISION: u8 = 8;

/// Why a sketch could not be built or merged.
#[derive(Clone, Copy, Debug, PartialEq, Eq, Structural)]
pub enum SketchError {
    /// The precision lies outside `4..=18`.
    InvalidPrecision,
    /// The two sketches of a merge have different precisions.
    PrecisionMismatch,
}

/// The cached estimate: fresh with the last computed value, or stale.
#[derive(Clone, Copy, Debug)]
enum Cardinality {
    Evaluated(Estimate),
    Expired,
}

/// A distinct-count sketch of precision `p` with `2^p` registers, fed by the
/// hasher `H`. Each element is hashed on a copy of the hasher as it was
/// given, so an element's hash never depends on the elements before it.
#[derive(Clone, Debug)]
pub struct HyperLogLog<H: Hasher> {
    hasher: H,
    precision: u8,
    registers: Vec<u8>,
    cardinality: Cardinality,
}

/// Relies on `Hash::hash`: feeds `elem` into the hasher state `state`.
#[verifier::external_body]
fn hash_element<V: Hash, H: Hasher>(elem: &V, state: &mut H) {
    elem.hash(state)
}

/// Relies on `Hasher::finish`: the 64-bit hash of what `state` was fed.
#[verifier::external_body]
fn finish_hash<H: Hasher>(state: &H) -> u64 {
    state.finish()
}

impl<H: Hasher + Clone> HyperLogLog<H> {
    /// The precision `p`.
    pub closed spec fn spec_precision(&self) -> nat {
        self.precision as nat
    }

    /// The registers, bucket by bucket.
    pub closed spec fn spec_registers(&self) -> Seq<u8> {
        self.registers@
    }

    /// Whether the cached estimate is fresh.
    pub closed spec fn is_fresh(&self) -> bool {
        self.cardinality is Evaluated
    }

    /// The registers are valid for the precision, and a fresh cached
    /// estimate is the estimate of the registers.
    pub closed spec fn wf(&self) -> bool {
        &&& valid_registers(self.registers@, self.precision as nat)
        &&& (self.cardinality matches Cardinality::Evaluated(e) ==> e == estimate_of(self.registers@))
    }

    /// Builds an empty sketch of precision `precision` fed by `hasher`.
    pub fn new_with_hasher(precision: u8, hasher: H) -> (r: Result<Self, SketchError>)
        ensures
            r is Err <==> !valid_precision(precision as nat),
            r is Err ==> r == Err::<Self, SketchError>(SketchError::InvalidPrecision),
            r matches Ok(s) ==> {
                &&& s.wf()
                &&& s.spec_precision() == precision
                &&& s.spec_registers() == Seq::new(register_count(precision as nat), |i: int| 0u8)
                &&& !s.is_fresh()
                &&& valid_registers(s.spec_registers(), s.spec_precision())
            },
    {
        if precision < MIN_PRECISION || precision > MAX_PRECISION {
            return Err(SketchError::InvalidPrecision);
        }
        Ok(Self::empty(precision, hasher))
    }

    /// An empty sketch of a valid precision.
    fn empty(precision: u8, hasher: H) -> (s: Self)
        requires
            valid_precision(precision as nat),
        ensures
            s.wf(),
            s.spec_precision() == precision,
            s.spec_registers() == Seq::new(register_count(precision as nat), |i: int| 0u8),
            !s.is_fresh(),
    {
        proof {
            crate::registers::lemma_split_in_range(0, precision as nat);
        }
        let m: usize = 1usize << precision;
        proof {
            vstd::bits::lemma_usize_shl_is_mul(1, precision as usize);
        }
        let mut registers: Vec<u8> = Vec::new();
        let mut i: usize = 0;
        while i < m
            invariant
                i <= m,
                m == register_count(precision as nat),
                registers@ == Seq::new(i as nat, |j: int| 0u8),
            decreases m - i,
        {
            registers.push(0);
            i = i + 1;
            assert(registers@ =~= Seq::new(i as nat, |j: int| 0u8));
        }
        HyperLogLog { hasher, precision, registers, cardinality: Cardinality::Expired }
    }

    /// The precision `p`.
    pub fn precision(&self) -> (r: u8)
        ensures
            r == self.spec_precision(),
    {
        self.precision
    }

    /// The registers, bucket by bucket.
    pub fn registers(&self) -> (r: &[u8])
        ensures
            r@ == self.spec_registers(),
    {
        self.registers.as_slice()
    }

    /// Adds a 64-bit hash: its bucket's register is raised to its rank.
    pub fn insert_hash(&mut self, hash: u64)
        requires
            old(self).wf(),
        ensures
            final(self).wf(),
            final(self).spec_precision() == old(self).spec_precision(),
            final(self).spec_registers() == with_hash(
                old(self).spec_registers(),
                old(self).spec_precision(),
                hash,
            ),
            !final(self).is_fresh(),
    {
        insert_hash_into(&mut self.registers, self.precision, hash);
        self.cardinality = Cardinality::Expired;
    }

    /// Adds an element: hashes it afresh with the sketch's hasher and adds
    /// the hash.
    pub fn insert<V: Hash>(&mut self, elem: V)
        requires
            old(self).wf(),
        ensures
            final(self).wf(),
            final(self).spec_precision() == old(self).spec_precision(),
            exists|hash: u64|
                final(self).spec_registers() == with_hash(
                    old(self).spec_registers(),
                    old(self).spec_precision(),
                    hash,
                ),
            !final(self).is_fresh(),
    {
        let mut state = self.hasher.clone();
        hash_element(&elem, &mut state);
        let hash = finish_hash(&state);
        self.insert_hash(hash);
    }

    /// Merges `other` into this sketch: each register becomes the larger of
    /// the two. Sketches of different precisions are not merged.
    pub fn merge(&mut self, other: &Self) -> (r: Result<(), SketchError>)
        requires
            old(self).wf(),
            other.wf(),
        ensures
            final(self).wf(),
            r is Err <==> old(self).spec_precision() != other.spec_precision(),
            r is Err ==> r == Err::<(), SketchError>(SketchError::PrecisionMismatch) && *final(self)
                == *old(self),
            r is Ok ==> {
                &&& final(self).spec_precision() == old(self).spec_precision()
                &&& final(self).spec_registers() == elementwise_max(
                    old(self).spec_registers(),
                    other.spec_registers(),
                )
                &&& !final(self).is_fresh()
            },
    {
        if self.precision != other.precision {
            return Err(SketchError::PrecisionMismatch);
        }
        merge_into(&mut self.registers, &other.registers);
        assert forall|i: int| 0 <= i < self.registers@.len() implies #[trigger] self.registers@[i]
            <= 64 - self.precision + 1 by {
            assert(old(self).registers@[i] <= 64 - self.precision + 1);
            assert(other.registers@[i] <= 64 - self.precision + 1);
        }
        self.cardinality = Cardinality::Expired;
        Ok(())
    }

    /// The estimate of the registers: the cached one when fresh, else
    /// computed and cached.
    pub fn evaluate(&mut self) -> (r: Estimate)
        requires
            old(self).wf(),
        ensures
            final(self).wf(),
            r == estimate_of(old(self).spec_registers()),
            final(self).spec_precision() == old(self).spec_precision(),
            final(self).spec_registers() == old(self).spec_registers(),
            final(self).is_fresh(),
    {
        match self.cardinality {
            Cardinality::Evaluated(e) => e,
            Cardinality::Expired => {
                let e = estimate(&self.registers, self.precision);
                self.cardinality = Cardinality::Evaluated(e);
                e
            },
        }
    }
}

impl HyperLogLog<DefaultHasher> {
    /// An empty sketch of the default precision fed by `DefaultHasher`.
    pub fn new() -> (r: Self)
        ensures
            r.wf(),
            r.spec_precision() == DEFAULT_PRECISION,
            r.spec_registers() == Seq::new(register_count(DEFAULT_PRECISION as nat), |i: int| 0u8),
            !r.is_fresh(),
    {
        Self::empty(DEFAULT_PRECISION, DefaultHasher::new())
    }
}

impl Default for HyperLogLog<DefaultHasher> {
    /// The sketch that `new` makes.
    fn default() -> (r: Self)
        ensures
            r.wf(),
            r.spec_precision() == DEFAULT_PRECISION,
            r.spec_registers() == Seq::new(register_count(DEFAULT_PRECISION as nat), |i: int| 0u8),
            !r.is_fresh(),
    {
        Self::new()
    }
}

} // verus!
