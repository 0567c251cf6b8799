//! A configured range sampler: a scalar drawn from `[min, max]` under a
//! uniform or approximately-normal distribution.
//!
//! The verified part is the linear mapping of a unit sample (thousandth
//! fractions of one) into the configured range, which gives every sample a
//! hard range guarantee whatever the unit draw was. The uniform unit draw
//! comes from the process generator; an approximately-normal unit sample
//! (a clamped Box-Muller transform) needs transcendental arithmetic the
//! library does not perform, so callers hand it in through
//! `sample_from_unit`.

use vstd::arithmetic::div_mod::{
    lemma_div_is_ordered, lemma_div_multiples_vanish, lemma_div_pos_is_pos,
};
use vstd::arithmetic::mul::lemma_mul_inequality;
use vstd::prelude::*;

use crate::errors::ConfigError;
use crate::rng::random_below;
use crate::skill::SKILL_LIMIT;

verus! {

/// Unit samples are thousandth-of-thousandth fractions: `UNIT` is one.
pub const UNIT: u64 = 1_000_000;

#[derive(Debug, Clone, Copy, PartialEq, Eq, Structural)]
pub enum DistributionType {
    Uniform,
    Normal,
}

/// An immutable sampling configuration: bounds and distribution kind.
#[derive(Debug)]
pub struct RandomRangeGen {
    min: i64,
    max: i64,
    distribution: DistributionType,
}

impl RandomRangeGen {
    pub closed spec fn spec_min(&self) -> i64 {
        self.min
    }

    pub closed spec fn spec_max(&self) -> i64 {
        self.max
    }

    pub closed spec fn spec_distribution(&self) -> DistributionType {
        self.distribution
    }

    pub open spec fn wf(&self) -> bool {
        -SKILL_LIMIT <= self.spec_min() <= self.spec_max() <= SKILL_LIMIT
    }

    /// The value a unit sample `u` maps to.
    pub open spec fn sample_spec(&self, u: int) -> int {
        self.spec_min() + ((self.spec_max() - self.spec_min()) * u) / (UNIT as int)
    }

    /// Builds a sampler, rejecting an empty or oversized range.
    pub fn new(min: i64, max: i64, distribution: DistributionType) -> (r: Result<
        RandomRangeGen,
        ConfigError,
    >)
        ensures
            (r is Ok) <==> (-SKILL_LIMIT <= min && min <= max && max <= SKILL_LIMIT),
            min > max ==> r == Err::<RandomRangeGen, ConfigError>(ConfigError::EmptyRange),
            min <= max && !(-SKILL_LIMIT <= min && max <= SKILL_LIMIT) ==> r == Err::<
                RandomRangeGen,
                ConfigError,
            >(ConfigError::RangeOutOfBounds),
            (r matches Ok(g) ==> {
                &&& g.wf()
                &&& g.spec_min() == min
                &&& g.spec_max() == max
                &&& g.spec_distribution() == distribution
            }),
    {
        if min > max {
            Result::Err(ConfigError::EmptyRange)
        } else if min < -SKILL_LIMIT || max > SKILL_LIMIT {
            Result::Err(ConfigError::RangeOutOfBounds)
        } else {
            Result::Ok(RandomRangeGen { min: min, max: max, distribution: distribution })
        }
    }

    pub fn kind(&self) -> (d: DistributionType)
        ensures
            d == self.spec_distribution(),
    {
        self.distribution
    }

    /// Maps a unit sample into the configured range; the result is inside
    /// `[min, max]` for every admissible unit value, whatever distribution
    /// produced it.
    pub fn sample_from_unit(&self, unit: u64) -> (r: i64)
        requires
            self.wf(),
            unit <= UNIT,
        ensures
            self.spec_min() <= r <= self.spec_max(),
            r == self.sample_spec(unit as int),
    {
        let span: i64 = self.max - self.min;
        proof {
            lemma_mul_inequality(unit as int, UNIT as int, span as int);
            assert(span * (UNIT as int) == (UNIT as int) * (span as int)) by (nonlinear_arith);
            lemma_div_multiples_vanish(span as int, UNIT as int);
            lemma_div_is_ordered(
                (span as int) * (unit as int),
                (span as int) * (UNIT as int),
                UNIT as int,
            );
            assert((span as int) * (unit as int) == (unit as int) * (span as int))
                by (nonlinear_arith);
            assert((span as int) * (unit as int) >= 0) by (nonlinear_arith)
                requires
                    span >= 0,
                    unit >= 0,
            ;
            lemma_div_pos_is_pos((span as int) * (unit as int), UNIT as int);
        }
        let offs: i64 = (((span as i128) * (unit as i128)) / (UNIT as i128)) as i64;
        self.min + offs
    }

    /// Draws one value. The uniform kind draws its unit sample from the
    /// process generator here; for the approximately-normal kind the unit
    /// sample must come through `sample_from_unit`.
    pub fn generate(&self) -> (r: i64)
        requires
            self.wf(),
            self.spec_distribution() == DistributionType::Uniform,
        ensures
            self.spec_min() <= r <= self.spec_max(),
            exists|u: int| 0 <= u < UNIT && r == #[trigger] self.sample_spec(u),
    {
        let u = random_below(1_000_000) as u64;
        let r = self.sample_from_unit(u);
        proof {
            assert(r == self.sample_spec(u as int));
        }
        r
    }
}

} // verus!
