//! Conversion of consumption deltas into energy use and carbon mass.
//!
//! The conversion constants are configuration values with documented units:
//! each consumption unit costs half a kilojoule of energy, a kilowatt-hour is
//! 3,600,000 kilojoules, and each kilowatt-hour emits half a kilogram of
//! carbon. The results are exact ratios, so no precision is lost.

use vstd::prelude::*;
use crate::ratio::Ratio;

verus! {

/// Energy per consumption unit: `1 / 2` kilojoules per cycle.
pub const ENERGY_KJ_PER_CYCLE_NUM: u128 = 1;
pub const ENERGY_KJ_PER_CYCLE_DEN: u128 = 2;

/// Kilojoules per kilowatt-hour.
pub const KJ_PER_KWH: u128 = 3_600_000;

/// Carbon intensity: `1 / 2` kilograms of carbon per kilowatt-hour.
pub const CARBON_KG_PER_KWH_NUM: u128 = 1;
pub const CARBON_KG_PER_KWH_DEN: u128 = 2;

/// Energy and carbon mass attributed to one consumption delta.
#[derive(Clone, Copy, Debug)]
pub struct EmissionSample {
    pub energy_used_kj: Ratio,
    pub carbon_kg: Ratio,
}

/// The exact sample that a delta of `delta_cycles` converts to:
/// `delta / 2` kilojoules and `delta / 14_400_000` kilograms of carbon
/// (`delta * (1/2) / 3_600_000 * (1/2)`).
pub open spec fn spec_carbon_emissions(delta_cycles: u64) -> EmissionSample {
    EmissionSample {
        energy_used_kj: Ratio { num: delta_cycles as u128, den: 2 },
        carbon_kg: Ratio { num: delta_cycles as u128, den: 14_400_000 },
    }
}

impl EmissionSample {
    pub open spec fn wf(self) -> bool {
        self.energy_used_kj.wf() && self.carbon_kg.wf()
    }
}

/// Convert a consumption delta into energy used and carbon emitted.
/// Pure; no failure modes.
pub fn carbon_emissions(delta_cycles: u64) -> (r: EmissionSample)
    ensures
        r == spec_carbon_emissions(delta_cycles),
        r.wf(),
{
    let energy_used_kj = Ratio::new(
        delta_cycles as u128 * ENERGY_KJ_PER_CYCLE_NUM,
        ENERGY_KJ_PER_CYCLE_DEN,
    );
    let carbon_kg = Ratio::new(
        delta_cycles as u128 * ENERGY_KJ_PER_CYCLE_NUM * CARBON_KG_PER_KWH_NUM,
        ENERGY_KJ_PER_CYCLE_DEN * KJ_PER_KWH * CARBON_KG_PER_KWH_DEN,
    );
    EmissionSample { energy_used_kj, carbon_kg }
}

/// A zero delta converts to zero energy and zero carbon.
pub proof fn lemma_carbon_emissions_zero()
    ensures
        spec_carbon_emissions(0).energy_used_kj.is_integer(0),
        spec_carbon_emissions(0).carbon_kg.is_integer(0),
{
}

/// The conversion is linear in the delta: the sample of a sum is, value for
/// value, the sum of the samples. Both components share a fixed denominator,
/// so the numerators add exactly.
pub proof fn lemma_carbon_emissions_linear(d1: u64, d2: u64)
    requires
        d1 + d2 <= u64::MAX,
    ensures
        spec_carbon_emissions((d1 + d2) as u64).energy_used_kj.parts().0
            == spec_carbon_emissions(d1).energy_used_kj.parts().0
                + spec_carbon_emissions(d2).energy_used_kj.parts().0,
        spec_carbon_emissions((d1 + d2) as u64).energy_used_kj.parts().1
            == spec_carbon_emissions(d1).energy_used_kj.parts().1,
        spec_carbon_emissions((d1 + d2) as u64).carbon_kg.parts().0
            == spec_carbon_emissions(d1).carbon_kg.parts().0
                + spec_carbon_emissions(d2).carbon_kg.parts().0,
        spec_carbon_emissions((d1 + d2) as u64).carbon_kg.parts().1
            == spec_carbon_emissions(d1).carbon_kg.parts().1,
{
}

} // verus!
