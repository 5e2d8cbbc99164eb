//! Per-entity emissions assessment: the rate-proportion step and the
//! time-gated cumulative-emissions accumulator, with the keyed stores of
//! assessment state (canister groupings, burn rates, emission figures,
//! metadata, emission windows).
//!
//! Identifiers of remote parties are carried as their textual form. Emission
//! figures are integer counts of the engine's emission unit.

use vstd::prelude::*;
use crate::store::KeyedStore;
use crate::sums::{sum_of, sum_u64};
use crate::text::{contains_substring, spec_contains_seq};
use vstd::string::StringExecFns;

verus! {

/// Nanoseconds in one hour.
pub const NANOS_PER_HOUR: u64 = 3_600_000_000_000;

/// The canisters of one monitored deployment, by role.
#[derive(Debug)]
pub struct SnsCanisters {
    pub root: Option<String>,
    pub swap: Option<String>,
    pub ledger: Option<String>,
    pub index: Option<String>,
    pub governance: Option<String>,
    pub dapps: Vec<String>,
    pub archives: Vec<String>,
}

/// Descriptive metadata of one monitored deployment.
#[derive(Debug)]
pub struct SnsMetadata {
    pub url: Option<String>,
    pub logo: Option<String>,
    pub name: Option<String>,
    pub description: Option<String>,
}

/// The time-gated emission window of one entity: when its daily emission was
/// last folded in, and the cumulative value so far.
#[derive(Clone, Copy, Debug, PartialEq, Eq, Structural)]
pub struct SnsEmissionData {
    pub last_calculation_time: u64,
    pub cumulative_emissions: u64,
}

/// All assessment state, keyed by entity identifier.
#[derive(Debug)]
pub struct SnsData {
    pub root_canisters: Vec<String>,
    pub canisters: KeyedStore<SnsCanisters>,
    pub cycle_burn_rate: KeyedStore<u64>,
    pub sns_emissions: KeyedStore<u64>,
    pub metadata: KeyedStore<SnsMetadata>,
    pub emissions_data: KeyedStore<SnsEmissionData>,
}

/// The rate-proportion step: an entity's share of the network's emission
/// rate, in proportion of its burn rate to the network's. A zero network
/// burn rate yields zero by definition, not an error.
pub open spec fn spec_emission_rate(
    network_burn_rate: u64,
    network_emission_rate: u64,
    sns_burn_rate: u64,
) -> int {
    if network_burn_rate == 0 {
        0
    } else {
        (sns_burn_rate * network_emission_rate) / (network_burn_rate as int)
    }
}

/// Law of the rate-proportion step: a zero network burn rate yields zero,
/// whatever the other rates.
pub proof fn lemma_zero_network_burn(network_emission_rate: u64, sns_burn_rate: u64)
    ensures
        spec_emission_rate(0, network_emission_rate, sns_burn_rate) == 0,
{
}

/// Compute the rate-proportion step.
pub fn calculate_canister_emission_rate(
    network_burn_rate: u64,
    network_emission_rate: u64,
    sns_burn_rate: u64,
) -> (r: u64)
    requires
        spec_emission_rate(network_burn_rate, network_emission_rate, sns_burn_rate) <= u64::MAX,
    ensures
        r == spec_emission_rate(network_burn_rate, network_emission_rate, sns_burn_rate),
{
    if network_burn_rate == 0 {
        return 0;
    }
    proof {
        assert((sns_burn_rate as int) * (network_emission_rate as int) <= (u64::MAX as int) * (
        u64::MAX as int)) by (nonlinear_arith)
            requires sns_burn_rate <= u64::MAX && network_emission_rate <= u64::MAX;
    }
    let wide = (sns_burn_rate as u128) * (network_emission_rate as u128);
    (wide / (network_burn_rate as u128)) as u64
}

/// The emission window of an entity: a window with zeroed fields until the
/// first gated call records one.
pub open spec fn spec_window(d: SnsData, root: Seq<char>) -> SnsEmissionData {
    match d.emissions_data.spec_value(root) {
        Some(w) => w,
        None => SnsEmissionData { last_calculation_time: 0, cumulative_emissions: 0 },
    }
}

/// Whole hours elapsed since the window was last recomputed.
pub open spec fn spec_hours_passed(w: SnsEmissionData, now: u64) -> int {
    (now - w.last_calculation_time) / (NANOS_PER_HOUR as int)
}

/// One accumulator step on a window: once 24 hours have elapsed, fold the
/// daily emission into the cumulative value and restamp the window; earlier,
/// leave the window alone and report the cached value.
pub open spec fn spec_accumulate(
    w: SnsEmissionData,
    network_burn_rate: u64,
    network_emission_rate: u64,
    sns_burn_rate: u64,
    now: u64,
) -> (SnsEmissionData, int) {
    if spec_hours_passed(w, now) >= 24 {
        let total = w.cumulative_emissions + spec_emission_rate(
            network_burn_rate,
            network_emission_rate,
            sns_burn_rate,
        );
        (SnsEmissionData { last_calculation_time: now, cumulative_emissions: total as u64 }, total)
    } else {
        (w, w.cumulative_emissions as int)
    }
}

/// Law of the time gate: after one gated recomputation at `t1`, a second
/// call within 24 hours returns the identical cumulative value and changes
/// nothing, and a call at least 24 hours later produces the old value plus
/// one daily emission.
pub proof fn lemma_time_gate(
    w: SnsEmissionData,
    network_burn_rate: u64,
    network_emission_rate: u64,
    sns_burn_rate: u64,
    t1: u64,
    t2: u64,
    t3: u64,
)
    requires
        t1 >= w.last_calculation_time,
        spec_hours_passed(w, t1) >= 24,
        w.cumulative_emissions + spec_emission_rate(
            network_burn_rate,
            network_emission_rate,
            sns_burn_rate,
        ) <= u64::MAX,
        t2 >= t1,
        (t2 - t1) / (NANOS_PER_HOUR as int) < 24,
        t3 >= t1,
        (t3 - t1) / (NANOS_PER_HOUR as int) >= 24,
    ensures
        ({
            let (w1, r1) = spec_accumulate(
                w,
                network_burn_rate,
                network_emission_rate,
                sns_burn_rate,
                t1,
            );
            spec_accumulate(w1, network_burn_rate, network_emission_rate, sns_burn_rate, t2) == (
                w1,
                r1,
            ) && spec_accumulate(
                w1,
                network_burn_rate,
                network_emission_rate,
                sns_burn_rate,
                t3,
            ).1 == r1 + spec_emission_rate(network_burn_rate, network_emission_rate, sns_burn_rate)
        }),
{
}

impl SnsData {
    pub open spec fn wf(self) -> bool {
        self.canisters.wf() && self.cycle_burn_rate.wf() && self.sns_emissions.wf()
            && self.metadata.wf() && self.emissions_data.wf()
    }

    /// A fresh assessment store: no entities tracked.
    pub fn new() -> (r: SnsData)
        ensures
            r.wf(),
            r.root_canisters@.len() == 0,
            r.emissions_data.entries@.len() == 0,
            forall|k: Seq<char>| #[trigger] spec_window(r, k) == (SnsEmissionData {
                last_calculation_time: 0,
                cumulative_emissions: 0,
            }),
    {
        let d = SnsData {
            root_canisters: Vec::new(),
            canisters: KeyedStore::new(),
            cycle_burn_rate: KeyedStore::new(),
            sns_emissions: KeyedStore::new(),
            metadata: KeyedStore::new(),
            emissions_data: KeyedStore::new(),
        };
        proof {
            assert forall|k: Seq<char>| #[trigger] spec_window(d, k) == (SnsEmissionData {
                last_calculation_time: 0,
                cumulative_emissions: 0,
            }) by {
                assert(!crate::store::has_key(d.emissions_data.entries@, k));
            }
        }
        d
    }

    /// Replace the remembered list of root canisters.
    pub fn set_root_canisters(&mut self, roots: Vec<String>)
        requires
            old(self).wf(),
        ensures
            final(self).wf(),
            final(self).root_canisters == roots,
            final(self).canisters == old(self).canisters,
            final(self).cycle_burn_rate == old(self).cycle_burn_rate,
            final(self).sns_emissions == old(self).sns_emissions,
            final(self).metadata == old(self).metadata,
            final(self).emissions_data == old(self).emissions_data,
    {
        self.root_canisters = roots;
    }

    /// Remember the canister grouping fetched for a root canister.
    pub fn insert_canisters(&mut self, root_id: String, canisters: SnsCanisters)
        requires
            old(self).wf(),
        ensures
            final(self).wf(),
            final(self).canisters.spec_value(root_id@) == Some(canisters),
            forall|k2: Seq<char>| k2 != root_id@
                ==> #[trigger] final(self).canisters.spec_value(k2) == old(
                self,
            ).canisters.spec_value(k2),
    {
        self.canisters.insert(root_id, canisters);
    }

    /// Remember the metadata fetched for a root canister.
    pub fn insert_metadata(&mut self, root_id: String, meta: SnsMetadata)
        requires
            old(self).wf(),
        ensures
            final(self).wf(),
            final(self).metadata.spec_value(root_id@) == Some(meta),
            forall|k2: Seq<char>| k2 != root_id@
                ==> #[trigger] final(self).metadata.spec_value(k2) == old(self).metadata.spec_value(
                k2,
            ),
    {
        self.metadata.insert(root_id, meta);
    }

    /// Sum a fetched burn-rate figure from its unsigned digits and remember
    /// it for the canister. The digits must sum within the machine word.
    pub fn record_burn_rate(&mut self, canister_id: String, digits: &Vec<u64>) -> (r: u64)
        requires
            old(self).wf(),
            sum_of(digits@) <= u64::MAX,
        ensures
            final(self).wf(),
            r == sum_of(digits@),
            final(self).cycle_burn_rate.spec_value(canister_id@) == Some(r),
            forall|k2: Seq<char>| k2 != canister_id@
                ==> #[trigger] final(self).cycle_burn_rate.spec_value(k2) == old(
                self,
            ).cycle_burn_rate.spec_value(k2),
    {
        let rate = sum_u64(digits);
        self.cycle_burn_rate.insert(canister_id, rate);
        rate
    }

    /// The remembered burn rate of a canister, if any.
    pub fn get_cycle_burn_rate(&self, canister_id: &String) -> (r: Option<u64>)
        requires
            self.wf(),
        ensures
            r == self.cycle_burn_rate.spec_value(canister_id@),
    {
        match self.cycle_burn_rate.get(canister_id) {
            Some(v) => Some(*v),
            None => None,
        }
    }

    /// The remembered list of root canisters.
    pub fn get_root_canisters(&self) -> (r: &Vec<String>)
        ensures
            r == self.root_canisters,
    {
        &self.root_canisters
    }

    /// The remembered canister grouping of a root canister, if any.
    pub fn get_sns_canisters(&self, root_id: &String) -> (r: Option<&SnsCanisters>)
        requires
            self.wf(),
        ensures
            match r {
                Some(c) => self.canisters.spec_value(root_id@) == Some(*c),
                None => self.canisters.spec_value(root_id@) is None,
            },
    {
        self.canisters.get(root_id)
    }

    /// The remembered emission figure of an entity, if any.
    pub fn get_sns_emissions(&self, root_id: &String) -> (r: Option<u64>)
        requires
            self.wf(),
        ensures
            r == self.sns_emissions.spec_value(root_id@),
    {
        match self.sns_emissions.get(root_id) {
            Some(v) => Some(*v),
            None => None,
        }
    }

    /// The remembered metadata of a root canister, if any.
    pub fn get_metadata(&self, root_id: &String) -> (r: Option<&SnsMetadata>)
        requires
            self.wf(),
        ensures
            match r {
                Some(m) => self.metadata.spec_value(root_id@) == Some(*m),
                None => self.metadata.spec_value(root_id@) is None,
            },
    {
        self.metadata.get(root_id)
    }

    /// The current emission window of an entity (zeroed until first use).
    pub fn get_emission_window(&self, root_id: &String) -> (r: SnsEmissionData)
        requires
            self.wf(),
        ensures
            r == spec_window(*self, root_id@),
    {
        match self.emissions_data.get(root_id) {
            Some(w) => *w,
            None => SnsEmissionData { last_calculation_time: 0, cumulative_emissions: 0 },
        }
    }

    /// Fold one daily emission into an entity's cumulative total, behind the
    /// 24-hour gate.
    ///
    /// Within 24 hours of the last recomputation the call is idempotent and
    /// side-effect free: it returns the cached cumulative value. Once a full
    /// day has elapsed it adds the rate-proportion daily emission, restamps
    /// the window with `now`, and returns the new total. A first call for an
    /// unseen entity sees a zeroed window, so it always recomputes.
    pub fn get_cumulative_sns_emissions(
        &mut self,
        root_id: &String,
        network_burn_rate: u64,
        network_emission_rate: u64,
        sns_burn_rate: u64,
        now: u64,
    ) -> (r: u64)
        requires
            old(self).wf(),
            now >= spec_window(*old(self), root_id@).last_calculation_time,
            spec_hours_passed(spec_window(*old(self), root_id@), now) >= 24 ==> spec_window(
                *old(self),
                root_id@,
            ).cumulative_emissions + spec_emission_rate(
                network_burn_rate,
                network_emission_rate,
                sns_burn_rate,
            ) <= u64::MAX,
        ensures
            final(self).wf(),
            ({
                let (w1, r1) = spec_accumulate(
                    spec_window(*old(self), root_id@),
                    network_burn_rate,
                    network_emission_rate,
                    sns_burn_rate,
                    now,
                );
                r == r1 && spec_window(*final(self), root_id@) == w1
            }),
            spec_hours_passed(spec_window(*old(self), root_id@), now) < 24 ==> *final(self) == *old(
                self,
            ),
            forall|k2: Seq<char>| k2 != root_id@
                ==> #[trigger] final(self).emissions_data.spec_value(k2) == old(
                self,
            ).emissions_data.spec_value(k2),
            final(self).root_canisters == old(self).root_canisters,
            final(self).canisters == old(self).canisters,
            final(self).cycle_burn_rate == old(self).cycle_burn_rate,
            final(self).sns_emissions == old(self).sns_emissions,
            final(self).metadata == old(self).metadata,
    {
        let w = self.get_emission_window(root_id);
        let hours_passed = (now - w.last_calculation_time) / NANOS_PER_HOUR;
        if hours_passed >= 24 {
            let daily = calculate_canister_emission_rate(
                network_burn_rate,
                network_emission_rate,
                sns_burn_rate,
            );
            let new_cumulative = w.cumulative_emissions + daily;
            self.emissions_data.insert(
                root_id.clone(),
                SnsEmissionData { last_calculation_time: now, cumulative_emissions: new_cumulative },
            );
            new_cumulative
        } else {
            w.cumulative_emissions
        }
    }
}

/// The canisters whose burn figures make up a deployment's total burn rate:
/// the role canisters that are present, then the application canisters.
pub open spec fn spec_candidate_ids(c: SnsCanisters) -> Seq<String> {
    opt_seq(c.root) + opt_seq(c.swap) + opt_seq(c.ledger) + opt_seq(c.index) + opt_seq(c.governance)
        + c.dapps@
}

pub open spec fn opt_seq(o: Option<String>) -> Seq<String> {
    match o {
        Some(x) => seq![x],
        None => Seq::empty(),
    }
}

/// List the canisters whose burn figures to fetch for a deployment.
pub fn canister_ids_of(c: &SnsCanisters) -> (r: Vec<String>)
    ensures
        r@ == spec_candidate_ids(*c),
{
    let mut out: Vec<String> = Vec::new();
    push_opt(&mut out, &c.root);
    push_opt(&mut out, &c.swap);
    push_opt(&mut out, &c.ledger);
    push_opt(&mut out, &c.index);
    push_opt(&mut out, &c.governance);
    let ghost before_dapps = out@;
    let mut i: usize = 0;
    while i < c.dapps.len()
        invariant
            i <= c.dapps@.len(),
            out@ == before_dapps + c.dapps@.subrange(0, i as int),
        decreases c.dapps@.len() - i,
    {
        out.push(c.dapps[i].clone());
        proof {
            assert(before_dapps + c.dapps@.subrange(0, i + 1) =~= (before_dapps
                + c.dapps@.subrange(0, i as int)).push(c.dapps@[i as int]));
        }
        i = i + 1;
    }
    proof {
        assert(c.dapps@.subrange(0, c.dapps@.len() as int) =~= c.dapps@);
        assert(before_dapps + c.dapps@ =~= spec_candidate_ids(*c));
    }
    out
}

fn push_opt(out: &mut Vec<String>, o: &Option<String>)
    ensures
        final(out)@ == old(out)@ + opt_seq(*o),
{
    match o {
        Some(x) => {
            out.push(x.clone());
            proof {
                assert(old(out)@.push(*x) =~= old(out)@ + opt_seq(*o));
            }
        }
        None => {
            proof {
                assert(out@ + opt_seq(*o) =~= out@);
            }
        }
    }
}

/// Rewrite a status-fetch error: an invalid-response failure from the
/// status provider is reported in the engine's own words; any other message
/// passes through unchanged.
pub fn rewrite_status_error(message: &String, marker: &String, replacement: &String) -> (r: String)
    ensures
        spec_contains_seq(message@, marker@) ==> r@ == replacement@,
        !spec_contains_seq(message@, marker@) ==> r@ == message@,
{
    if contains_substring(message, marker) {
        String::from_str(replacement.as_str())
    } else {
        String::from_str(message.as_str())
    }
}

} // verus!
