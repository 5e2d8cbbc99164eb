//! Emissions accounting and offset allocation engine.
//!
//! The engine tracks resource consumption ("cycle burn") for monitored
//! compute units, converts consumption deltas into estimated energy use and
//! carbon mass, accumulates per-entity emissions behind a 24-hour time gate,
//! and distributes carbon-offset budgets across a set of nodes.
//!
//! Quantities that the surrounding system measures as fractional amounts
//! (kilograms of carbon, emission units) are carried here as exact values:
//! either as integer counts of a fixed base unit, chosen by the caller, or as
//! exact ratios of integers. All arithmetic on them is verified.

pub mod allocator;
pub mod auth;
pub mod assessment;
pub mod burn_rate;
pub mod cawa;
pub mod converter;
pub mod decimal;
pub mod escrow;
pub mod listing;
pub mod node;
pub mod payments;
pub mod ratio;
pub mod registry;
pub mod render;
pub mod store;
pub mod sums;
pub mod text;
