//! The attacks: each rewrites the action stream, injecting synthetic
//! impressions and conversions around the actions of the sites it targets.

pub mod scaffold;
pub mod attack_b;
pub mod attack_c;
pub mod attack_trait;
pub mod laws;
