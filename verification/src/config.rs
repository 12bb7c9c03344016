//! Persisted daemon preferences.
//!
//! The daemon remembers a default master volume and a default capture
//! device between runs.  The store itself is a file the shell reads
//! and writes; the library holds the values and the rule for applying
//! them to a fresh engine.

use vstd::prelude::*;
use vstd::string::StringExecFns;
use crate::engine::{clamp_volume, Engine, MAX_VOLUME};

verus! {

/// Daemon preferences: a default capture device by node name, and a
/// default master gain in 1/1000 units.
pub struct DaemonConfig {
    pub default_input_name: Option<String>,
    pub default_volume: Option<u32>,
}

impl Default for DaemonConfig {
    /// No default device, no stored volume.
    fn default() -> (r: DaemonConfig)
        ensures
            r.default_input_name is None,
            r.default_volume is None,
    {
        DaemonConfig { default_input_name: None, default_volume: None }
    }
}

/// Apply stored preferences to a fresh engine: the stored volume,
/// clamped onto the scale, or full gain without one; and the stored
/// device as the selected input.  Tracks and issued ids are untouched.
pub fn apply_config(eng: &mut Engine, cfg: &DaemonConfig)
    requires
        old(eng).wf(),
    ensures
        final(eng).wf(),
        final(eng).tracks@ == old(eng).tracks@,
        final(eng).next_id == old(eng).next_id,
        final(eng).master_volume == (match cfg.default_volume {
            Option::Some(v) => clamp_volume(v),
            Option::None => MAX_VOLUME,
        }),
        (final(eng).current_input_name is Some) == (cfg.default_input_name is Some),
        final(eng).current_input_name matches Some(n) ==> n@ == (cfg.default_input_name->0)@,
{
    eng.master_volume = match cfg.default_volume {
        Some(v) => if v > MAX_VOLUME {
            MAX_VOLUME
        } else {
            v
        },
        None => MAX_VOLUME,
    };
    eng.current_input_name = match &cfg.default_input_name {
        Some(n) => Some(n.clone()),
        None => None,
    };
}

} // verus!
