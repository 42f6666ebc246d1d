//! The instance parameters the address-rotation scenario reads.
use crate::utils::{get_param, param_error, param_u64};
use vstd::prelude::*;

verus! {

/// The four durations the scenario is driven by, in seconds.
pub struct Params {
    pub vote_duration: u64,
    pub ping_interval: u64,
    pub duration_before: u64,
    pub duration_after: u64,
}

impl Params {
    /// Reads every parameter; fails with a message naming the first missing
    /// or unparsable one.
    pub fn new(instance_params: &Vec<(String, String)>) -> (r: Result<Params, String>)
        ensures
            r is Ok <==> {
                &&& param_u64(instance_params@, "vote_duration"@) is Some
                &&& param_u64(instance_params@, "ping_interval"@) is Some
                &&& param_u64(instance_params@, "duration_before"@) is Some
                &&& param_u64(instance_params@, "duration_after"@) is Some
            },
            r matches Ok(p) ==> {
                &&& p.vote_duration == param_u64(instance_params@, "vote_duration"@).unwrap()
                &&& p.ping_interval == param_u64(instance_params@, "ping_interval"@).unwrap()
                &&& p.duration_before == param_u64(instance_params@, "duration_before"@).unwrap()
                &&& p.duration_after == param_u64(instance_params@, "duration_after"@).unwrap()
            },
            r matches Err(m) ==> m@ == {
                let ps = instance_params@;
                if param_u64(ps, "vote_duration"@) is None {
                    param_error(ps, "vote_duration"@)
                } else if param_u64(ps, "ping_interval"@) is None {
                    param_error(ps, "ping_interval"@)
                } else if param_u64(ps, "duration_before"@) is None {
                    param_error(ps, "duration_before"@)
                } else {
                    param_error(ps, "duration_after"@)
                }
            },
    {
        let vote_duration = match get_param(&("vote_duration".to_owned()), instance_params) {
            Ok(v) => v,
            Err(e) => {
                return Err(e);
            },
        };
        let ping_interval = match get_param(&("ping_interval".to_owned()), instance_params) {
            Ok(v) => v,
            Err(e) => {
                return Err(e);
            },
        };
        let duration_before = match get_param(&("duration_before".to_owned()), instance_params) {
            Ok(v) => v,
            Err(e) => {
                return Err(e);
            },
        };
        let duration_after = match get_param(&("duration_after".to_owned()), instance_params) {
            Ok(v) => v,
            Err(e) => {
                return Err(e);
            },
        };
        Ok(Params { vote_duration, ping_interval, duration_before, duration_after })
    }
}

} // verus!
