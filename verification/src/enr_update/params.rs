//! The instance parameters the record-update scenario reads.
use crate::utils::{get_param, param_error, param_u64};
use vstd::prelude::*;

verus! {

/// The one duration the scenario is driven by, in seconds.
pub struct Params {
    pub ping_interval: u64,
}

impl Params {
    /// Reads every parameter; fails with a message naming the first missing
    /// or unparsable one.
    pub fn new(instance_params: &Vec<(String, String)>) -> (r: Result<Params, String>)
        ensures
            r is Ok <==> param_u64(instance_params@, "ping_interval"@) is Some,
            r matches Ok(p) ==> p.ping_interval == param_u64(
                instance_params@,
                "ping_interval"@,
            ).unwrap(),
            r matches Err(m) ==> m@ == param_error(instance_params@, "ping_interval"@),
    {
        let ping_interval = match get_param(&("ping_interval".to_owned()), instance_params) {
            Ok(v) => v,
            Err(e) => {
                return Err(e);
            },
        };
        Ok(Params { ping_interval })
    }
}

} // verus!
