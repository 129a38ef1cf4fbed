use vstd::prelude::*;

verus! {

/// Whether this server runs a reaper cycle: the waiting room is on and,
/// with a shared store, this server took the reaper lock (`Some(taken)`);
/// without one (`None`) it always may.
pub fn reaper_runs(enabled: bool, lock_taken: Option<bool>) -> (r: bool)
    ensures
        r == (enabled && match lock_taken {
            Some(t) => t,
            None => true,
        }),
{
    if !enabled {
        return false;
    }
    match lock_taken {
        Some(t) => t,
        None => true,
    }
}

} // verus!
