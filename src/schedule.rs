//! The scheduler's and the liveness gate's decisions.
use vstd::prelude::*;
use crate::pending::{PendingSet, site_set, sites_unique};

verus! {

/// The seconds between two rounds of refreshing the pending sites.
pub const QUERY_PERIOD_SECS: u64 = 900;

/// The sites of one round of querying. Sites given explicitly (the warm-up
/// with the initial sites) are taken as they are, leaving the pending set
/// alone; otherwise the pending set is drained, whether or not the round's
/// task then reaches the broker.
pub fn query_sites(pending: &mut PendingSet, sites: Option<&Vec<String>>) -> (r: Vec<String>)
    requires
        old(pending).wf(),
    ensures
        final(pending).wf(),
        match sites {
            Some(given) => r@ == given@ && final(pending)@ == old(pending)@,
            None => site_set(r@) == old(pending)@ && sites_unique(r@) && final(pending)@ == Set::<
                Seq<char>,
            >::empty(),
        },
{
    match sites {
        Some(given) => {
            let mut r: Vec<String> = Vec::new();
            let mut i: usize = 0;
            while i < given.len()
                invariant
                    i <= given@.len(),
                    r@ == given@.subrange(0, i as int),
                decreases given@.len() - i,
            {
                r.push(given[i].clone());
                assert(r@ =~= given@.subrange(0, i + 1));
                i = i + 1;
            }
            assert(r@ =~= given@);
            r
        },
        None => pending.drain(),
    }
}

/// How many results a task for these sites waits for: one per site. `None`
/// where there are no sites, and so no task to post.
pub fn wait_count(sites: &Vec<String>) -> (r: Option<usize>)
    ensures
        match r {
            Some(n) => sites@.len() > 0 && n == sites@.len(),
            None => sites@.len() == 0,
        },
{
    if sites.len() == 0 {
        None
    } else {
        Some(sites.len())
    }
}

/// The most probes of the broker's health after the first.
pub const MAX_RETRIES: u8 = 10;

/// What one probe of the broker's health found.
pub enum HealthProbe {
    /// It answered that it is healthy.
    Healthy,
    /// It answered with another status.
    Unhealthy(u16),
    /// It could not be reached.
    Unreachable,
}

/// What the liveness gate does next.
pub enum HealthAction {
    /// The broker is ready; start serving.
    Ready,
    /// Probe again after a second, counting this as the given try.
    Retry(u8),
    /// Give up: the broker answers but is not ready.
    NotReady(u16),
    /// Give up: the broker cannot be reached.
    Unreachable,
}

/// The liveness gate's step after probe number `tries` (counted from 1):
/// ready on a healthy answer; otherwise another try while `tries` is at most
/// the retry limit; otherwise give up with what the last probe found.
pub fn health_step(tries: u8, probe: HealthProbe) -> (r: HealthAction)
    ensures
        match probe {
            HealthProbe::Healthy => r is Ready,
            HealthProbe::Unhealthy(status) => if tries <= MAX_RETRIES {
                r == HealthAction::Retry((tries + 1) as u8)
            } else {
                r == HealthAction::NotReady(status)
            },
            HealthProbe::Unreachable => if tries <= MAX_RETRIES {
                r == HealthAction::Retry((tries + 1) as u8)
            } else {
                r is Unreachable
            },
        },
{
    match probe {
        HealthProbe::Healthy => HealthAction::Ready,
        HealthProbe::Unhealthy(status) => {
            if tries <= MAX_RETRIES {
                HealthAction::Retry(tries + 1)
            } else {
                HealthAction::NotReady(status)
            }
        },
        HealthProbe::Unreachable => {
            if tries <= MAX_RETRIES {
                HealthAction::Retry(tries + 1)
            } else {
                HealthAction::Unreachable
            }
        },
    }
}

} // verus!
