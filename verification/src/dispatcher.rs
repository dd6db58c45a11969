use vstd::prelude::*;

use crate::balancer::LoadBalancer;
use crate::selector::chosen_index;
use crate::selector::healthy_of;
use crate::selector::total_weight;

verus! {

/// Where one inbound request goes: to a chosen backend, or straight back to
/// the client because no backend can take it.
pub enum DispatchPlan {
    /// Relay the request to the backend at this address.
    Forward(String),
    /// No healthy backend: answer service-unavailable without contacting
    /// any backend.
    Unavailable,
}

/// The two ways this core fails a request without a backend response.
#[derive(Clone, Copy, PartialEq, Eq, Structural, Debug)]
pub enum DispatchFailure {
    /// Selection found no healthy server.
    NoHealthyServer,
    /// The chosen backend was contacted and the relay itself failed; this
    /// core does not retry against another server.
    ForwardFailed,
}

/// The per-request decision of the dispatcher: ask the selector for a
/// target. The caller then performs the forward itself on a `Forward` plan
/// and answers `failure_status(NoHealthyServer)` on `Unavailable`.
pub fn plan_request(lb: &mut LoadBalancer) -> (d: DispatchPlan)
    requires
        old(lb).wf(),
    ensures
        final(lb).wf(),
        final(lb)@ == old(lb)@,
        healthy_of(old(lb)@).len() == 0 ==> (d matches DispatchPlan::Unavailable)
            && final(lb).cursor() == old(lb).cursor(),
        healthy_of(old(lb)@).len() > 0 ==> {
            let c = healthy_of(old(lb)@);
            let total = total_weight(c);
            let k = old(lb).cursor() as int % total;
            &&& d matches DispatchPlan::Forward(addr) && addr@ == c[chosen_index(c, k)].address@
            &&& final(lb).cursor() == (k + 1) % total
        },
{
    match lb.select() {
        Ok(address) => DispatchPlan::Forward(address),
        Err(_) => DispatchPlan::Unavailable,
    }
}

/// The status this proxy itself answers with when it could not relay:
/// service-unavailable when no backend was healthy, bad-gateway when the
/// forward to the chosen backend failed.
pub fn failure_status(f: DispatchFailure) -> (s: u16)
    ensures
        f == DispatchFailure::NoHealthyServer ==> s == 503,
        f == DispatchFailure::ForwardFailed ==> s == 502,
{
    match f {
        DispatchFailure::NoHealthyServer => 503,
        DispatchFailure::ForwardFailed => 502,
    }
}

} // verus!
