use vstd::prelude::*;

use crate::record::Health;
use crate::record::ServerRecord;
use crate::registry::addresses_unique;
use crate::registry::has_address;
use crate::registry::records_wf;
use crate::registry::remove_address;
use crate::registry::set_health_seq;
use crate::registry::Registry;
use crate::registry::RegistryError;
use crate::selector::chosen_index;
use crate::selector::healthy_of;
use crate::selector::total_weight;
use crate::selector::SelectError;
use crate::selector::Selector;

verus! {

/// The load balancer core: the registry of backend servers together with
/// the selection cursor. Callers that serve requests from several tasks at
/// once share one `LoadBalancer` behind a lock and hold it only for the
/// brief registry read or update, never across a probe or a forward.
pub struct LoadBalancer {
    registry: Registry,
    selector: Selector,
}

impl View for LoadBalancer {
    type V = Seq<ServerRecord>;

    closed spec fn view(&self) -> Seq<ServerRecord> {
        self.registry@
    }
}

impl LoadBalancer {
    /// The registry invariant, seen through the facade.
    pub open spec fn wf(&self) -> bool {
        records_wf(self@)
    }

    /// The registry as the selector sees it.
    pub closed spec fn registry_view(&self) -> Seq<ServerRecord> {
        self.registry@
    }

    /// The selection cursor.
    pub closed spec fn cursor(&self) -> u128 {
        self.selector.cursor()
    }

    /// A fresh load balancer with no servers; the initial server list, an
    /// already-parsed sequence of address and weight pairs, is registered
    /// through `add_server` one pair at a time.
    pub fn new() -> (r: LoadBalancer)
        ensures
            r@ == Seq::<ServerRecord>::empty(),
            r.wf(),
            r.cursor() == 0,
    {
        LoadBalancer { registry: Registry::new(), selector: Selector::new() }
    }

    /// Register a backend server. See `Registry::add` for the exact error
    /// contract; the selection cursor is untouched.
    pub fn add_server(&mut self, address: String, weight: u64) -> (r: Result<(), RegistryError>)
        requires
            old(self).wf(),
        ensures
            final(self).wf(),
            final(self).cursor() == old(self).cursor(),
            has_address(old(self)@, address@) ==> r == Err::<(), RegistryError>(
                RegistryError::DuplicateAddress,
            ) && final(self)@ == old(self)@,
            !has_address(old(self)@, address@) && weight < 1 ==> r == Err::<(), RegistryError>(
                RegistryError::InvalidWeight,
            ) && final(self)@ == old(self)@,
            !has_address(old(self)@, address@) && weight >= 1 ==> r == Ok::<(), RegistryError>(())
                && final(self)@ == old(self)@.push(
                (ServerRecord {
                    address: address,
                    weight: weight,
                    health: Health::Unknown,
                    consecutive_failures: 0,
                }),
            ),
    {
        self.registry.add(address, weight)
    }

    /// Unregister a server: a silent no-op when the address is absent, so
    /// removing the same address twice is harmless.
    pub fn remove_server(&mut self, address: &String)
        requires
            old(self).wf(),
        ensures
            final(self).wf(),
            final(self).cursor() == old(self).cursor(),
            final(self)@ == remove_address(old(self)@, address@),
    {
        self.registry.remove(address)
    }

    /// Record one probe result: a no-op when the address was removed while
    /// its probe was in flight.
    pub fn set_health(&mut self, address: &String, healthy: bool)
        requires
            old(self).wf(),
        ensures
            final(self).wf(),
            final(self).cursor() == old(self).cursor(),
            final(self)@ == set_health_seq(old(self)@, address@, healthy),
    {
        self.registry.set_health(address, healthy)
    }

    /// A point-in-time copy of all records.
    pub fn snapshot(&self) -> (r: Vec<ServerRecord>)
        ensures
            r@ == self@,
    {
        self.registry.snapshot()
    }

    /// The addresses the health checker probes in one cycle: every
    /// registered server's, copied out so the probes themselves run without
    /// any hold on the balancer.
    pub fn probe_targets(&self) -> (r: Vec<String>)
        ensures
            r@.len() == self@.len(),
            forall|i: int| 0 <= i < self@.len() ==> #[trigger] r@[i]@ == self@[i].address@,
    {
        let snap = self.registry.snapshot();
        let n = snap.len();
        let mut out: Vec<String> = Vec::new();
        let mut i: usize = 0;
        while i < n
            invariant
                i <= n,
                n == snap.len(),
                out@.len() == i,
                forall|j: int| 0 <= j < i ==> #[trigger] out@[j]@ == snap@[j].address@,
            decreases n - i,
        {
            let addr = snap[i].address.clone();
            out.push(addr);
            i += 1;
        }
        out
    }

    /// Pick one healthy server, weighted round-robin: `Selector::select`
    /// against this balancer's registry. The record set is untouched; only
    /// the cursor moves.
    pub fn select(&mut self) -> (r: Result<String, SelectError>)
        requires
            old(self).wf(),
        ensures
            final(self).wf(),
            final(self)@ == old(self)@,
            healthy_of(old(self)@).len() == 0 ==> r == Err::<String, SelectError>(
                SelectError::NoHealthyServer,
            ) && final(self).cursor() == old(self).cursor(),
            healthy_of(old(self)@).len() > 0 ==> {
                let c = healthy_of(old(self)@);
                let total = total_weight(c);
                let k = old(self).cursor() as int % total;
                &&& r matches Ok(addr) && addr@ == c[chosen_index(c, k)].address@
                &&& final(self).cursor() == (k + 1) % total
            },
    {
        self.selector.select(&self.registry)
    }
}

/// Every snapshot of a well-formed balancer is a whole, consistent copy —
/// its addresses are unique, and `snapshot` returns the record sequence
/// exactly, so no reader ever sees a duplicated or half-written record.
/// (That concurrent
/// callers see such a state at all times is the concern of the lock an
/// embedding puts around the balancer; every operation here is a single
/// atomic step under that lock.)
pub proof fn lemma_snapshot_consistent(lb: LoadBalancer)
    requires
        lb.wf(),
    ensures
        addresses_unique(lb@),
{
}

} // verus!
