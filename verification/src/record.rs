use vstd::prelude::*;

verus! {

/// How many consecutive failed probes it takes before a server is marked
/// unhealthy. A single failure condemns the server, while a single successful
/// probe restores it: fast recovery, fast condemnation. The
/// `consecutive_failures` counter is kept so the threshold can be raised
/// without changing any caller.
pub const FAILURE_THRESHOLD: u64 = 1;

/// Liveness classification of one backend server. A freshly registered
/// server is `Unknown` until its first probe result arrives.
#[derive(Clone, Copy, PartialEq, Eq, Structural, Debug)]
pub enum Health {
    Unknown,
    Healthy,
    Unhealthy,
}

/// One backend server: its address (the unique key within a registry), its
/// relative weight for the selection policy, and its probed health state.
#[derive(Debug)]
pub struct ServerRecord {
    pub address: String,
    pub weight: u64,
    pub health: Health,
    pub consecutive_failures: u64,
}

/// The health-state transition applied when a probe result for a server
/// arrives: a successful probe makes the server `Healthy` and clears the
/// failure counter; a failed probe bumps the counter (saturating) and marks
/// the server `Unhealthy` once the counter reaches `FAILURE_THRESHOLD`.
/// Address and weight never change here.
pub open spec fn apply_probe(r: ServerRecord, healthy: bool) -> ServerRecord {
    if healthy {
        ServerRecord {
            address: r.address,
            weight: r.weight,
            health: Health::Healthy,
            consecutive_failures: 0,
        }
    } else {
        let failures: u64 = if r.consecutive_failures < u64::MAX {
            (r.consecutive_failures + 1) as u64
        } else {
            u64::MAX
        };
        ServerRecord {
            address: r.address,
            weight: r.weight,
            health: if failures >= FAILURE_THRESHOLD {
                Health::Unhealthy
            } else {
                r.health
            },
            consecutive_failures: failures,
        }
    }
}

impl ServerRecord {
    /// The record after one probe result, per `apply_probe`.
    pub fn probed(&self, healthy: bool) -> (out: ServerRecord)
        ensures
            out == apply_probe(*self, healthy),
    {
        if healthy {
            ServerRecord {
                address: self.address.clone(),
                weight: self.weight,
                health: Health::Healthy,
                consecutive_failures: 0,
            }
        } else {
            let failures: u64 = if self.consecutive_failures < u64::MAX {
                self.consecutive_failures + 1
            } else {
                u64::MAX
            };
            ServerRecord {
                address: self.address.clone(),
                weight: self.weight,
                health: if failures >= FAILURE_THRESHOLD {
                    Health::Unhealthy
                } else {
                    self.health
                },
                consecutive_failures: failures,
            }
        }
    }
}

impl Clone for ServerRecord {
    fn clone(&self) -> (out: Self)
        ensures
            out == *self,
    {
        ServerRecord {
            address: self.address.clone(),
            weight: self.weight,
            health: self.health,
            consecutive_failures: self.consecutive_failures,
        }
    }
}

} // verus!
