use vstd::prelude::*;

use crate::record::apply_probe;
use crate::record::Health;
use crate::record::ServerRecord;

verus! {

/// Why a registry mutation was refused.
#[derive(Clone, Copy, PartialEq, Eq, Structural, Debug)]
pub enum RegistryError {
    /// `add` was given an address that is already registered.
    DuplicateAddress,
    /// `add` was given a weight below 1.
    InvalidWeight,
}

/// Some record in `s` carries the address `addr`.
pub open spec fn has_address(s: Seq<ServerRecord>, addr: Seq<char>) -> bool {
    exists|i: int| 0 <= i < s.len() && s[i].address@ == addr
}

/// No two records in `s` carry the same address.
pub open spec fn addresses_unique(s: Seq<ServerRecord>) -> bool {
    forall|i: int, j: int|
        0 <= i < j < s.len() ==> s[i].address@ != s[j].address@
}

/// Well-formedness of a record sequence: addresses are unique and every
/// weight is at least 1.
pub open spec fn records_wf(s: Seq<ServerRecord>) -> bool {
    &&& addresses_unique(s)
    &&& forall|i: int| 0 <= i < s.len() ==> s[i].weight >= 1
}

/// `s` with every record at `addr` removed, the order of the rest kept.
pub open spec fn remove_address(s: Seq<ServerRecord>, addr: Seq<char>) -> Seq<ServerRecord>
    decreases s.len(),
{
    if s.len() == 0 {
        Seq::empty()
    } else {
        let rest = remove_address(s.drop_last(), addr);
        if s.last().address@ == addr {
            rest
        } else {
            rest.push(s.last())
        }
    }
}

/// `s` with the probe result `healthy` applied to the record at `addr`, if
/// any; every other record is untouched.
pub open spec fn set_health_seq(s: Seq<ServerRecord>, addr: Seq<char>, healthy: bool) -> Seq<
    ServerRecord,
> {
    Seq::new(
        s.len(),
        |i: int|
            if s[i].address@ == addr {
                apply_probe(s[i], healthy)
            } else {
                s[i]
            },
    )
}

/// Every record that removal keeps stands somewhere in the input sequence.
pub proof fn lemma_remove_membership(s: Seq<ServerRecord>, addr: Seq<char>)
    ensures
        remove_address(s, addr).len() <= s.len(),
        forall|k: int|
            0 <= k < remove_address(s, addr).len() ==> exists|i: int|
                0 <= i < s.len() && #[trigger] remove_address(s, addr)[k] == s[i],
    decreases s.len(),
{
    if s.len() > 0 {
        lemma_remove_membership(s.drop_last(), addr);
        let rest = remove_address(s.drop_last(), addr);
        let out = remove_address(s, addr);
        assert forall|k: int| 0 <= k < out.len() implies exists|i: int|
            0 <= i < s.len() && #[trigger] out[k] == s[i] by {
            if k < rest.len() {
                let i = choose|i: int| 0 <= i < s.drop_last().len() && rest[k] == s.drop_last()[i];
                assert(s.drop_last()[i] == s[i]);
                assert(out[k] == s[i]);
            } else {
                assert(out[k] == s[s.len() - 1]);
            }
        }
    }
}

/// Removal never leaves a record with the removed address behind.
pub proof fn lemma_remove_no_target(s: Seq<ServerRecord>, addr: Seq<char>)
    ensures
        !has_address(remove_address(s, addr), addr),
    decreases s.len(),
{
    if s.len() > 0 {
        lemma_remove_no_target(s.drop_last(), addr);
    }
}

/// Removing an address that is not present changes nothing.
pub proof fn lemma_remove_absent(s: Seq<ServerRecord>, addr: Seq<char>)
    requires
        !has_address(s, addr),
    ensures
        remove_address(s, addr) == s,
    decreases s.len(),
{
    if s.len() > 0 {
        assert forall|i: int| 0 <= i < s.drop_last().len() implies s.drop_last()[i].address@
            != addr by {
            assert(s.drop_last()[i] == s[i]);
        }
        lemma_remove_absent(s.drop_last(), addr);
        assert(s[s.len() - 1].address@ != addr);
        assert(remove_address(s, addr) =~= s);
    }
}

/// Removing the same address twice is the same as removing it once, whether
/// or not the address was ever present.
pub proof fn lemma_remove_idempotent(s: Seq<ServerRecord>, addr: Seq<char>)
    ensures
        remove_address(remove_address(s, addr), addr) == remove_address(s, addr),
{
    lemma_remove_no_target(s, addr);
    lemma_remove_absent(remove_address(s, addr), addr);
}

/// Removal keeps the registry well formed.
pub proof fn lemma_remove_preserves_wf(s: Seq<ServerRecord>, addr: Seq<char>)
    requires
        records_wf(s),
    ensures
        records_wf(remove_address(s, addr)),
    decreases s.len(),
{
    if s.len() > 0 {
        assert(records_wf(s.drop_last())) by {
            assert forall|i: int| 0 <= i < s.drop_last().len() implies s.drop_last()[i]
                == s[i] by {}
        }
        lemma_remove_preserves_wf(s.drop_last(), addr);
        lemma_remove_membership(s.drop_last(), addr);
        let rest = remove_address(s.drop_last(), addr);
        if s.last().address@ != addr {
            let out = rest.push(s.last());
            assert forall|i: int, j: int| 0 <= i < j < out.len() implies out[i].address@
                != out[j].address@ by {
                if j < rest.len() {
                    assert(out[i] == rest[i] && out[j] == rest[j]);
                } else {
                    let w = choose|w: int|
                        0 <= w < s.drop_last().len() && rest[i] == s.drop_last()[w];
                    assert(s.drop_last()[w] == s[w]);
                    assert(s[w].address@ != s[s.len() - 1].address@);
                }
            }
            assert forall|i: int| 0 <= i < out.len() implies out[i].weight >= 1 by {
                if i < rest.len() {
                    assert(rest[i].weight >= 1);
                }
            }
        }
    }
}

/// Applying a probe result keeps the registry well formed: addresses and
/// weights are untouched by `apply_probe`.
pub proof fn lemma_set_health_preserves_wf(s: Seq<ServerRecord>, addr: Seq<char>, healthy: bool)
    requires
        records_wf(s),
    ensures
        records_wf(set_health_seq(s, addr, healthy)),
{
    let out = set_health_seq(s, addr, healthy);
    assert forall|i: int| 0 <= i < out.len() implies out[i].address@ == s[i].address@
        && out[i].weight == s[i].weight by {}
}

/// Applying a probe result for an absent address changes nothing.
pub proof fn lemma_set_health_absent(s: Seq<ServerRecord>, addr: Seq<char>, healthy: bool)
    requires
        !has_address(s, addr),
    ensures
        set_health_seq(s, addr, healthy) == s,
{
    assert(set_health_seq(s, addr, healthy) =~= s);
}

/// After a failed probe is applied, the record at that address (if any) is
/// `Unhealthy`: the failure counter has reached `FAILURE_THRESHOLD`.
pub proof fn lemma_failed_probe_marks_unhealthy(s: Seq<ServerRecord>, addr: Seq<char>)
    ensures
        forall|i: int|
            0 <= i < s.len() && set_health_seq(s, addr, false)[i].address@ == addr ==> set_health_seq(
                s,
                addr,
                false,
            )[i].health == Health::Unhealthy,
{
    let out = set_health_seq(s, addr, false);
    assert forall|i: int| 0 <= i < s.len() && out[i].address@ == addr implies out[i].health
        == Health::Unhealthy by {
        assert(out[i].address@ == s[i].address@);
    }
}

/// The registry of backend servers: the one piece of state shared between
/// selection, health checking and administration. All reads go through
/// `snapshot`, so a caller never observes a half-applied mutation; callers
/// that share one registry across tasks put it behind a lock, and each
/// operation here is then atomic with respect to the others.
pub struct Registry {
    records: Vec<ServerRecord>,
}

impl View for Registry {
    type V = Seq<ServerRecord>;

    closed spec fn view(&self) -> Seq<ServerRecord> {
        self.records@
    }
}

impl Registry {
    /// The registry invariant: unique addresses, weights at least 1.
    pub open spec fn wf(&self) -> bool {
        records_wf(self@)
    }

    /// An empty registry.
    pub fn new() -> (r: Registry)
        ensures
            r@ == Seq::<ServerRecord>::empty(),
            r.wf(),
    {
        Registry { records: Vec::new() }
    }

    /// The index of the record carrying `address`, if any.
    fn find_index(&self, address: &String) -> (r: Option<usize>)
        ensures
            match r {
                Some(i) => 0 <= i < self@.len() && self@[i as int].address@ == address@,
                None => !has_address(self@, address@),
            },
    {
        let n = self.records.len();
        let mut i: usize = 0;
        while i < n
            invariant
                i <= n,
                n == self.records.len(),
                forall|j: int| 0 <= j < i ==> self.records@[j].address@ != address@,
            decreases n - i,
        {
            if self.records[i].address == *address {
                return Some(i);
            }
            i += 1;
        }
        None
    }

    /// Register a new backend. Refused with `DuplicateAddress` when the
    /// address is already present, with `InvalidWeight` when the weight is
    /// below 1 (in that order when both hold); otherwise the record is
    /// appended with health `Unknown` and a cleared failure counter.
    pub fn add(&mut self, address: String, weight: u64) -> (r: Result<(), RegistryError>)
        requires
            old(self).wf(),
        ensures
            final(self).wf(),
            has_address(old(self)@, address@) ==> r == Err::<(), RegistryError>(
                RegistryError::DuplicateAddress,
            ) && final(self)@ == old(self)@,
            !has_address(old(self)@, address@) && weight < 1 ==> r == Err::<(), RegistryError>(
                RegistryError::InvalidWeight,
            ) && final(self)@ == old(self)@,
            !has_address(old(self)@, address@) && weight >= 1 ==> r == Ok::<(), RegistryError>(())
                && final(self)@ == old(self)@.push(
                (ServerRecord {
                    address: address,
                    weight: weight,
                    health: Health::Unknown,
                    consecutive_failures: 0,
                }),
            ),
    {
        match self.find_index(&address) {
            Some(i) => {
                proof {
                    assert(has_address(self@, address@));
                }
                Err(RegistryError::DuplicateAddress)
            },
            None => {
                if weight < 1 {
                    Err(RegistryError::InvalidWeight)
                } else {
                    let ghost before = self@;
                    self.records.push(
                        ServerRecord {
                            address,
                            weight,
                            health: Health::Unknown,
                            consecutive_failures: 0,
                        },
                    );
                    proof {
                        assert forall|i: int, j: int| 0 <= i < j < self@.len() implies self@[i].address@
                            != self@[j].address@ by {
                            if j == self@.len() - 1 {
                                assert(self@[i] == before[i]);
                                if before[i].address@ == address@ {
                                    assert(has_address(before, address@));
                                }
                            }
                        }
                    }
                    Ok(())
                }
            },
        }
    }

    /// Unregister `address`. A no-op, not an error, when the address is
    /// absent; removal of the same address twice is therefore harmless.
    pub fn remove(&mut self, address: &String)
        requires
            old(self).wf(),
        ensures
            final(self)@ == remove_address(old(self)@, address@),
            final(self).wf(),
    {
        let n = self.records.len();
        let mut kept: Vec<ServerRecord> = Vec::new();
        let mut i: usize = 0;
        while i < n
            invariant
                i <= n,
                n == self.records.len(),
                kept@ == remove_address(self.records@.take(i as int), address@),
            decreases n - i,
        {
            proof {
                assert(self.records@.take(i + 1).drop_last() =~= self.records@.take(i as int));
                assert(self.records@.take(i + 1).last() == self.records@[i as int]);
            }
            if !(self.records[i].address == *address) {
                let rec = self.records[i].clone();
                kept.push(rec);
            }
            i += 1;
        }
        proof {
            assert(self.records@.take(n as int) =~= self.records@);
        }
        self.records = kept;
        proof {
            lemma_remove_preserves_wf(old(self)@, address@);
        }
    }

    /// Record a probe result for `address`: a no-op when the address is
    /// absent (the server was removed while its probe was in flight),
    /// otherwise the `apply_probe` transition on that one record.
    pub fn set_health(&mut self, address: &String, healthy: bool)
        requires
            old(self).wf(),
        ensures
            final(self)@ == set_health_seq(old(self)@, address@, healthy),
            final(self).wf(),
    {
        let ghost before = self@;
        let n = self.records.len();
        let mut i: usize = 0;
        while i < n
            invariant
                i <= n,
                n == self.records.len(),
                self.records@.len() == before.len(),
                forall|j: int| i <= j < n ==> self.records@[j] == before[j],
                forall|j: int|
                    0 <= j < i ==> self.records@[j] == (if before[j].address@ == address@ {
                        apply_probe(before[j], healthy)
                    } else {
                        before[j]
                    }),
            decreases n - i,
        {
            if self.records[i].address == *address {
                let upd = self.records[i].probed(healthy);
                self.records[i] = upd;
            }
            i += 1;
        }
        proof {
            assert(self@ =~= set_health_seq(before, address@, healthy));
            lemma_set_health_preserves_wf(before, address@, healthy);
        }
    }

    /// An immutable point-in-time copy of all records, for selection and
    /// probing to work from without racing against later mutations.
    pub fn snapshot(&self) -> (r: Vec<ServerRecord>)
        ensures
            r@ == self@,
    {
        let n = self.records.len();
        let mut out: Vec<ServerRecord> = Vec::new();
        let mut i: usize = 0;
        while i < n
            invariant
                i <= n,
                n == self.records.len(),
                out@ == self.records@.take(i as int),
            decreases n - i,
        {
            let rec = self.records[i].clone();
            out.push(rec);
            proof {
                assert(out@ =~= self.records@.take(i + 1));
            }
            i += 1;
        }
        proof {
            assert(self.records@.take(n as int) =~= self.records@);
        }
        out
    }
}

} // verus!
