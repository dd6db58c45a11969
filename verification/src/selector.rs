use vstd::prelude::*;

use vstd::arithmetic::div_mod::lemma_fundamental_div_mod;
use vstd::arithmetic::div_mod::lemma_mod_add_multiples_vanish;
use vstd::arithmetic::div_mod::lemma_mod_bound;
use vstd::arithmetic::div_mod::lemma_mod_multiples_vanish;
use vstd::arithmetic::div_mod::lemma_small_mod;

use crate::record::Health;
use crate::record::ServerRecord;
use crate::registry::lemma_failed_probe_marks_unhealthy;
use crate::registry::lemma_set_health_preserves_wf;
use crate::registry::records_wf;
use crate::registry::set_health_seq;
use crate::registry::Registry;

verus! {

/// Why a selection returned no server.
#[derive(Clone, Copy, PartialEq, Eq, Structural, Debug)]
pub enum SelectError {
    /// Not a single registered server is currently `Healthy`. An expected,
    /// recoverable condition, not a defect.
    NoHealthyServer,
}

/// A record takes part in selection exactly when its probed health is
/// `Healthy`; `Unknown` servers wait for their first probe.
pub open spec fn is_healthy(r: ServerRecord) -> bool {
    r.health == Health::Healthy
}

/// The healthy records of `s`, in registration order: the candidate list
/// that one selection works over. Registration order is the documented,
/// deterministic tie-break.
pub open spec fn healthy_of(s: Seq<ServerRecord>) -> Seq<ServerRecord>
    decreases s.len(),
{
    if s.len() == 0 {
        Seq::empty()
    } else {
        let rest = healthy_of(s.drop_last());
        if is_healthy(s.last()) {
            rest.push(s.last())
        } else {
            rest
        }
    }
}

/// The sum of the weights of `c[from..to]`.
pub open spec fn weight_sum(c: Seq<ServerRecord>, from: int, to: int) -> int
    decreases to - from,
{
    if from >= to {
        0
    } else {
        c[from].weight + weight_sum(c, from + 1, to)
    }
}

/// The sum of all weights in `c`: the length of one full round of the
/// weighted round-robin wheel.
pub open spec fn total_weight(c: Seq<ServerRecord>) -> int {
    weight_sum(c, 0, c.len() as int)
}

/// The candidate picked for wheel position `k`, scanning from index `j`:
/// each candidate occupies a block of `weight` consecutive positions, so the
/// pick is the first index whose cumulative weight exceeds `k`. Out-of-range
/// positions clamp to the last candidate.
pub open spec fn chosen_from(c: Seq<ServerRecord>, j: int, k: int) -> int
    decreases c.len() - j,
{
    if j >= c.len() - 1 {
        j
    } else if k < c[j].weight {
        j
    } else {
        chosen_from(c, j + 1, k - c[j].weight)
    }
}

/// The candidate index picked for wheel position `k` of the full wheel.
pub open spec fn chosen_index(c: Seq<ServerRecord>, k: int) -> int {
    chosen_from(c, 0, k)
}

/// How many of the `n` consecutive selections starting at cursor value `s`
/// pick candidate `i`, when the candidate list `c` stays fixed: selection
/// `t` picks `chosen_index(c, (s + t) % total_weight(c))`.
pub open spec fn picks_in_window(c: Seq<ServerRecord>, s: int, n: int, i: int) -> int
    decreases n,
{
    if n <= 0 {
        0
    } else {
        picks_in_window(c, s, n - 1, i) + (if chosen_index(c, (s + n - 1) % total_weight(c))
            == i {
            1int
        } else {
            0int
        })
    }
}

/// A weight sum over a subrange never goes negative, and splitting the range
/// splits the sum.
pub proof fn lemma_weight_sum_split(c: Seq<ServerRecord>, a: int, b: int, d: int)
    requires
        a <= b <= d,
    ensures
        weight_sum(c, a, d) == weight_sum(c, a, b) + weight_sum(c, b, d),
    decreases b - a,
{
    if a < b {
        lemma_weight_sum_split(c, a + 1, b, d);
    }
}

/// Extending a weight sum by one index on the right adds that one weight.
pub proof fn lemma_weight_sum_unfold_right(c: Seq<ServerRecord>, from: int, to: int)
    requires
        from <= to,
    ensures
        weight_sum(c, from, to + 1) == weight_sum(c, from, to) + c[to].weight,
    decreases to - from,
{
    if from < to {
        lemma_weight_sum_unfold_right(c, from + 1, to);
    } else {
        assert(weight_sum(c, to + 1, to + 1) == 0);
        assert(weight_sum(c, to, to) == 0);
    }
}

/// A weight sum is at least 0, and at least its range's length when every
/// weight in `c` is at least 1.
pub proof fn lemma_weight_sum_bounds(c: Seq<ServerRecord>, from: int, to: int)
    requires
        from <= to,
    ensures
        weight_sum(c, from, to) >= 0,
        (forall|i: int| 0 <= i < c.len() ==> #[trigger] c[i].weight >= 1) && 0 <= from && to
            <= c.len() ==> weight_sum(c, from, to) >= to - from,
    decreases to - from,
{
    if from < to {
        lemma_weight_sum_bounds(c, from + 1, to);
    }
}

/// Every candidate is healthy and stands somewhere in the registry sequence
/// it was drawn from.
pub proof fn lemma_healthy_members(s: Seq<ServerRecord>)
    ensures
        healthy_of(s).len() <= s.len(),
        forall|k: int|
            0 <= k < healthy_of(s).len() ==> is_healthy(#[trigger] healthy_of(s)[k]),
        forall|k: int|
            0 <= k < healthy_of(s).len() ==> exists|i: int|
                0 <= i < s.len() && #[trigger] healthy_of(s)[k] == s[i],
    decreases s.len(),
{
    if s.len() > 0 {
        lemma_healthy_members(s.drop_last());
        let rest = healthy_of(s.drop_last());
        let out = healthy_of(s);
        assert forall|k: int| 0 <= k < out.len() implies exists|i: int|
            0 <= i < s.len() && #[trigger] out[k] == s[i] by {
            if k < rest.len() {
                let i = choose|i: int| 0 <= i < s.drop_last().len() && rest[k] == s.drop_last()[i];
                assert(s.drop_last()[i] == s[i]);
                assert(out[k] == s[i]);
            } else {
                assert(out[k] == s[s.len() - 1]);
            }
        }
    }
}

/// The candidate list is empty exactly when no record is healthy.
pub proof fn lemma_healthy_empty(s: Seq<ServerRecord>)
    ensures
        healthy_of(s).len() == 0 <==> (forall|i: int|
            0 <= i < s.len() ==> !is_healthy(#[trigger] s[i])),
    decreases s.len(),
{
    if s.len() > 0 {
        lemma_healthy_empty(s.drop_last());
        assert forall|i: int| 0 <= i < s.drop_last().len() implies s.drop_last()[i] == s[i] by {}
    }
}

/// The pick for any wheel position is a valid candidate index.
pub proof fn lemma_chosen_in_range(c: Seq<ServerRecord>, j: int, k: int)
    requires
        0 <= j < c.len(),
    ensures
        j <= chosen_from(c, j, k) < c.len(),
    decreases c.len() - j,
{
    if j < c.len() - 1 && k >= c[j].weight {
        lemma_chosen_in_range(c, j + 1, k - c[j].weight);
    }
}

/// A wheel position inside the candidate list's weight range lands inside
/// the picked candidate's block of positions.
pub proof fn lemma_chosen_block(c: Seq<ServerRecord>, j: int, k: int)
    requires
        0 <= j < c.len(),
        0 <= k < weight_sum(c, j, c.len() as int),
    ensures
        weight_sum(c, j, chosen_from(c, j, k)) <= k < weight_sum(c, j, chosen_from(c, j, k) + 1),
    decreases c.len() - j,
{
    if j >= c.len() - 1 {
        assert(weight_sum(c, j, j) == 0);
    } else if k < c[j].weight {
        assert(weight_sum(c, j, j) == 0);
        assert(weight_sum(c, j, j + 1) == c[j].weight + weight_sum(c, j + 1, j + 1));
    } else {
        lemma_chosen_block(c, j + 1, k - c[j].weight);
    }
}

/// Conversely, the pick for any position inside candidate `i`'s block of
/// positions is `i`.
pub proof fn lemma_chosen_of_block(c: Seq<ServerRecord>, j: int, i: int, k: int)
    requires
        0 <= j <= i < c.len(),
        weight_sum(c, j, i) <= k < weight_sum(c, j, i + 1),
    ensures
        chosen_from(c, j, k) == i,
    decreases i - j,
{
    lemma_weight_sum_bounds(c, j, i);
    if j == i {
        assert(weight_sum(c, j, j + 1) == c[j].weight + weight_sum(c, j + 1, j + 1));
    } else {
        assert(weight_sum(c, j, i) == c[j].weight + weight_sum(c, j + 1, i));
        lemma_weight_sum_bounds(c, j + 1, i);
        lemma_chosen_of_block(c, j + 1, i, k - c[j].weight);
    }
}

/// Clamp `n` to at most `a`.
pub open spec fn clip(n: int, a: int) -> int {
    if n <= a {
        n
    } else {
        a
    }
}

/// Counting picks of candidate `i` over the first `n` wheel positions: the
/// positions picking `i` are exactly those in `i`'s block, so the count is
/// the part of that block below `n`.
proof fn lemma_picks_prefix(c: Seq<ServerRecord>, n: int, i: int)
    requires
        0 <= i < c.len(),
        0 <= n <= total_weight(c),
    ensures
        picks_in_window(c, 0, n, i) == clip(n, weight_sum(c, 0, i + 1)) - clip(
            n,
            weight_sum(c, 0, i),
        ),
    decreases n,
{
    lemma_weight_sum_bounds(c, 0, i);
    lemma_weight_sum_split(c, 0, i, i + 1);
    lemma_weight_sum_split(c, 0, i + 1, c.len() as int);
    lemma_weight_sum_bounds(c, i, i + 1);
    lemma_weight_sum_bounds(c, i + 1, c.len() as int);
    if n > 0 {
        lemma_picks_prefix(c, n - 1, i);
        let k = n - 1;
        lemma_small_mod(k as nat, total_weight(c) as nat);
        assert((0 + n - 1) % total_weight(c) == k);
        lemma_chosen_block(c, 0, k);
        if chosen_index(c, k) == i {
            assert(weight_sum(c, 0, i) <= k < weight_sum(c, 0, i + 1));
        } else {
            lemma_chosen_in_range(c, 0, k);
            if weight_sum(c, 0, i) <= k < weight_sum(c, 0, i + 1) {
                lemma_chosen_of_block(c, 0, i, k);
            }
        }
    }
}

/// Peeling a window from the bottom instead of the top.
proof fn lemma_picks_peel_low(c: Seq<ServerRecord>, s: int, n: int, i: int)
    requires
        n >= 1,
        total_weight(c) >= 1,
    ensures
        picks_in_window(c, s, n, i) == (if chosen_index(c, s % total_weight(c)) == i {
            1int
        } else {
            0int
        }) + picks_in_window(c, s + 1, n - 1, i),
    decreases n,
{
    if n > 1 {
        lemma_picks_peel_low(c, s, n - 1, i);
        assert(picks_in_window(c, s + 1, n - 1, i) == picks_in_window(c, s + 1, n - 2, i) + (
        if chosen_index(c, (s + n - 1) % total_weight(c)) == i {
            1int
        } else {
            0int
        }));
    } else {
        assert(picks_in_window(c, s, 0, i) == 0);
        assert(picks_in_window(c, s + 1, 0, i) == 0);
    }
}

/// Sliding a full-wheel window one position forward keeps every candidate's
/// pick count: the position dropped at the bottom and the one gained at the
/// top are the same wheel position.
proof fn lemma_picks_slide(c: Seq<ServerRecord>, s: int, i: int)
    requires
        s >= 0,
        total_weight(c) >= 1,
    ensures
        picks_in_window(c, s + 1, total_weight(c), i) == picks_in_window(c, s, total_weight(c), i),
{
    let total = total_weight(c);
    lemma_picks_peel_low(c, s, total, i);
    lemma_mod_add_multiples_vanish(s, total);
    assert((s + 1 + total - 1) % total == s % total);
}

/// The fairness law of the wheel: for a fixed candidate list `c` whose
/// weights are all at least 1, any window of `total_weight(c)` consecutive
/// selections — the selections at cursor values `s, s + 1, ...,
/// s + total_weight(c) - 1` — picks candidate `i` exactly `c[i].weight`
/// times, so no candidate is starved relative to its weight.
pub proof fn lemma_weight_fairness(c: Seq<ServerRecord>, s: int, i: int)
    requires
        0 <= i < c.len(),
        s >= 0,
        forall|j: int| 0 <= j < c.len() ==> #[trigger] c[j].weight >= 1,
    ensures
        picks_in_window(c, s, total_weight(c), i) == c[i].weight,
    decreases s,
{
    lemma_weight_sum_bounds(c, 0, c.len() as int);
    if s == 0 {
        lemma_picks_prefix(c, total_weight(c), i);
        lemma_weight_sum_split(c, 0, i, i + 1);
        lemma_weight_sum_split(c, 0, i + 1, c.len() as int);
        lemma_weight_sum_bounds(c, i + 1, c.len() as int);
        lemma_weight_sum_unfold_right(c, 0, i);
    } else {
        lemma_weight_fairness(c, s - 1, i);
        lemma_picks_slide(c, s - 1, i);
    }
}

/// What glues consecutive selections to consecutive wheel positions: a
/// selection at cursor `u` works at position `u % total` and leaves the
/// cursor at `u % total + 1` (reduced), whose own position is
/// `(u + 1) % total`. Selections over a fixed candidate list therefore walk
/// the positions `u % total, (u + 1) % total, ...` — exactly the windows
/// that `picks_in_window` counts and `lemma_weight_fairness` speaks about.
pub proof fn lemma_positions_advance(u: int, total: int)
    requires
        u >= 0,
        total >= 1,
    ensures
        (u % total + 1) % total == (u + 1) % total,
{
    lemma_fundamental_div_mod(u, total);
    lemma_mod_multiples_vanish(u / total, u % total + 1, total);
}

/// Any address whose record is not `Healthy` — or which has no record at
/// all — is never the pick of a selection, at any wheel position.
pub proof fn lemma_unhealthy_never_selected(s: Seq<ServerRecord>, addr: Seq<char>, k: int)
    requires
        records_wf(s),
        forall|i: int|
            0 <= i < s.len() && #[trigger] s[i].address@ == addr ==> s[i].health
                != Health::Healthy,
        healthy_of(s).len() > 0,
    ensures
        0 <= chosen_index(healthy_of(s), k) < healthy_of(s).len(),
        healthy_of(s)[chosen_index(healthy_of(s), k)].address@ != addr,
{
    let c = healthy_of(s);
    lemma_chosen_in_range(c, 0, k);
    lemma_healthy_members(s);
    let t = chosen_index(c, k);
    let w = choose|w: int| 0 <= w < s.len() && c[t] == s[w];
    assert(is_healthy(c[t]));
    if c[t].address@ == addr {
        assert(s[w].health != Health::Healthy);
    }
}

/// Once a failed probe for `addr` has been applied
/// to a well-formed registry, no selection over the resulting records picks
/// `addr`, at any wheel position — that is, until a later successful probe
/// for `addr` changes the records again.
pub proof fn lemma_exclusion_after_failed_probe(s: Seq<ServerRecord>, addr: Seq<char>, k: int)
    requires
        records_wf(s),
    ensures
        ({
            let after = set_health_seq(s, addr, false);
            healthy_of(after).len() > 0 ==> healthy_of(after)[chosen_index(
                healthy_of(after),
                k,
            )].address@ != addr
        }),
{
    let after = set_health_seq(s, addr, false);
    lemma_set_health_preserves_wf(s, addr, false);
    lemma_failed_probe_marks_unhealthy(s, addr);
    if healthy_of(after).len() > 0 {
        lemma_unhealthy_never_selected(after, addr, k);
    }
}

/// The selection cursor: the single piece of mutable state of the selection
/// policy. It holds the next wheel position, always reduced modulo the wheel
/// size it was last used with; when the healthy set or its weights change,
/// the next selection reduces it again rather than index out of range.
pub struct Selector {
    cursor: u128,
}

impl Selector {
    /// The current cursor value.
    pub closed spec fn cursor(&self) -> u128 {
        self.cursor
    }

    /// A fresh selector, starting at the first wheel position.
    pub fn new() -> (r: Selector)
        ensures
            r.cursor() == 0,
    {
        Selector { cursor: 0 }
    }

    /// Pick one healthy server from the registry, weighted round-robin.
    ///
    /// With `c` the healthy records in registration order: when `c` is
    /// empty the result is `NoHealthyServer` and the cursor is untouched;
    /// otherwise the pick is the candidate at wheel position
    /// `cursor % total_weight(c)` and the cursor advances to the next
    /// position, wrapping at the end of the wheel. A caller that selects
    /// repeatedly while the healthy set stays fixed therefore walks the
    /// wheel position by position, which is what `lemma_weight_fairness`
    /// speaks about.
    pub fn select(&mut self, reg: &Registry) -> (r: Result<String, SelectError>)
        requires
            reg.wf(),
        ensures
            healthy_of(reg@).len() == 0 ==> r == Err::<String, SelectError>(
                SelectError::NoHealthyServer,
            ) && final(self).cursor() == old(self).cursor(),
            healthy_of(reg@).len() > 0 ==> {
                let c = healthy_of(reg@);
                let total = total_weight(c);
                let k = old(self).cursor() as int % total;
                &&& r matches Ok(addr) && addr@ == c[chosen_index(c, k)].address@
                &&& final(self).cursor() == (k + 1) % total
            },
    {
        let snap = reg.snapshot();
        let n = snap.len();
        let mut cands: Vec<ServerRecord> = Vec::new();
        let mut i: usize = 0;
        while i < n
            invariant
                i <= n,
                n == snap.len(),
                cands@ == healthy_of(snap@.take(i as int)),
            decreases n - i,
        {
            proof {
                assert(snap@.take(i + 1).drop_last() =~= snap@.take(i as int));
                assert(snap@.take(i + 1).last() == snap@[i as int]);
            }
            if snap[i].health == Health::Healthy {
                let rec = snap[i].clone();
                cands.push(rec);
            }
            i += 1;
        }
        proof {
            assert(snap@.take(n as int) =~= snap@);
        }
        if cands.len() == 0 {
            return Err(SelectError::NoHealthyServer);
        }
        proof {
            lemma_healthy_members(reg@);
            assert forall|t: int| 0 <= t < cands@.len() implies #[trigger] cands@[t].weight
                >= 1 by {
                assert(cands@[t] == healthy_of(reg@)[t]);
                let w = choose|w: int| 0 <= w < reg@.len() && healthy_of(reg@)[t] == reg@[w];
                assert(reg@[w].weight >= 1);
            }
        }
        let m = cands.len();
        let mut total: u128 = 0;
        let mut j: usize = 0;
        while j < m
            invariant
                j <= m,
                m == cands.len(),
                total == weight_sum(cands@, 0, j as int),
                total as int <= (j as int) * 0xffff_ffff_ffff_ffff,
                forall|t: int| 0 <= t < cands@.len() ==> #[trigger] cands@[t].weight >= 1,
            decreases m - j,
        {
            proof {
                lemma_weight_sum_unfold_right(cands@, 0, j as int);
            }
            total = total + cands[j].weight as u128;
            j += 1;
        }
        proof {
            lemma_weight_sum_bounds(cands@, 0, m as int);
            assert(total >= 1);
        }
        let k: u128 = self.cursor % total;
        proof {
            lemma_mod_bound(self.cursor as int, total as int);
        }
        let mut idx: usize = 0;
        let mut rem: u128 = k;
        while idx < m - 1 && rem >= cands[idx].weight as u128
            invariant
                0 <= idx < m,
                m == cands.len(),
                chosen_index(cands@, k as int) == chosen_from(cands@, idx as int, rem as int),
            decreases m - idx,
        {
            rem = rem - cands[idx].weight as u128;
            idx += 1;
        }
        let address = cands[idx].address.clone();
        self.cursor = (k + 1) % total;
        proof {
            lemma_mod_bound(k + 1, total as int);
            assert(chosen_from(cands@, idx as int, rem as int) == idx as int);
        }
        Ok(address)
    }
}

} // verus!
