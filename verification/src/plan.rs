//! How a test is laid out: how many requests, which worker and which body
//! each one gets, and the order in which the results are reported.
use vstd::prelude::*;

verus! {

/// The number of requests a test sends: one per body when bodies come from
/// a file, the configured number otherwise.
pub open spec fn request_total(n_bodies: nat, configured: nat) -> nat {
    if n_bodies > 0 {
        n_bodies
    } else {
        configured
    }
}

/// The number of requests a test sends.
pub fn total_requests_for(n_bodies: usize, configured: usize) -> (n: usize)
    ensures
        n == request_total(n_bodies as nat, configured as nat),
{
    if n_bodies > 0 {
        n_bodies
    } else {
        configured
    }
}

/// One request of a test.
#[derive(Debug, Clone, Copy, PartialEq, Eq, Structural)]
pub struct RequestSlot {
    /// The number of the request, from 1.
    pub request_id: usize,
    /// The worker that sends it, from 1.
    pub worker_id: usize,
    /// The body from the file that it sends, if bodies come from a file.
    pub body_index: Option<usize>,
}

/// The request with index `i` (from 0) of a test.
pub open spec fn slot_at(i: nat, parallel_limit: nat, n_bodies: nat) -> RequestSlot
    recommends
        parallel_limit > 0,
{
    RequestSlot {
        request_id: (i + 1) as usize,
        worker_id: ((i % parallel_limit) + 1) as usize,
        body_index: if n_bodies > 0 && i < n_bodies { Some(i as usize) } else { None },
    }
}

/// The requests of a test with `total` requests shared round-robin among
/// `parallel_limit` workers; with bodies from a file, request `i` sends
/// body `i`.
pub fn plan_requests(total: usize, parallel_limit: usize, n_bodies: usize) -> (plan: Vec<RequestSlot>)
    requires
        total > 0 ==> parallel_limit > 0,
    ensures
        plan@.len() == total,
        forall|i: int| 0 <= i < total ==> #[trigger] plan@[i] == slot_at(i as nat, parallel_limit as nat, n_bodies as nat),
{
    let mut plan: Vec<RequestSlot> = Vec::new();
    let mut i: usize = 0;
    while i < total
        invariant
            0 <= i <= total,
            total > 0 ==> parallel_limit > 0,
            plan@.len() == i,
            forall|k: int| 0 <= k < i ==> #[trigger] plan@[k] == slot_at(k as nat, parallel_limit as nat, n_bodies as nat),
        decreases total - i,
    {
        let body_index = if n_bodies > 0 && i < n_bodies { Some(i) } else { None };
        let worker = i % parallel_limit;
        plan.push(RequestSlot { request_id: i + 1, worker_id: worker + 1, body_index });
        i = i + 1;
    }
    plan
}

/// Every request goes to a worker between 1 and `parallel_limit`, and the
/// request numbers run from 1 to the number of requests, each once.
pub proof fn law_plan_shape(total: usize, parallel_limit: usize, n_bodies: usize, i: int, j: int)
    requires
        parallel_limit > 0,
        0 <= i < total,
        0 <= j < total,
    ensures
        1 <= slot_at(i as nat, parallel_limit as nat, n_bodies as nat).worker_id <= parallel_limit,
        slot_at(i as nat, parallel_limit as nat, n_bodies as nat).request_id == i + 1,
        i != j ==> slot_at(i as nat, parallel_limit as nat, n_bodies as nat).request_id
            != slot_at(j as nat, parallel_limit as nat, n_bodies as nat).request_id,
{
    vstd::arithmetic::div_mod::lemma_mod_bound(i, parallel_limit as int);
}

/// Whether `k` appears in `order`.
pub open spec fn occurs(order: Seq<usize>, k: int) -> bool {
    exists|a: int| 0 <= a < order.len() && #[trigger] order[a] == k
}

/// `order` lists each index below `n` exactly once.
pub open spec fn is_permutation(order: Seq<usize>, n: nat) -> bool {
    &&& order.len() == n
    &&& forall|a: int| 0 <= a < order.len() ==> #[trigger] order[a] < n
    &&& forall|a: int, b: int| 0 <= a < b < order.len() ==> order[a] != order[b]
    &&& forall|k: int| 0 <= k < n ==> #[trigger] occurs(order, k)
}

/// Along `order`, the keys do not decrease, and equal keys keep their
/// original order.
pub open spec fn sorts_stably(order: Seq<usize>, keys: Seq<usize>) -> bool {
    &&& forall|a: int, b: int| 0 <= a < b < order.len() ==> keys[order[a] as int] <= keys[order[b] as int]
    &&& forall|a: int, b: int| 0 <= a < b < order.len() && keys[order[a] as int] == keys[order[b] as int]
        ==> order[a] < order[b]
}

/// The order in which to report records with request numbers `ids`: by
/// request number, as a stable sort does.
pub fn order_by_request_id(ids: &Vec<usize>) -> (order: Vec<usize>)
    ensures
        is_permutation(order@, ids@.len()),
        sorts_stably(order@, ids@),
{
    let mut order: Vec<usize> = Vec::new();
    let mut i: usize = 0;
    while i < ids.len()
        invariant
            0 <= i <= ids.len(),
            is_permutation(order@, i as nat),
            sorts_stably(order@, ids@),
        decreases ids.len() - i,
    {
        let key = ids[i];
        let mut p: usize = 0;
        while p < order.len() && ids[order[p]] <= key
            invariant
                0 <= p <= order@.len(),
                is_permutation(order@, i as nat),
                i < ids.len(),
                key == ids@[i as int],
                forall|q: int| 0 <= q < p ==> ids@[order@[q] as int] <= key,
            decreases order@.len() - p,
        {
            p = p + 1;
        }
        let ghost before = order@;
        proof {
            assert forall|q: int| p <= q < before.len() implies ids@[before[q] as int] > key by {
                if q > p {
                    assert(ids@[before[p as int] as int] <= ids@[before[q] as int]);
                }
            }
        }
        order.insert(p, i);
        assert(order@ == before.insert(p as int, i));
        proof {
            assert forall|k: int| 0 <= k < i + 1 implies #[trigger] occurs(order@, k) by {
                if k == i {
                    assert(order@[p as int] == k);
                } else {
                    assert(occurs(before, k));
                    let a = choose|a: int| 0 <= a < before.len() && #[trigger] before[a] == k;
                    if a < p {
                        assert(order@[a] == k);
                    } else {
                        assert(order@[a + 1] == k);
                    }
                }
            }
            assert forall|a: int, b: int| 0 <= a < b < order@.len() implies order@[a] != order@[b] by {
                if a != p && b != p {
                    let a0 = if a < p { a } else { a - 1 };
                    let b0 = if b < p { b } else { b - 1 };
                    assert(order@[a] == before[a0] && order@[b] == before[b0]);
                }
            }
            assert forall|a: int, b: int| 0 <= a < b < order@.len() implies ids@[order@[a] as int] <= ids@[order@[b] as int] by {
                let a0 = if a < p { a } else { a - 1 };
                let b0 = if b < p { b } else { b - 1 };
                if a != p && b != p {
                    assert(order@[a] == before[a0] && order@[b] == before[b0]);
                }
            }
            assert forall|a: int, b: int| 0 <= a < b < order@.len() && ids@[order@[a] as int] == ids@[order@[b] as int]
                implies order@[a] < order@[b] by {
                let a0 = if a < p { a } else { a - 1 };
                let b0 = if b < p { b } else { b - 1 };
                if a != p && b != p {
                    assert(order@[a] == before[a0] && order@[b] == before[b0]);
                }
            }
        }
        i = i + 1;
    }
    order
}

/// A strictly increasing sequence of `n` numbers, each between 1 and `n`,
/// is 1, 2, ..., n.
proof fn lemma_increasing_fills(s: Seq<int>, n: int)
    requires
        s.len() == n,
        forall|a: int| 0 <= a < n ==> 1 <= #[trigger] s[a] <= n,
        forall|a: int, b: int| 0 <= a < b < n ==> s[a] < s[b],
    ensures
        forall|a: int| 0 <= a < n ==> #[trigger] s[a] == a + 1,
{
    assert forall|a: int| 0 <= a < n implies #[trigger] s[a] == a + 1 by {
        lemma_increasing_lower(s, n, a);
        lemma_increasing_upper(s, n, a);
    }
}

proof fn lemma_increasing_lower(s: Seq<int>, n: int, a: int)
    requires
        s.len() == n,
        0 <= a < n,
        forall|x: int| 0 <= x < n ==> 1 <= #[trigger] s[x] <= n,
        forall|x: int, y: int| 0 <= x < y < n ==> s[x] < s[y],
    ensures
        s[a] >= a + 1,
    decreases a,
{
    if a > 0 {
        lemma_increasing_lower(s, n, a - 1);
        assert(s[a - 1] < s[a]);
    }
}

proof fn lemma_increasing_upper(s: Seq<int>, n: int, a: int)
    requires
        s.len() == n,
        0 <= a < n,
        forall|x: int| 0 <= x < n ==> 1 <= #[trigger] s[x] <= n,
        forall|x: int, y: int| 0 <= x < y < n ==> s[x] < s[y],
    ensures
        s[a] <= a + 1,
    decreases n - a,
{
    if a < n - 1 {
        lemma_increasing_upper(s, n, a + 1);
        assert(s[a] < s[a + 1]);
    }
}

/// The records of a test come out numbered 1 to N in order: when the
/// request numbers of the plan's N requests arrive in any order (`arrival`
/// lists the plan indices in the order the records came in), ordering them
/// with `order_by_request_id` puts request number i + 1 at place i.
pub proof fn law_records_numbered_in_order(
    n: usize,
    parallel_limit: usize,
    n_bodies: usize,
    arrival: Seq<usize>,
    ids: Seq<usize>,
    order: Seq<usize>,
)
    requires
        n > 0 ==> parallel_limit > 0,
        is_permutation(arrival, n as nat),
        ids.len() == n,
        forall|k: int| 0 <= k < n ==> #[trigger] ids[k] == slot_at(arrival[k] as nat, parallel_limit as nat, n_bodies as nat).request_id,
        is_permutation(order, n as nat),
        sorts_stably(order, ids),
    ensures
        forall|i: int| 0 <= i < n ==> #[trigger] ids[order[i] as int] == i + 1,
{
    let s = Seq::new(n as nat, |i: int| ids[order[i] as int] as int);
    assert forall|a: int| 0 <= a < n implies 1 <= #[trigger] s[a] <= n by {
        let k = order[a] as int;
        assert(ids[k] == arrival[k] + 1);
    }
    assert forall|a: int, b: int| 0 <= a < b < n implies s[a] < s[b] by {
        let ka = order[a] as int;
        let kb = order[b] as int;
        assert(ids[ka] <= ids[kb]);
        assert(ids[ka] == arrival[ka] + 1);
        assert(ids[kb] == arrival[kb] + 1);
        assert(order[a] != order[b]);
        assert(arrival[ka] != arrival[kb]) by {
            if ka < kb {
                assert(arrival[ka] != arrival[kb]);
            } else {
                assert(arrival[kb] != arrival[ka]);
            }
        }
    }
    lemma_increasing_fills(s, n as int);
    assert forall|i: int| 0 <= i < n implies #[trigger] ids[order[i] as int] == i + 1 by {
        assert(s[i] == i + 1);
    }
}

/// With bodies from a file the test sends one request per body, whatever
/// count is configured; without, it sends the configured count.
pub proof fn law_total_follows_bodies(n_bodies: nat, configured: nat)
    ensures
        n_bodies > 0 ==> request_total(n_bodies, configured) == n_bodies,
        n_bodies == 0 ==> request_total(n_bodies, configured) == configured,
{
}

/// Request i (from 0) is numbered i + 1 and goes to worker i mod
/// `parallel_limit` + 1, so consecutive requests go to consecutive workers
/// and the workers take turns; with bodies from a file it sends body i,
/// and without it sends none.
pub proof fn law_plan_round_robin(total: usize, parallel_limit: usize, n_bodies: usize, i: int)
    requires
        parallel_limit > 0,
        0 <= i < total,
    ensures
        slot_at(i as nat, parallel_limit as nat, n_bodies as nat).request_id == i + 1,
        slot_at(i as nat, parallel_limit as nat, n_bodies as nat).worker_id == (i % parallel_limit as int) + 1,
        i + parallel_limit < total ==> slot_at((i + parallel_limit) as nat, parallel_limit as nat, n_bodies as nat).worker_id
            == slot_at(i as nat, parallel_limit as nat, n_bodies as nat).worker_id,
        i < parallel_limit ==> slot_at(i as nat, parallel_limit as nat, n_bodies as nat).worker_id == i + 1,
        n_bodies == total ==> slot_at(i as nat, parallel_limit as nat, n_bodies as nat).body_index == Some(i as usize),
        n_bodies == 0 ==> slot_at(i as nat, parallel_limit as nat, n_bodies as nat).body_index is None,
{
    vstd::arithmetic::div_mod::lemma_mod_bound(i, parallel_limit as int);
    vstd::arithmetic::div_mod::lemma_mod_add_multiples_vanish(i, parallel_limit as int);
    if i < parallel_limit {
        vstd::arithmetic::div_mod::lemma_small_mod(i as nat, parallel_limit as nat);
    }
}

} // verus!
