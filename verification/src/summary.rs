//! The counting part of a test summary: how many requests were sent, how
//! many succeeded and failed, and how the status codes are distributed.
use vstd::prelude::*;
use std::collections::HashMap;
use crate::outcome::ResponseOutcome;
use crate::text::{decimal, join, string_views, decimal_string, join_strings, push_str};

verus! {

broadcast use vstd::std_specs::hash::group_hash_axioms;

/// How often `c` occurs in `codes`.
pub open spec fn code_count(codes: Seq<u16>, c: u16) -> nat
    decreases codes.len(),
{
    if codes.len() == 0 {
        0
    } else {
        code_count(codes.drop_last(), c) + if codes.last() == c { 1nat } else { 0nat }
    }
}

/// How many outcomes succeeded.
pub open spec fn success_count(s: Seq<ResponseOutcome>) -> nat
    decreases s.len(),
{
    if s.len() == 0 {
        0
    } else {
        success_count(s.drop_last()) + if s.last().success { 1nat } else { 0nat }
    }
}

/// The status codes of the outcomes, in order.
pub open spec fn status_codes(s: Seq<ResponseOutcome>) -> Seq<u16> {
    s.map_values(|o: ResponseOutcome| o.status_code)
}

/// The codes below `n` that occur in `codes`, in ascending order, each with
/// how often it occurs.
pub open spec fn distribution(codes: Seq<u16>, n: nat) -> Seq<(u16, nat)>
    decreases n,
{
    if n == 0 {
        Seq::empty()
    } else {
        let prev = distribution(codes, (n - 1) as nat);
        let c = (n - 1) as u16;
        if code_count(codes, c) > 0 {
            prev.push((c, code_count(codes, c)))
        } else {
            prev
        }
    }
}

/// One entry of the distribution, as `code:count`.
pub open spec fn entry_text(e: (u16, nat)) -> Seq<char> {
    decimal(e.0 as nat) + ":"@ + decimal(e.1)
}

/// The distribution of all status codes, as `code:count` entries in
/// ascending order of code, separated by `, `.
pub open spec fn distribution_text(codes: Seq<u16>) -> Seq<char> {
    join(distribution(codes, 65536).map_values(|e: (u16, nat)| entry_text(e)), ", "@)
}

/// The counts of a finished test.
pub struct OutcomeCounts {
    pub total_sent: usize,
    pub successful: usize,
    pub failed: usize,
    pub status_code_distribution: String,
}

/// Counts the outcomes of a test.
pub fn count_outcomes(outcomes: &Vec<ResponseOutcome>) -> (r: OutcomeCounts)
    ensures
        r.total_sent == outcomes@.len(),
        r.successful == success_count(outcomes@),
        r.failed == r.total_sent - r.successful,
        r.status_code_distribution@ == distribution_text(status_codes(outcomes@)),
{
    let ghost codes = status_codes(outcomes@);
    let mut successful: usize = 0;
    let mut counts: HashMap<u16, usize> = HashMap::new();
    let mut i: usize = 0;
    assert(outcomes@.take(0) =~= Seq::<ResponseOutcome>::empty());
    while i < outcomes.len()
        invariant
            0 <= i <= outcomes.len(),
            codes == status_codes(outcomes@),
            successful == success_count(outcomes@.take(i as int)),
            successful <= i,
            forall|c: u16| #[trigger] counts@.contains_key(c) <==> code_count(codes.take(i as int), c) > 0,
            forall|c: u16| #[trigger] counts@.contains_key(c) ==> counts@[c] == code_count(codes.take(i as int), c),
            forall|c: u16| #[trigger] code_count(codes.take(i as int), c) <= i,
        decreases outcomes.len() - i,
    {
        let o = &outcomes[i];
        assert(outcomes@.take(i + 1).drop_last() =~= outcomes@.take(i as int));
        assert(codes.take(i + 1).drop_last() =~= codes.take(i as int));
        assert(codes.take(i + 1).last() == o.status_code);
        if o.success {
            successful = successful + 1;
        }
        let code = o.status_code;
        let current: usize = match counts.get(&code) {
            Some(n) => *n,
            None => 0,
        };
        assert(current == code_count(codes.take(i as int), code));
        counts.insert(code, current + 1);
        assert forall|k: u16| #[trigger] code_count(codes.take(i + 1), k) <= i + 1 by {
            assert(code_count(codes.take(i as int), k) <= i);
        }
        i = i + 1;
    }
    assert(outcomes@.take(outcomes.len() as int) =~= outcomes@);
    assert(codes.take(outcomes.len() as int) =~= codes);
    let mut entries: Vec<String> = Vec::new();
    let mut c: u32 = 0;
    while c < 65536
        invariant
            0 <= c <= 65536,
            forall|k: u16| #[trigger] counts@.contains_key(k) <==> code_count(codes, k) > 0,
            forall|k: u16| #[trigger] counts@.contains_key(k) ==> counts@[k] == code_count(codes, k),
            string_views(entries@) == distribution(codes, c as nat).map_values(|e: (u16, nat)| entry_text(e)),
        decreases 65536 - c,
    {
        let code = c as u16;
        let ghost before = entries@;
        match counts.get(&code) {
            Some(n) => {
                let mut entry = decimal_string(code as u64);
                push_str(&mut entry, ":");
                let num = decimal_string(*n as u64);
                push_str(&mut entry, num.as_str());
                entries.push(entry);
                assert(string_views(entries@) =~= string_views(before).push(entry_text((code, code_count(codes, code)))));
            },
            None => {},
        }
        assert(distribution(codes, (c + 1) as nat) == if code_count(codes, code) > 0 {
            distribution(codes, c as nat).push((code, code_count(codes, code)))
        } else {
            distribution(codes, c as nat)
        });
        assert(string_views(entries@) =~= distribution(codes, (c + 1) as nat).map_values(|e: (u16, nat)| entry_text(e)));
        c = c + 1;
    }
    let dist = join_strings(&entries, ", ");
    OutcomeCounts {
        total_sent: outcomes.len(),
        successful,
        failed: outcomes.len() - successful,
        status_code_distribution: dist,
    }
}

/// The sum of the counts of a distribution.
pub open spec fn count_sum(d: Seq<(u16, nat)>) -> nat
    decreases d.len(),
{
    if d.len() == 0 {
        0
    } else {
        count_sum(d.drop_last()) + d.last().1
    }
}

/// How many of `codes` are below `n`.
pub open spec fn count_below(codes: Seq<u16>, n: nat) -> nat
    decreases codes.len(),
{
    if codes.len() == 0 {
        0
    } else {
        count_below(codes.drop_last(), n) + if (codes.last() as nat) < n { 1nat } else { 0nat }
    }
}

proof fn lemma_count_below_step(codes: Seq<u16>, n: nat)
    requires
        0 < n <= 65536,
    ensures
        count_below(codes, n) == count_below(codes, (n - 1) as nat) + code_count(codes, (n - 1) as u16),
    decreases codes.len(),
{
    if codes.len() > 0 {
        lemma_count_below_step(codes.drop_last(), n);
    }
}

proof fn lemma_count_below_all(codes: Seq<u16>)
    ensures
        count_below(codes, 65536) == codes.len(),
    decreases codes.len(),
{
    if codes.len() > 0 {
        lemma_count_below_all(codes.drop_last());
    }
}

proof fn lemma_distribution_sum(codes: Seq<u16>, n: nat)
    requires
        n <= 65536,
    ensures
        count_sum(distribution(codes, n)) == count_below(codes, n),
    decreases n,
{
    if n == 0 {
        lemma_count_below_zero(codes);
    } else {
        lemma_distribution_sum(codes, (n - 1) as nat);
        lemma_count_below_step(codes, n);
        let prev = distribution(codes, (n - 1) as nat);
        let c = (n - 1) as u16;
        if code_count(codes, c) > 0 {
            assert(prev.push((c, code_count(codes, c))).drop_last() =~= prev);
        }
    }
}

proof fn lemma_count_below_zero(codes: Seq<u16>)
    ensures
        count_below(codes, 0) == 0,
    decreases codes.len(),
{
    if codes.len() > 0 {
        lemma_count_below_zero(codes.drop_last());
    }
}

/// The status code distribution accounts for every request exactly once:
/// its counts add up to the number of requests sent.
pub proof fn law_distribution_counts_every_request(outcomes: Seq<ResponseOutcome>)
    ensures
        count_sum(distribution(status_codes(outcomes), 65536)) == outcomes.len(),
{
    lemma_distribution_sum(status_codes(outcomes), 65536);
    lemma_count_below_all(status_codes(outcomes));
}

/// Successful requests are never more than the requests sent.
pub proof fn law_successes_within_total(outcomes: Seq<ResponseOutcome>)
    ensures
        success_count(outcomes) <= outcomes.len(),
    decreases outcomes.len(),
{
    if outcomes.len() > 0 {
        law_successes_within_total(outcomes.drop_last());
    }
}

/// The distribution lists each status code that occurs, once, in ascending
/// order, with a count of at least one.
pub proof fn law_distribution_ascending(codes: Seq<u16>, n: nat)
    requires
        n <= 65536,
    ensures
        forall|a: int, b: int| 0 <= a < b < distribution(codes, n).len()
            ==> distribution(codes, n)[a].0 < distribution(codes, n)[b].0,
        forall|a: int| 0 <= a < distribution(codes, n).len() ==> (distribution(codes, n)[a].0 as nat) < n
            && #[trigger] distribution(codes, n)[a].1 == code_count(codes, distribution(codes, n)[a].0)
            && distribution(codes, n)[a].1 > 0,
    decreases n,
{
    if n > 0 {
        law_distribution_ascending(codes, (n - 1) as nat);
        let prev = distribution(codes, (n - 1) as nat);
        let c = (n - 1) as u16;
        assert(c as nat == n - 1);
        let d = distribution(codes, n);
        if code_count(codes, c) > 0 {
            assert(d == prev.push((c, code_count(codes, c))));
            assert forall|a: int| 0 <= a < d.len() implies (d[a].0 as nat) < n
                && #[trigger] d[a].1 == code_count(codes, d[a].0) && d[a].1 > 0 by {
                if a < prev.len() {
                    assert(d[a] == prev[a]);
                    assert(prev[a].1 == code_count(codes, prev[a].0));
                    assert((prev[a].0 as nat) < n - 1);
                } else {
                    assert(d[a] == (c, code_count(codes, c)));
                }
            }
            assert forall|a: int, b: int| 0 <= a < b < d.len() implies d[a].0 < d[b].0 by {
                assert(d[a] == prev[a]);
                assert(prev[a].1 == code_count(codes, prev[a].0));
                if b < prev.len() {
                    assert(d[b] == prev[b]);
                    assert(prev[a].0 < prev[b].0);
                }
            }
        } else {
            assert(d == prev);
            assert forall|a: int| 0 <= a < d.len() implies (d[a].0 as nat) < n
                && #[trigger] d[a].1 == code_count(codes, d[a].0) && d[a].1 > 0 by {
                assert(prev[a].1 == code_count(codes, prev[a].0));
                assert((prev[a].0 as nat) < n - 1);
            }
        }
    }
    assert forall|a: int| 0 <= a < distribution(codes, n).len() implies (distribution(codes, n)[a].0 as nat) < n by {
        assert(distribution(codes, n)[a].1 == code_count(codes, distribution(codes, n)[a].0));
    }
}

/// The number of successful requests is the number of outcomes whose
/// success flag is set, whatever else they hold.
pub proof fn law_successes_are_flagged_outcomes(s: Seq<ResponseOutcome>)
    ensures
        success_count(s) == s.filter(|o: ResponseOutcome| o.success).len(),
    decreases s.len(),
{
    reveal_with_fuel(Seq::filter, 1);
    if s.len() > 0 {
        law_successes_are_flagged_outcomes(s.drop_last());
    }
}

/// A code's count in the distribution is the number of outcomes with that
/// status code.
pub proof fn law_code_count_is_occurrences(codes: Seq<u16>, c: u16)
    ensures
        code_count(codes, c) == codes.filter(|x: u16| x == c).len(),
    decreases codes.len(),
{
    reveal_with_fuel(Seq::filter, 1);
    if codes.len() > 0 {
        law_code_count_is_occurrences(codes.drop_last(), c);
    }
}

proof fn lemma_code_count_concat(a: Seq<u16>, b: Seq<u16>, x: u16)
    ensures
        code_count(a + b, x) == code_count(a, x) + code_count(b, x),
    decreases b.len(),
{
    if b.len() == 0 {
        assert(a + b =~= a);
    } else {
        lemma_code_count_concat(a, b.drop_last(), x);
        assert((a + b).drop_last() =~= a + b.drop_last());
    }
}

proof fn lemma_code_count_absent(a: Seq<u16>, x: u16)
    requires
        forall|k: int| 0 <= k < a.len() ==> a[k] != x,
    ensures
        code_count(a, x) == 0,
    decreases a.len(),
{
    if a.len() > 0 {
        lemma_code_count_absent(a.drop_last(), x);
    }
}

proof fn lemma_distribution_empty_below(b: Seq<u16>, c: nat, n: nat)
    requires
        n <= c,
        forall|k: int| 0 <= k < b.len() ==> b[k] as nat >= c,
    ensures
        distribution(b, n) == Seq::<(u16, nat)>::empty(),
    decreases n,
{
    if n > 0 {
        lemma_distribution_empty_below(b, c, (n - 1) as nat);
        lemma_code_count_absent(b, (n - 1) as u16);
    }
}

proof fn lemma_distribution_concat(a: Seq<u16>, b: Seq<u16>, c: nat, n: nat)
    requires
        n <= 65536,
        forall|k: int| 0 <= k < a.len() ==> (a[k] as nat) < c,
        forall|k: int| 0 <= k < b.len() ==> b[k] as nat >= c,
    ensures
        distribution(a + b, n) == distribution(a, n) + distribution(b, n),
    decreases n,
{
    if n == 0 {
        assert(distribution(a + b, n) =~= distribution(a, n) + distribution(b, n));
    } else {
        lemma_distribution_concat(a, b, c, (n - 1) as nat);
        let x = (n - 1) as u16;
        assert(x as nat == n - 1);
        lemma_code_count_concat(a, b, x);
        let da = distribution(a, (n - 1) as nat);
        let db = distribution(b, (n - 1) as nat);
        if (x as nat) < c {
            lemma_code_count_absent(b, x);
            lemma_distribution_empty_below(b, c, (n - 1) as nat);
            lemma_distribution_empty_below(b, c, n);
            if code_count(a, x) > 0 {
                assert(distribution(a + b, n) =~= distribution(a, n) + distribution(b, n));
            }
        } else {
            lemma_code_count_absent(a, x);
            if code_count(b, x) > 0 {
                assert(distribution(a + b, n) =~= distribution(a, n) + distribution(b, n));
            }
        }
    }
}

proof fn lemma_join_concat(p: Seq<Seq<char>>, q: Seq<Seq<char>>, sep: Seq<char>)
    requires
        p.len() > 0,
        q.len() > 0,
    ensures
        join(p + q, sep) == join(p, sep) + sep + join(q, sep),
    decreases q.len(),
{
    if q.len() == 1 {
        assert((p + q).drop_last() =~= p);
        assert((p + q).last() == q[0]);
    } else {
        lemma_join_concat(p, q.drop_last(), sep);
        assert((p + q).drop_last() =~= p + q.drop_last());
        assert((p + q).last() == q.last());
        assert(join(p + q, sep) =~= join(p, sep) + sep + join(q, sep));
    }
}

/// The distribution of codes that all lie below `c`, followed by codes
/// that all lie at or above it, is the first distribution, `, `, then the
/// second (when both have codes).
pub proof fn law_distribution_text_concat(a: Seq<u16>, b: Seq<u16>, c: nat)
    requires
        a.len() > 0,
        b.len() > 0,
        forall|k: int| 0 <= k < a.len() ==> (a[k] as nat) < c,
        forall|k: int| 0 <= k < b.len() ==> b[k] as nat >= c,
    ensures
        distribution_text(a + b) == distribution_text(a) + ", "@ + distribution_text(b),
{
    lemma_distribution_concat(a, b, c, 65536);
    let f = |e: (u16, nat)| entry_text(e);
    let da = distribution(a, 65536);
    let db = distribution(b, 65536);
    assert((da + db).map_values(f) =~= da.map_values(f) + db.map_values(f));
    lemma_distribution_nonempty(a);
    lemma_distribution_nonempty(b);
    lemma_join_concat(da.map_values(f), db.map_values(f), ", "@);
}

proof fn lemma_distribution_nonempty(codes: Seq<u16>)
    ensures
        count_sum(distribution(codes, 65536)) == codes.len(),
        codes.len() > 0 ==> distribution(codes, 65536).len() > 0,
{
    lemma_distribution_sum(codes, 65536);
    lemma_count_below_all(codes);
    if distribution(codes, 65536).len() == 0 {
        assert(count_sum(distribution(codes, 65536)) == 0);
    }
}

proof fn lemma_distribution_single(codes: Seq<u16>, c: u16, n: nat)
    requires
        n <= 65536,
        codes.len() > 0,
        forall|k: int| 0 <= k < codes.len() ==> codes[k] == c,
    ensures
        distribution(codes, n) == (if (c as nat) < n { seq![(c, codes.len())] } else { Seq::<(u16, nat)>::empty() }),
    decreases n,
{
    if n > 0 {
        lemma_distribution_single(codes, c, (n - 1) as nat);
        let x = (n - 1) as u16;
        assert(x as nat == n - 1);
        if x == c {
            lemma_code_count_all(codes, c);
            assert(distribution(codes, n) =~= seq![(c, codes.len())]);
        } else {
            lemma_code_count_absent(codes, x);
        }
    }
}

proof fn lemma_code_count_all(codes: Seq<u16>, c: u16)
    requires
        forall|k: int| 0 <= k < codes.len() ==> codes[k] == c,
    ensures
        code_count(codes, c) == codes.len(),
    decreases codes.len(),
{
    if codes.len() > 0 {
        lemma_code_count_all(codes.drop_last(), c);
    }
}

/// When every request got the same status code, the distribution is that
/// code, `:`, and the number of requests.
pub proof fn law_distribution_text_single_code(codes: Seq<u16>, c: u16)
    requires
        codes.len() > 0,
        forall|k: int| 0 <= k < codes.len() ==> codes[k] == c,
    ensures
        distribution_text(codes) == decimal(c as nat) + ":"@ + decimal(codes.len()),
{
    lemma_distribution_single(codes, c, 65536);
    let d = distribution(codes, 65536);
    assert(d.map_values(|e: (u16, nat)| entry_text(e)) =~= seq![entry_text((c, codes.len()))]);
}

} // verus!
