//! Result records and the ranker.
//!
//! A `QueryResult` records one executed standalone query: its measured
//! duration, the query text, the raw response payload, and whether the
//! exchange was a success or a failure. `rank` orders a batch of
//! records so that all successes precede all failures and each group
//! ascends by duration; records with equal status and duration keep
//! their original relative order (the sort is stable by construction:
//! `rank_spec` inserts each record after every earlier record whose
//! key is less than or equal to its own).

use vstd::multiset::Multiset;
use vstd::prelude::*;
use vstd::seq_lib::lemma_multiset_commutative;

verus! {

/// Whether one exchange succeeded (the response carried `data`) or
/// failed (it carried `errors` instead).
#[derive(Clone, Copy, Debug, PartialEq, Eq, Structural)]
pub enum Status {
    Success,
    Failure,
}

impl Status {
    /// The short label a report prints for this status.
    pub fn label(&self) -> (r: &'static str)
        ensures
            self is Success ==> r@ == "OK"@,
            self is Failure ==> r@ == "ERR"@,
    {
        match self {
            Status::Success => "OK",
            Status::Failure => "ERR",
        }
    }
}

/// The record of one executed standalone query.
pub struct QueryResult {
    /// Wall-clock time of the request/response exchange alone, in
    /// nanoseconds; connection setup is excluded by the caller.
    pub duration_nanos: u64,
    /// The standalone query that was sent.
    pub query: String,
    /// The raw response payload, kept for diagnosis of failures.
    pub response: String,
    pub status: Status,
}

impl QueryResult {
    /// The raw response payload, for a diagnostic dump of a failure.
    pub fn dump_response(&self) -> (r: String)
        ensures
            r@ == self.response@,
    {
        self.response.clone()
    }
}

/// Position of a status in the report: successes come first.
pub open spec fn status_group(s: Status) -> int {
    if s is Success {
        0
    } else {
        1
    }
}

/// The ranking order: `a` may stand at or before `b`.
pub open spec fn le_key(a: QueryResult, b: QueryResult) -> bool {
    status_group(a.status) < status_group(b.status) || (a.status == b.status
        && a.duration_nanos <= b.duration_nanos)
}

/// Every pair of records in `s` is ordered by the ranking order.
pub open spec fn sorted_by_key(s: Seq<QueryResult>) -> bool {
    forall|i: int, j: int| 0 <= i < j < s.len() ==> le_key(s[i], s[j])
}

/// Inserts `x` after every leading record whose key is at or below its
/// own, which keeps earlier records with an equal key ahead of `x`.
pub open spec fn insert_ranked_spec(x: QueryResult, s: Seq<QueryResult>) -> Seq<QueryResult>
    decreases s.len(),
{
    if s.len() == 0 {
        seq![x]
    } else if le_key(s[0], x) {
        seq![s[0]] + insert_ranked_spec(x, s.drop_first())
    } else {
        seq![x] + s
    }
}

/// The ranked order of `s`: a stable insertion sort under `le_key`.
pub open spec fn rank_spec(s: Seq<QueryResult>) -> Seq<QueryResult>
    decreases s.len(),
{
    if s.len() == 0 {
        Seq::empty()
    } else {
        insert_ranked_spec(s.last(), rank_spec(s.drop_last()))
    }
}

proof fn lemma_le_key_total(a: QueryResult, b: QueryResult)
    ensures
        le_key(a, b) || le_key(b, a),
        le_key(a, b) && le_key(b, a) ==> a.status == b.status && a.duration_nanos
            == b.duration_nanos,
{
}

proof fn lemma_le_key_trans(a: QueryResult, b: QueryResult, c: QueryResult)
    requires
        le_key(a, b),
        le_key(b, c),
    ensures
        le_key(a, c),
{
}

proof fn lemma_insert_ranked_spec(x: QueryResult, s: Seq<QueryResult>)
    requires
        sorted_by_key(s),
    ensures
        sorted_by_key(insert_ranked_spec(x, s)),
        insert_ranked_spec(x, s).to_multiset() =~= s.to_multiset().insert(x),
        insert_ranked_spec(x, s).len() == s.len() + 1,
        forall|k: int|
            0 <= k < insert_ranked_spec(x, s).len() ==> insert_ranked_spec(x, s)[k] == x
                || s.contains(#[trigger] insert_ranked_spec(x, s)[k]),
    decreases s.len(),
{
    broadcast use vstd::seq_lib::group_to_multiset_ensures;

    let ins = insert_ranked_spec(x, s);
    if s.len() == 0 {
        assert(ins =~= Seq::empty().push(x));
        assert(ins.to_multiset() =~= s.to_multiset().insert(x));
    } else if le_key(s[0], x) {
        let d = s.drop_first();
        assert(sorted_by_key(d)) by {
            assert(forall|i: int, j: int|
                0 <= i < j < d.len() ==> le_key(s[i + 1], s[j + 1]) && d[i] == s[i + 1] && d[j]
                    == s[j + 1]);
        }
        lemma_insert_ranked_spec(x, d);
        let rest = insert_ranked_spec(x, d);
        assert(ins =~= seq![s[0]] + rest);
        // The head is at or below every record that follows it.
        assert forall|k: int| 0 <= k < rest.len() implies le_key(s[0], rest[k]) by {
            if rest[k] == x {
            } else {
                let m = choose|m: int| 0 <= m < d.len() && d[m] == rest[k];
                assert(le_key(s[0], s[m + 1]));
            }
        }
        assert(sorted_by_key(ins)) by {
            assert(forall|i: int, j: int|
                1 <= i < j < ins.len() ==> ins[i] == rest[i - 1] && ins[j] == rest[j - 1]);
        }
        assert(ins.to_multiset() =~= s.to_multiset().insert(x)) by {
            lemma_multiset_commutative(seq![s[0]], rest);
            lemma_multiset_commutative(seq![s[0]], d);
            assert(s =~= seq![s[0]] + d);
            assert(seq![s[0]].to_multiset() =~= Multiset::empty().insert(s[0])) by {
                assert(seq![s[0]] =~= Seq::empty().push(s[0]));
            }
        }
        assert(forall|k: int| 0 <= k < ins.len() ==> ins[k] == x || s.contains(#[trigger] ins[k]))
            by {
            assert(s[0] == ins[0] && s.contains(s[0]));
            assert forall|k: int| 1 <= k < ins.len() && ins[k] != x implies s.contains(ins[k]) by {
                assert(ins[k] == rest[k - 1]);
                let m = choose|m: int| 0 <= m < d.len() && d[m] == rest[k - 1];
                assert(s[m + 1] == d[m]);
            }
        }
    } else {
        assert(ins =~= seq![x] + s);
        // `x` is strictly below the head, hence below every record.
        assert forall|k: int| 0 <= k < s.len() implies le_key(x, s[k]) by {
            lemma_le_key_total(x, s[0]);
            if k > 0 {
                lemma_le_key_trans(x, s[0], s[k]);
            }
        }
        assert(ins.to_multiset() =~= s.to_multiset().insert(x)) by {
            lemma_multiset_commutative(seq![x], s);
            assert(seq![x].to_multiset() =~= Multiset::empty().insert(x)) by {
                assert(seq![x] =~= Seq::empty().push(x));
            }
        }
    }
}

/// Ranking law: the ranked sequence is ordered by `le_key` (all
/// successes precede all failures, and each status group ascends by
/// duration) and holds exactly the records of the input.
pub proof fn lemma_rank_spec_sorted(s: Seq<QueryResult>)
    ensures
        sorted_by_key(rank_spec(s)),
        rank_spec(s).to_multiset() =~= s.to_multiset(),
        rank_spec(s).len() == s.len(),
    decreases s.len(),
{
    broadcast use vstd::seq_lib::group_to_multiset_ensures;

    if s.len() == 0 {
    } else {
        let d = s.drop_last();
        lemma_rank_spec_sorted(d);
        lemma_insert_ranked_spec(s.last(), rank_spec(d));
        assert(s =~= d.push(s.last()));
        assert(s.to_multiset() =~= d.to_multiset().insert(s.last()));
    }
}

/// Ranking law: no success follows a failure in the ranked order.
pub proof fn lemma_rank_spec_successes_first(s: Seq<QueryResult>, i: int, j: int)
    requires
        0 <= i < j < rank_spec(s).len(),
        rank_spec(s)[j].status is Success,
    ensures
        rank_spec(s)[i].status is Success,
{
    lemma_rank_spec_sorted(s);
    assert(le_key(rank_spec(s)[i], rank_spec(s)[j]));
}

fn le_key_exec(a: &QueryResult, b: &QueryResult) -> (r: bool)
    ensures
        r == le_key(*a, *b),
{
    if a.status == b.status {
        a.duration_nanos <= b.duration_nanos
    } else {
        matches!(a.status, Status::Success)
    }
}

fn insert_ranked(x: QueryResult, s: Vec<QueryResult>) -> (r: Vec<QueryResult>)
    ensures
        r@ == insert_ranked_spec(x, s@),
    decreases s@.len(),
{
    if s.len() == 0 {
        let mut out = s;
        out.push(x);
        proof {
            assert(out@ =~= insert_ranked_spec(x, Seq::empty()));
        }
        out
    } else if le_key_exec(&s[0], &x) {
        let mut s = s;
        let ghost s0 = s@;
        let head = s.remove(0);
        proof {
            assert(s@ =~= s0.drop_first());
        }
        let mut rest = insert_ranked(x, s);
        rest.insert(0, head);
        proof {
            assert(rest@ =~= seq![s0[0]] + insert_ranked_spec(x, s0.drop_first()));
        }
        rest
    } else {
        let mut s = s;
        s.insert(0, x);
        proof {
            assert(s@ =~= insert_ranked_spec(x, s@.drop_first())) by {
                assert(s@.drop_first() =~= s@.subrange(1, s@.len() as int));
            }
        }
        s
    }
}

/// Orders the accumulated records for the final report: successes
/// first, then failures, each group by ascending duration, ties kept
/// in their original relative order.
pub fn rank(results: Vec<QueryResult>) -> (r: Vec<QueryResult>)
    ensures
        r@ == rank_spec(results@),
    decreases results@.len(),
{
    let mut results = results;
    if results.len() == 0 {
        results
    } else {
        let ghost s0 = results@;
        let last = results.pop().unwrap();
        proof {
            assert(results@ =~= s0.drop_last());
        }
        let sorted = rank(results);
        insert_ranked(last, sorted)
    }
}

} // verus!
