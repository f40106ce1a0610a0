//! Run-wide aggregation: merging the summaries of many directions.
//!
//! Directions run independently; after each one's own barrier join its
//! summary is merged, by plain field-wise addition, into the run-wide
//! total.  A direction that failed its precondition check yields no
//! summary and contributes nothing — its slot is `None`.

use vstd::prelude::*;
use crate::summary::Summary;

verus! {

/// The sum of one counter, read by `field`, over the directions that ran;
/// a direction without a summary contributes nothing.
pub open spec fn merged_count(results: Seq<Option<Summary>>, field: spec_fn(Summary) -> nat) -> nat
    decreases results.len(),
{
    if results.len() == 0 {
        0
    } else {
        merged_count(results.drop_last(), field) + match results.last() {
            Some(s) => field(s),
            None => 0nat,
        }
    }
}

/// One more direction adds exactly its own counter, or nothing.
proof fn lemma_merged_take_step(
    results: Seq<Option<Summary>>,
    field: spec_fn(Summary) -> nat,
    i: int,
)
    requires
        0 <= i < results.len(),
    ensures
        merged_count(results.take(i + 1), field) == merged_count(results.take(i), field) + match
        results[i] {
            Some(s) => field(s),
            None => 0nat,
        },
{
    assert(results.take(i + 1).drop_last() =~= results.take(i));
}

/// The sum over a prefix never exceeds the sum over the whole.
proof fn lemma_merged_monotonic(results: Seq<Option<Summary>>, field: spec_fn(Summary) -> nat, i: int)
    requires
        0 <= i <= results.len(),
    ensures
        merged_count(results.take(i), field) <= merged_count(results, field),
    decreases results.len() - i,
{
    if i < results.len() {
        lemma_merged_take_step(results, field, i);
        lemma_merged_monotonic(results, field, i + 1);
    } else {
        assert(results.take(i) =~= results);
    }
}

/// Merges the per-direction summaries into the run-wide total by
/// field-wise addition.  A direction that failed its precondition check
/// (`None`) is excluded entirely, not zero-filled: the total is exactly the
/// field-wise sum over the directions that ran.
#[verifier::loop_isolation(false)]
pub fn merge_summaries(results: &Vec<Option<Summary>>) -> (r: Summary)
    requires
        merged_count(results@, |s: Summary| s.new as nat) <= usize::MAX,
        merged_count(results@, |s: Summary| s.existing as nat) <= usize::MAX,
        merged_count(results@, |s: Summary| s.updated as nat) <= usize::MAX,
        merged_count(results@, |s: Summary| s.errors as nat) <= usize::MAX,
        merged_count(results@, |s: Summary| s.total as nat) <= usize::MAX,
    ensures
        r.new == merged_count(results@, |s: Summary| s.new as nat),
        r.existing == merged_count(results@, |s: Summary| s.existing as nat),
        r.updated == merged_count(results@, |s: Summary| s.updated as nat),
        r.errors == merged_count(results@, |s: Summary| s.errors as nat),
        r.total == merged_count(results@, |s: Summary| s.total as nat),
{
    let mut total = Summary::default();
    let mut i: usize = 0;
    proof {
        assert(results@.take(0) =~= Seq::<Option<Summary>>::empty());
    }
    while i < results.len()
        invariant
            i <= results@.len(),
            total.new == merged_count(results@.take(i as int), |s: Summary| s.new as nat),
            total.existing == merged_count(results@.take(i as int), |s: Summary| s.existing as nat),
            total.updated == merged_count(results@.take(i as int), |s: Summary| s.updated as nat),
            total.errors == merged_count(results@.take(i as int), |s: Summary| s.errors as nat),
            total.total == merged_count(results@.take(i as int), |s: Summary| s.total as nat),
        decreases results@.len() - i,
    {
        proof {
            lemma_merged_take_step(results@, |s: Summary| s.new as nat, i as int);
            lemma_merged_take_step(results@, |s: Summary| s.existing as nat, i as int);
            lemma_merged_take_step(results@, |s: Summary| s.updated as nat, i as int);
            lemma_merged_take_step(results@, |s: Summary| s.errors as nat, i as int);
            lemma_merged_take_step(results@, |s: Summary| s.total as nat, i as int);
            lemma_merged_monotonic(results@, |s: Summary| s.new as nat, i + 1 as int);
            lemma_merged_monotonic(results@, |s: Summary| s.existing as nat, i + 1 as int);
            lemma_merged_monotonic(results@, |s: Summary| s.updated as nat, i + 1 as int);
            lemma_merged_monotonic(results@, |s: Summary| s.errors as nat, i + 1 as int);
            lemma_merged_monotonic(results@, |s: Summary| s.total as nat, i + 1 as int);
        }
        match &results[i] {
            Some(s) => {
                total.add_assign(s);
            },
            None => {},
        }
        i = i + 1;
    }
    proof {
        assert(results@.take(results@.len() as int) =~= results@);
    }
    total
}

} // verus!
