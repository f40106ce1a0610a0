//! Per-direction and run-wide counters of what a mirroring pass did.

use vstd::prelude::*;

verus! {

/// What a dispatched copy operation was meant to do: create a missing
/// destination file, or overwrite a stale one.
#[derive(Clone, Copy, Debug, PartialEq, Eq, Structural)]
pub enum CopyKind {
    Create,
    Update,
}

/// Outcome counts of one direction (or, after merging, of a whole run):
/// files newly copied, files left alone because they were current, files
/// overwritten, per-entry failures, and the number of classified files.
#[derive(Clone, Copy, Debug, PartialEq, Eq, Structural)]
pub struct Summary {
    pub new: usize,
    pub existing: usize,
    pub updated: usize,
    pub errors: usize,
    pub total: usize,
}

/// How many of the `(kind, success)` copy outcomes succeeded with the given
/// kind.
pub open spec fn copied_count(results: Seq<(CopyKind, bool)>, kind: CopyKind) -> nat
    decreases results.len(),
{
    if results.len() == 0 {
        0
    } else {
        copied_count(results.drop_last(), kind) + if results.last().1 && results.last().0 == kind {
            1nat
        } else {
            0nat
        }
    }
}

/// How many of the `(kind, success)` copy outcomes failed.
pub open spec fn failed_count(results: Seq<(CopyKind, bool)>) -> nat
    decreases results.len(),
{
    if results.len() == 0 {
        0
    } else {
        failed_count(results.drop_last()) + if !results.last().1 {
            1nat
        } else {
            0nat
        }
    }
}

impl Default for Summary {
    /// The empty summary: nothing counted yet.
    fn default() -> (r: Summary)
        ensures
            r == (Summary { new: 0, existing: 0, updated: 0, errors: 0, total: 0 }),
    {
        Summary { new: 0, existing: 0, updated: 0, errors: 0, total: 0 }
    }
}

impl Summary {
    /// Field-wise addition, used to merge one direction's summary into the
    /// run-wide total.
    pub fn add_assign(&mut self, rhs: &Summary)
        requires
            old(self).new + rhs.new <= usize::MAX,
            old(self).existing + rhs.existing <= usize::MAX,
            old(self).updated + rhs.updated <= usize::MAX,
            old(self).errors + rhs.errors <= usize::MAX,
            old(self).total + rhs.total <= usize::MAX,
        ensures
            final(self).new == old(self).new + rhs.new,
            final(self).existing == old(self).existing + rhs.existing,
            final(self).updated == old(self).updated + rhs.updated,
            final(self).errors == old(self).errors + rhs.errors,
            final(self).total == old(self).total + rhs.total,
    {
        self.new = self.new + rhs.new;
        self.errors = self.errors + rhs.errors;
        self.updated = self.updated + rhs.updated;
        self.existing = self.existing + rhs.existing;
        self.total = self.total + rhs.total;
    }

    /// Folds the outcomes of the dispatched copy operations into this
    /// summary: a failure counts as an error, a success as a new or an
    /// updated file according to what the copy was meant to do.
    pub fn summarize(self, results: &Vec<(CopyKind, bool)>) -> (r: Summary)
        requires
            self.new + copied_count(results@, CopyKind::Create) <= usize::MAX,
            self.updated + copied_count(results@, CopyKind::Update) <= usize::MAX,
            self.errors + failed_count(results@) <= usize::MAX,
        ensures
            r.new == self.new + copied_count(results@, CopyKind::Create),
            r.updated == self.updated + copied_count(results@, CopyKind::Update),
            r.errors == self.errors + failed_count(results@),
            r.existing == self.existing,
            r.total == self.total,
    {
        let mut out = self;
        let mut i: usize = 0;
        while i < results.len()
            invariant
                i <= results@.len(),
                out.new == self.new + copied_count(results@.take(i as int), CopyKind::Create),
                out.updated == self.updated + copied_count(
                    results@.take(i as int),
                    CopyKind::Update,
                ),
                out.errors == self.errors + failed_count(results@.take(i as int)),
                out.existing == self.existing,
                out.total == self.total,
                self.new + copied_count(results@, CopyKind::Create) <= usize::MAX,
                self.updated + copied_count(results@, CopyKind::Update) <= usize::MAX,
                self.errors + failed_count(results@) <= usize::MAX,
            decreases results@.len() - i,
        {
            proof {
                lemma_counts_take_step(results@, i as int);
                lemma_counts_monotonic(results@, i + 1 as int);
            }
            let (kind, ok) = results[i];
            if !ok {
                out.errors = out.errors + 1;
            } else {
                match kind {
                    CopyKind::Create => {
                        out.new = out.new + 1;
                    },
                    CopyKind::Update => {
                        out.updated = out.updated + 1;
                    },
                }
            }
            i = i + 1;
        }
        proof {
            assert(results@.take(results@.len() as int) =~= results@);
        }
        out
    }
}

/// Extending a prefix of the outcomes by one entry raises exactly the count
/// that the entry belongs to.
proof fn lemma_counts_take_step(results: Seq<(CopyKind, bool)>, i: int)
    requires
        0 <= i < results.len(),
    ensures
        copied_count(results.take(i + 1), CopyKind::Create) == copied_count(
            results.take(i),
            CopyKind::Create,
        ) + if results[i].1 && results[i].0 == CopyKind::Create {
            1nat
        } else {
            0nat
        },
        copied_count(results.take(i + 1), CopyKind::Update) == copied_count(
            results.take(i),
            CopyKind::Update,
        ) + if results[i].1 && results[i].0 == CopyKind::Update {
            1nat
        } else {
            0nat
        },
        failed_count(results.take(i + 1)) == failed_count(results.take(i)) + if !results[i].1 {
            1nat
        } else {
            0nat
        },
{
    assert(results.take(i + 1).drop_last() =~= results.take(i));
}

/// The success and failure counts never exceed the number of outcomes.
pub proof fn lemma_outcome_counts_le_len(results: Seq<(CopyKind, bool)>)
    ensures
        copied_count(results, CopyKind::Create) <= results.len(),
        copied_count(results, CopyKind::Update) <= results.len(),
        failed_count(results) <= results.len(),
    decreases results.len(),
{
    if results.len() > 0 {
        lemma_outcome_counts_le_len(results.drop_last());
    }
}

/// The counts over a prefix never exceed the counts over the whole.
proof fn lemma_counts_monotonic(results: Seq<(CopyKind, bool)>, i: int)
    requires
        0 <= i <= results.len(),
    ensures
        copied_count(results.take(i), CopyKind::Create) <= copied_count(results, CopyKind::Create),
        copied_count(results.take(i), CopyKind::Update) <= copied_count(results, CopyKind::Update),
        failed_count(results.take(i)) <= failed_count(results),
    decreases results.len() - i,
{
    if i < results.len() {
        lemma_counts_take_step(results, i);
        lemma_counts_monotonic(results, i + 1);
    } else {
        assert(results.take(i) =~= results);
    }
}

} // verus!
