//! The per-direction mirroring engine.
//!
//! A [`DirectionRun`] owns the walk's work-list of pending directories and
//! the running counters of one direction.  The driver performs the
//! filesystem work: it pops a directory, creates its destination, lists it,
//! and reports every child back — subdirectories are pushed onto the
//! work-list, files are classified from the observed stats.  Create and
//! Update decisions are handed back for dispatch; their outcomes are folded
//! into the direction's [`Summary`] at the end.
//!
//! A ghost history of every classification ties the counters to the exact
//! sequence of decisions, so the final summary is determined, entry by
//! entry, by what the driver observed.

use vstd::prelude::*;
use vstd::string::*;
use crate::copy_directions::{str_views, CopyDirection};
use crate::pattern::{any_match, matches_any, texts_of};
use crate::summary::{copied_count, failed_count, CopyKind, Summary};

verus! {

/// What a stat of one path observed: no entry at all, an entry with the
/// given modification time, or a filesystem error.
#[derive(Clone, Copy, Debug, PartialEq, Eq, Structural)]
pub enum Stat {
    Missing,
    Modified(u128),
    Unknown,
}

/// The disposition of one classified file entry.
#[derive(Clone, Copy, Debug, PartialEq, Eq, Structural)]
pub enum Disposition {
    /// A skip pattern matched: not copied, counted only in the total.
    Skipped,
    /// No destination file: copy it, counting `new` on success.
    Create,
    /// The destination is older than the source: copy it, counting
    /// `updated` on success.
    Update,
    /// The destination is no older than the source: left alone, counted as
    /// `existing`.
    Unchanged,
    /// The entry could not be examined (unreadable name, failed stat).
    EntryError,
}

/// Why a direction cannot run at all.
#[derive(Clone, Copy, Debug, PartialEq, Eq, Structural)]
pub enum DirectionFault {
    SameSourceAndDestination,
    SourceMissing,
    SourceNotDirectory,
}

/// The classification rule for one file: a matched skip pattern wins; then
/// a missing destination means create; then the modification times decide
/// between update and unchanged; a failed stat of either side is an error.
pub open spec fn spec_classify(skipped: bool, dest: Stat, source: Stat) -> Disposition {
    if skipped {
        Disposition::Skipped
    } else {
        match dest {
            Stat::Missing => Disposition::Create,
            Stat::Unknown => Disposition::EntryError,
            Stat::Modified(d) => match source {
                Stat::Modified(s) => if s > d {
                    Disposition::Update
                } else {
                    Disposition::Unchanged
                },
                _ => Disposition::EntryError,
            },
        }
    }
}

/// The copy to dispatch for a disposition, if any.
pub open spec fn dispatch_of(d: Disposition) -> Option<CopyKind> {
    match d {
        Disposition::Create => Some(CopyKind::Create),
        Disposition::Update => Some(CopyKind::Update),
        _ => None,
    }
}

/// How many entries of the history have the given disposition.
pub open spec fn count_of(h: Seq<Disposition>, d: Disposition) -> nat
    decreases h.len(),
{
    if h.len() == 0 {
        0
    } else {
        count_of(h.drop_last(), d) + if h.last() == d {
            1nat
        } else {
            0nat
        }
    }
}

/// The kinds of the copies a history dispatches, in order.
pub open spec fn dispatched_kinds(h: Seq<Disposition>) -> Seq<CopyKind>
    decreases h.len(),
{
    if h.len() == 0 {
        Seq::empty()
    } else {
        let init = dispatched_kinds(h.drop_last());
        match dispatch_of(h.last()) {
            Some(k) => init.push(k),
            None => init,
        }
    }
}

/// Appending one disposition to a history moves exactly its own counts.
proof fn lemma_history_push(h: Seq<Disposition>, d: Disposition)
    ensures
        forall|d2: Disposition|
            count_of(h.push(d), d2) == count_of(h, d2) + if d2 == d {
                1nat
            } else {
                0nat
            },
        dispatch_of(d) matches Some(k) ==> dispatched_kinds(h.push(d)) == dispatched_kinds(
            h,
        ).push(k),
        dispatch_of(d) is None ==> dispatched_kinds(h.push(d)) == dispatched_kinds(h),
{
    assert(h.push(d).drop_last() =~= h);
}

/// Every entry of a history is skipped, unchanged, an error, or one
/// dispatched copy: the four counts partition the total.
pub proof fn lemma_history_partition(h: Seq<Disposition>)
    ensures
        count_of(h, Disposition::Skipped) + count_of(h, Disposition::Unchanged) + count_of(
            h,
            Disposition::EntryError,
        ) + dispatched_kinds(h).len() == h.len(),
    decreases h.len(),
{
    if h.len() > 0 {
        lemma_history_partition(h.drop_last());
    }
}

/// Joins two path pieces with a separator; an empty piece contributes
/// nothing.  The engine mirrors paths textually: the destination of a file
/// at relative path `r` under source root `s` is the destination root
/// joined with `r`.
pub open spec fn spec_join(base: Seq<char>, rel: Seq<char>) -> Seq<char> {
    if rel.len() == 0 {
        base
    } else if base.len() == 0 {
        rel
    } else {
        base + seq!['/'] + rel
    }
}

/// Joins two path pieces with `/`, leaving an empty piece out.
pub fn join_path(base: &str, rel: &str) -> (r: String)
    ensures
        r@ == spec_join(base@, rel@),
{
    if rel.unicode_len() == 0 {
        base.to_owned()
    } else if base.unicode_len() == 0 {
        rel.to_owned()
    } else {
        let mut s = base.to_owned();
        s.append("/");
        s.append(rel);
        proof {
            reveal_strlit("/");
            assert("/"@ =~= seq!['/']);
            assert(s@ =~= base@ + seq!['/'] + rel@);
        }
        s
    }
}

/// Decides whether a direction may run: its source must exist, be a
/// directory, and differ from its destination.  The checks are made in that
/// order of blame: a direction mirroring a tree onto itself is refused
/// whatever the filesystem says.
pub fn precheck(d: &CopyDirection, source_exists: bool, source_is_dir: bool) -> (r: Result<
    (),
    DirectionFault,
>)
    ensures
        r == if d.from@ == d.to@ {
            Result::<(), DirectionFault>::Err(DirectionFault::SameSourceAndDestination)
        } else if !source_exists {
            Result::<(), DirectionFault>::Err(DirectionFault::SourceMissing)
        } else if !source_is_dir {
            Result::<(), DirectionFault>::Err(DirectionFault::SourceNotDirectory)
        } else {
            Result::<(), DirectionFault>::Ok(())
        },
{
    if d.from == d.to {
        Err(DirectionFault::SameSourceAndDestination)
    } else if !source_exists {
        Err(DirectionFault::SourceMissing)
    } else if !source_is_dir {
        Err(DirectionFault::SourceNotDirectory)
    } else {
        Ok(())
    }
}

/// The walk and classification state of one running direction.
pub struct DirectionRun {
    direction: CopyDirection,
    dirs: Vec<String>,
    existing: usize,
    errors: usize,
    total: usize,
    history: Ghost<Seq<Disposition>>,
    visited: Ghost<Seq<Seq<char>>>,
    dispatch_log: Ghost<Seq<Seq<char>>>,
}

impl DirectionRun {
    /// The direction's source root.
    pub closed spec fn source_root(&self) -> Seq<char> {
        self.direction.from@
    }

    /// The direction's destination root.
    pub closed spec fn dest_root(&self) -> Seq<char> {
        self.direction.to@
    }

    /// The direction's skip pattern texts.
    pub closed spec fn skip_texts(&self) -> Seq<Seq<char>> {
        texts_of(self.direction.skips@)
    }

    /// The relative paths of the directories still to be walked, in stack
    /// order: the last is walked next.
    pub closed spec fn pending_dirs(&self) -> Seq<Seq<char>> {
        str_views(self.dirs@)
    }

    /// The relative paths of the directories handed out so far, in order.
    pub closed spec fn visited_dirs(&self) -> Seq<Seq<char>> {
        self.visited@
    }

    /// The dispositions of every file classified so far, in order.
    pub closed spec fn recorded(&self) -> Seq<Disposition> {
        self.history@
    }

    /// The kinds of the copies dispatched so far, in order.
    pub open spec fn dispatched(&self) -> Seq<CopyKind> {
        dispatched_kinds(self.recorded())
    }

    /// For each dispatched copy, the relative path of the directory whose
    /// walk produced it.
    pub closed spec fn dispatch_dirs(&self) -> Seq<Seq<char>> {
        self.dispatch_log@
    }

    /// The counters agree with the recorded history, and every dispatched
    /// copy belongs to a directory that was handed out first.
    pub closed spec fn wf(&self) -> bool {
        &&& self.existing == count_of(self.history@, Disposition::Unchanged)
        &&& self.errors == count_of(self.history@, Disposition::EntryError)
        &&& self.total == self.history@.len()
        &&& self.dispatch_log@.len() == dispatched_kinds(self.history@).len()
        &&& forall|i: int|
            0 <= i < self.dispatch_log@.len() ==> self.visited@.contains(
                #[trigger] self.dispatch_log@[i],
            )
    }

    /// Two states of the same direction.
    pub open spec fn same_direction(&self, other: &DirectionRun) -> bool {
        &&& self.source_root() == other.source_root()
        &&& self.dest_root() == other.dest_root()
        &&& self.skip_texts() == other.skip_texts()
    }

    /// Begins a direction's walk: the work-list holds the source root
    /// itself (the empty relative path), nothing is classified yet.
    pub fn start(direction: CopyDirection) -> (r: DirectionRun)
        ensures
            r.wf(),
            r.source_root() == direction.from@,
            r.dest_root() == direction.to@,
            r.skip_texts() == texts_of(direction.skips@),
            r.pending_dirs() == seq![Seq::<char>::empty()],
            r.visited_dirs() == Seq::<Seq<char>>::empty(),
            r.recorded() == Seq::<Disposition>::empty(),
            r.dispatch_dirs() == Seq::<Seq<char>>::empty(),
    {
        let mut dirs: Vec<String> = Vec::new();
        dirs.push(String::new());
        let r = DirectionRun {
            direction,
            dirs,
            existing: 0,
            errors: 0,
            total: 0,
            history: Ghost(Seq::empty()),
            visited: Ghost(Seq::empty()),
            dispatch_log: Ghost(Seq::empty()),
        };
        proof {
            assert(r.pending_dirs() =~= seq![Seq::<char>::empty()]);
        }
        r
    }

    /// Pops the next directory to walk, recording it as visited.  The
    /// driver must create its destination directory before reporting any of
    /// its children.
    pub fn next_dir(&mut self) -> (r: Option<String>)
        requires
            old(self).wf(),
        ensures
            final(self).wf(),
            final(self).same_direction(old(self)),
            final(self).recorded() == old(self).recorded(),
            final(self).dispatch_dirs() == old(self).dispatch_dirs(),
            old(self).pending_dirs().len() == 0 ==> {
                &&& r is None
                &&& final(self).pending_dirs() == old(self).pending_dirs()
                &&& final(self).visited_dirs() == old(self).visited_dirs()
            },
            old(self).pending_dirs().len() > 0 ==> {
                &&& r matches Some(d) && d@ == old(self).pending_dirs().last()
                &&& final(self).pending_dirs() == old(self).pending_dirs().drop_last()
                &&& final(self).visited_dirs() == old(self).visited_dirs().push(
                    old(self).pending_dirs().last(),
                )
            },
    {
        let r = self.dirs.pop();
        match &r {
            Some(d) => {
                proof {
                    self.visited@ = self.visited@.push(d@);
                    assert(final(self).pending_dirs() =~= old(self).pending_dirs().drop_last());
                    assert forall|i: int|
                        0 <= i < self.dispatch_log@.len() implies self.visited@.contains(
                        #[trigger] self.dispatch_log@[i],
                    ) by {
                        let x = self.dispatch_log@[i];
                        let j = choose|j: int|
                            0 <= j < old(self).visited@.len() && old(self).visited@[j] == x;
                        assert(self.visited@[j] == x);
                    }
                }
            },
            None => {
                proof {
                    assert(old(self).pending_dirs().len() == 0);
                }
            },
        }
        r
    }

    /// Pushes a subdirectory found under `parent_rel` onto the work-list.
    pub fn push_dir(&mut self, parent_rel: &str, name: &str)
        requires
            old(self).wf(),
        ensures
            final(self).wf(),
            final(self).same_direction(old(self)),
            final(self).recorded() == old(self).recorded(),
            final(self).visited_dirs() == old(self).visited_dirs(),
            final(self).dispatch_dirs() == old(self).dispatch_dirs(),
            final(self).pending_dirs() == old(self).pending_dirs().push(
                spec_join(parent_rel@, name@),
            ),
    {
        let child = join_path(parent_rel, name);
        self.dirs.push(child);
        proof {
            assert(final(self).pending_dirs() =~= old(self).pending_dirs().push(
                spec_join(parent_rel@, name@),
            ));
        }
    }

    /// The source directory the driver should list for a relative path.
    pub fn source_dir_path(&self, rel: &str) -> (r: String)
        ensures
            r@ == spec_join(self.source_root(), rel@),
    {
        join_path(self.direction.from.as_str(), rel)
    }

    /// The destination directory mirroring a relative path; the destination
    /// root itself for the empty one.
    pub fn dest_dir_path(&self, rel: &str) -> (r: String)
        ensures
            r@ == spec_join(self.dest_root(), rel@),
    {
        join_path(self.direction.to.as_str(), rel)
    }

    /// The full source path of a file `name` in the directory `rel`.
    pub fn source_file_path(&self, rel: &str, name: &str) -> (r: String)
        ensures
            r@ == spec_join(self.source_root(), spec_join(rel@, name@)),
    {
        let sub = join_path(rel, name);
        join_path(self.direction.from.as_str(), sub.as_str())
    }

    /// The full destination path of a file `name` in the directory `rel`.
    pub fn dest_file_path(&self, rel: &str, name: &str) -> (r: String)
        ensures
            r@ == spec_join(self.dest_root(), spec_join(rel@, name@)),
    {
        let sub = join_path(rel, name);
        join_path(self.direction.to.as_str(), sub.as_str())
    }

    /// Whether any skip pattern matches the file's full source path.
    pub fn is_skipped(&self, rel: &str, name: &str) -> (r: bool)
        ensures
            r == any_match(
                self.skip_texts(),
                spec_join(self.source_root(), spec_join(rel@, name@)),
            ),
    {
        let path = self.source_file_path(rel, name);
        matches_any(&self.direction.skips, path.as_str())
    }

    /// Records a file excluded by a skip pattern: it counts toward the
    /// total and nothing else, and no copy is dispatched.
    pub fn record_skipped(&mut self)
        requires
            old(self).wf(),
            old(self).recorded().len() < usize::MAX,
        ensures
            final(self).wf(),
            final(self).same_direction(old(self)),
            final(self).recorded() == old(self).recorded().push(Disposition::Skipped),
            final(self).pending_dirs() == old(self).pending_dirs(),
            final(self).visited_dirs() == old(self).visited_dirs(),
            final(self).dispatch_dirs() == old(self).dispatch_dirs(),
    {
        proof {
            lemma_history_push(self.history@, Disposition::Skipped);
        }
        self.total = self.total + 1;
        proof {
            self.history@ = self.history@.push(Disposition::Skipped);
        }
    }

    /// Records a child whose name could not be read as an entry error.
    pub fn record_unreadable(&mut self)
        requires
            old(self).wf(),
            old(self).recorded().len() < usize::MAX,
        ensures
            final(self).wf(),
            final(self).same_direction(old(self)),
            final(self).recorded() == old(self).recorded().push(Disposition::EntryError),
            final(self).pending_dirs() == old(self).pending_dirs(),
            final(self).visited_dirs() == old(self).visited_dirs(),
            final(self).dispatch_dirs() == old(self).dispatch_dirs(),
    {
        proof {
            lemma_history_push(self.history@, Disposition::EntryError);
            lemma_history_partition(self.history@);
        }
        self.errors = self.errors + 1;
        self.total = self.total + 1;
        proof {
            self.history@ = self.history@.push(Disposition::EntryError);
        }
    }

    /// Classifies a non-skipped file in the visited directory `rel` from
    /// the observed stats and records the outcome; returns the copy to
    /// dispatch, if the file is to be created or updated.
    pub fn record_file(&mut self, rel: &str, dest: Stat, source: Stat) -> (r: Option<CopyKind>)
        requires
            old(self).wf(),
            old(self).recorded().len() < usize::MAX,
            old(self).visited_dirs().contains(rel@),
        ensures
            final(self).wf(),
            final(self).same_direction(old(self)),
            final(self).recorded() == old(self).recorded().push(spec_classify(false, dest, source)),
            r == dispatch_of(spec_classify(false, dest, source)),
            final(self).pending_dirs() == old(self).pending_dirs(),
            final(self).visited_dirs() == old(self).visited_dirs(),
            r is Some ==> final(self).dispatch_dirs() == old(self).dispatch_dirs().push(rel@),
            r is None ==> final(self).dispatch_dirs() == old(self).dispatch_dirs(),
    {
        let ghost d = spec_classify(false, dest, source);
        proof {
            lemma_history_push(self.history@, d);
            lemma_history_partition(self.history@);
        }
        let r: Option<CopyKind> = match dest {
            Stat::Missing => Some(CopyKind::Create),
            Stat::Unknown => None,
            Stat::Modified(dm) => match source {
                Stat::Modified(sm) => if sm > dm {
                    Some(CopyKind::Update)
                } else {
                    None
                },
                _ => None,
            },
        };
        match r {
            Some(_) => {
                proof {
                    self.dispatch_log@ = self.dispatch_log@.push(rel@);
                }
            },
            None => {
                if matches!(dest, Stat::Unknown) || !matches!(source, Stat::Modified(_)) {
                    self.errors = self.errors + 1;
                } else {
                    self.existing = self.existing + 1;
                }
            },
        }
        self.total = self.total + 1;
        proof {
            self.history@ = self.history@.push(d);
        }
        r
    }

    /// The number of files classified so far.
    pub fn classified_total(&self) -> (r: usize)
        requires
            self.wf(),
        ensures
            r == self.recorded().len(),
    {
        self.total
    }

    /// Folds the outcomes of the dispatched copies into the direction's
    /// summary.  The outcomes must answer the dispatched copies, kind for
    /// kind, in dispatch order.
    pub fn finish(self, results: &Vec<(CopyKind, bool)>) -> (r: Summary)
        requires
            self.wf(),
            results@.map_values(|p: (CopyKind, bool)| p.0) == self.dispatched(),
        ensures
            r.new == copied_count(results@, CopyKind::Create),
            r.updated == copied_count(results@, CopyKind::Update),
            r.existing == count_of(self.recorded(), Disposition::Unchanged),
            r.errors == count_of(self.recorded(), Disposition::EntryError) + failed_count(
                results@,
            ),
            r.total == self.recorded().len(),
    {
        let base = Summary {
            new: 0,
            existing: self.existing,
            updated: 0,
            errors: self.errors,
            total: self.total,
        };
        proof {
            lemma_history_partition(self.history@);
            crate::summary::lemma_outcome_counts_le_len(results@);
            assert(results@.len() == self.dispatched().len());
        }
        base.summarize(results)
    }
}

/// A skip pattern match wins over everything: a skipped file is classified
/// `Skipped` whatever the stats say, it dispatches no copy, and it counts
/// toward the total alone.
pub proof fn lemma_skip_correct(h: Seq<Disposition>, dest: Stat, source: Stat)
    ensures
        spec_classify(true, dest, source) == Disposition::Skipped,
        dispatched_kinds(h.push(Disposition::Skipped)) == dispatched_kinds(h),
        count_of(h.push(Disposition::Skipped), Disposition::Unchanged) == count_of(
            h,
            Disposition::Unchanged,
        ),
        count_of(h.push(Disposition::Skipped), Disposition::EntryError) == count_of(
            h,
            Disposition::EntryError,
        ),
        h.push(Disposition::Skipped).len() == h.len() + 1,
{
    lemma_history_push(h, Disposition::Skipped);
}

/// A destination no older than its source is left alone and counted as
/// existing; one strictly older is updated.
pub proof fn lemma_staleness_correct(dest_mtime: u128, source_mtime: u128)
    ensures
        (spec_classify(false, Stat::Modified(dest_mtime), Stat::Modified(source_mtime))
            == Disposition::Unchanged) == (source_mtime <= dest_mtime),
        (spec_classify(false, Stat::Modified(dest_mtime), Stat::Modified(source_mtime))
            == Disposition::Update) == (source_mtime > dest_mtime),
{
}

/// No non-skipped file is passed over: it is either dispatched for copy
/// (and then appended to the dispatched kinds), found unchanged, or counted
/// as an error — a missing destination is always a create, a stale one
/// always an update.
pub proof fn lemma_completeness(h: Seq<Disposition>, dest: Stat, source: Stat)
    ensures
        spec_classify(false, dest, source) != Disposition::Skipped,
        dest == Stat::Missing ==> spec_classify(false, dest, source) == Disposition::Create
            && dispatched_kinds(h.push(Disposition::Create)) == dispatched_kinds(h).push(
            CopyKind::Create,
        ),
        (dest matches Stat::Modified(d) && source matches Stat::Modified(s) && s > d)
            ==> spec_classify(false, dest, source) == Disposition::Update && dispatched_kinds(
            h.push(Disposition::Update),
        ) == dispatched_kinds(h).push(CopyKind::Update),
        (dest matches Stat::Modified(d) && source matches Stat::Modified(s) && s <= d)
            ==> spec_classify(false, dest, source) == Disposition::Unchanged,
        dest == Stat::Unknown ==> spec_classify(false, dest, source) == Disposition::EntryError,
        (dest matches Stat::Modified(_) && !(source matches Stat::Modified(_)))
            ==> spec_classify(false, dest, source) == Disposition::EntryError,
{
    lemma_history_push(h, Disposition::Create);
    lemma_history_push(h, Disposition::Update);
}

/// A second pass over a tree the first pass brought up to date — every file
/// skipped or unchanged — dispatches nothing and reports no errors: its
/// summary can only count existing files, existing and skipped together
/// covering the total.
pub proof fn lemma_second_run(h: Seq<Disposition>)
    requires
        forall|i: int|
            0 <= i < h.len() ==> h[i] == Disposition::Skipped || h[i] == Disposition::Unchanged,
    ensures
        dispatched_kinds(h).len() == 0,
        count_of(h, Disposition::EntryError) == 0,
        count_of(h, Disposition::Unchanged) + count_of(h, Disposition::Skipped) == h.len(),
    decreases h.len(),
{
    if h.len() > 0 {
        assert(h.last() == h[h.len() - 1]);
        lemma_second_run(h.drop_last());
    }
}

/// Rerunning a direction against an unchanged source is idle: when every
/// observed file is either skipped or present at the destination with a
/// modification time no older than its source's, every classification is
/// `Skipped` or `Unchanged` — so the rerun dispatches no copy, reports no
/// error, and its summary counts every non-skipped file as existing.
pub proof fn lemma_idempotent_rerun(obs: Seq<(bool, Stat, Stat)>)
    requires
        forall|i: int|
            0 <= i < obs.len() ==> (#[trigger] obs[i]).0 || (obs[i].1 matches Stat::Modified(d)
                && obs[i].2 matches Stat::Modified(s) && s <= d),
    ensures
        ({
            let h = obs.map_values(|o: (bool, Stat, Stat)| spec_classify(o.0, o.1, o.2));
            &&& dispatched_kinds(h).len() == 0
            &&& count_of(h, Disposition::EntryError) == 0
            &&& count_of(h, Disposition::Unchanged) + count_of(h, Disposition::Skipped) == h.len()
        }),
{
    let h = obs.map_values(|o: (bool, Stat, Stat)| spec_classify(o.0, o.1, o.2));
    assert forall|i: int|
        0 <= i < h.len() implies h[i] == Disposition::Skipped || h[i]
        == Disposition::Unchanged by {
        assert(h[i] == spec_classify(obs[i].0, obs[i].1, obs[i].2));
    }
    lemma_second_run(h);
}

/// No copy is dispatched into a directory that the walk has not reached:
/// every dispatched copy's directory was handed out by `next_dir` — and so
/// had its destination directory set up by the driver — before the copy.
pub proof fn lemma_dir_before_copy(run: &DirectionRun, i: int)
    requires
        run.wf(),
        0 <= i < run.dispatch_dirs().len(),
    ensures
        run.visited_dirs().contains(run.dispatch_dirs()[i]),
{
}

} // verus!
