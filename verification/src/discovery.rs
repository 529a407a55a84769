//! File discovery as a worklist.  The walk itself — listing a
//! directory, telling files from directories — happens outside; this
//! state machine owns every decision: how depth is spent, which
//! names pass the filter, and that the final candidate list is
//! sorted and free of repeats.
//!
//! The driver pops a pending entry, looks at it on disk, and either
//! hands the directory's children back through `expand_dir` or
//! records a regular file through `record_file`.  A directory is
//! expanded only while depth remains, and its children carry one
//! unit less; with a depth of zero nothing is ever pending, so
//! discovery yields nothing.

use vstd::prelude::*;

verus! {

use crate::pattern::{NamePattern, regex_matches};
use crate::strutil::{
    views_of,
    strictly_sorted,
    insert_sorted,
    lemma_sorted_distinct,
};

/// The state of one walk: the name filter, the directories and files
/// not yet looked at (each with its remaining depth), and the
/// matching files found so far, kept sorted and without repeats.
pub struct Discovery {
    pattern: NamePattern,
    pending: Vec<(String, usize)>,
    found: Vec<String>,
}

impl Discovery {
    /// The text of the name filter.
    pub closed spec fn pattern_source(self) -> Seq<char> {
        self.pattern.source()
    }

    /// The pending entries: path views with their remaining depth.
    pub closed spec fn pending_model(self) -> Seq<(Seq<char>, nat)> {
        self.pending@.map_values(|p: (String, usize)| (p.0@, p.1 as nat))
    }

    /// The views of the files found so far.
    pub closed spec fn found_views(self) -> Seq<Seq<char>> {
        views_of(self.found@)
    }

    /// The files found so far are strictly sorted, hence free of
    /// repeats.
    pub open spec fn wf(self) -> bool {
        strictly_sorted(self.found_views())
    }

    /// A fresh walk over the given roots.  With a depth of zero
    /// nothing is pending and the walk yields nothing; otherwise
    /// every root is pending with the full depth.
    pub fn new(roots: &Vec<String>, depth: usize, pattern: NamePattern) -> (d: Discovery)
        ensures
            d.wf(),
            d.pattern_source() == pattern.source(),
            d.found_views() == Seq::<Seq<char>>::empty(),
            depth == 0 ==> d.pending_model() == Seq::<(Seq<char>, nat)>::empty(),
            depth > 0 ==> d.pending_model().len() == roots@.len() && forall|i: int|
                0 <= i < roots@.len() ==> d.pending_model()[i] == (roots@[i]@, depth as nat),
    {
        let mut pending: Vec<(String, usize)> = Vec::new();
        if depth > 0 {
            let mut i: usize = 0;
            while i < roots.len()
                invariant
                    i <= roots@.len(),
                    depth > 0,
                    pending@.len() == i,
                    forall|k: int|
                        0 <= k < i ==> #[trigger] pending@[k] == (roots@[k], depth),
                decreases roots@.len() - i,
            {
                pending.push((roots[i].clone(), depth));
                i = i + 1;
            }
        }
        let d = Discovery { pattern, pending, found: Vec::new() };
        proof {
            assert(d.found_views() =~= Seq::<Seq<char>>::empty());
            if depth == 0 {
                assert(d.pending_model() =~= Seq::<(Seq<char>, nat)>::empty());
            }
        }
        d
    }

    /// Takes one pending entry, if any is left.
    pub fn pop_pending(&mut self) -> (r: Option<(String, usize)>)
        ensures
            final(self).pattern_source() == old(self).pattern_source(),
            final(self).found_views() == old(self).found_views(),
            final(self).wf() == old(self).wf(),
            old(self).pending_model().len() == 0 ==> r is None && final(self).pending_model()
                == old(self).pending_model(),
            old(self).pending_model().len() > 0 ==> (r matches Some(p) && (p.0@, p.1 as nat)
                == old(self).pending_model().last()) && final(self).pending_model() == old(
                self,
            ).pending_model().drop_last(),
    {
        let r = self.pending.pop();
        proof {
            if old(self).pending_model().len() > 0 {
                assert(final(self).pending_model() =~= old(self).pending_model().drop_last());
            }
        }
        r
    }

    /// Hands back the children of a directory that was pending with
    /// the given depth.  While depth remains, every child becomes
    /// pending with one unit less; a directory reached with no depth
    /// left contributes nothing.
    pub fn expand_dir(&mut self, depth: usize, entries: &Vec<String>)
        ensures
            final(self).pattern_source() == old(self).pattern_source(),
            final(self).found_views() == old(self).found_views(),
            final(self).wf() == old(self).wf(),
            depth == 0 ==> final(self).pending_model() == old(self).pending_model(),
            depth >= 1 ==> final(self).pending_model() == old(self).pending_model()
                + entries@.map_values(|e: String| (e@, (depth - 1) as nat)),
    {
        if depth == 0 {
            return ;
        }
        let child_depth = depth - 1;
        let mut i: usize = 0;
        loop
            invariant
                i <= entries@.len(),
                child_depth == depth - 1,
                self.pattern == old(self).pattern,
                self.found == old(self).found,
                self.pending_model() =~= old(self).pending_model() + entries@.take(
                    i as int,
                ).map_values(|e: String| (e@, (depth - 1) as nat)),
            decreases entries@.len() - i,
        {
            if i == entries.len() {
                proof {
                    assert(entries@.take(entries@.len() as int) =~= entries@);
                }
                return ;
            }
            let ghost before = self.pending@;
            self.pending.push((entries[i].clone(), child_depth));
            i = i + 1;
            proof {
                let f = |e: String| (e@, (depth - 1) as nat);
                assert(self.pending@.last().0@ == entries@[i as int - 1]@);
                assert(self.pending_model() =~= before.map_values(
                    |p: (String, usize)| (p.0@, p.1 as nat),
                ).push(f(entries@[i as int - 1])));
                assert(entries@.take(i as int) =~= entries@.take(i as int - 1).push(
                    entries@[i as int - 1],
                ));
                assert(entries@.take(i as int).map_values(f) =~= entries@.take(
                    i as int - 1,
                ).map_values(f).push(f(entries@[i as int - 1])));
                assert(self.pending_model() =~= old(self).pending_model() + entries@.take(
                    i as int,
                ).map_values(f));
            }
        }
    }

    /// Records a regular file that was pending: it joins the found
    /// set exactly when the name filter matches its path, and the
    /// set stays sorted and free of repeats however often a path is
    /// reached.
    pub fn record_file(&mut self, path: String)
        requires
            old(self).wf(),
        ensures
            final(self).wf(),
            final(self).pattern_source() == old(self).pattern_source(),
            final(self).pending_model() == old(self).pending_model(),
            final(self).found_views().to_set() == if regex_matches(
                old(self).pattern_source(),
                path@,
            ) {
                old(self).found_views().to_set().insert(path@)
            } else {
                old(self).found_views().to_set()
            },
    {
        if self.pattern.is_match(path.as_str()) {
            insert_sorted(&mut self.found, path);
        }
    }

    /// The finished candidate list: sorted, and no path twice, even
    /// when the same file was reachable through several roots.
    pub fn files(self) -> (r: Vec<String>)
        requires
            self.wf(),
        ensures
            strictly_sorted(views_of(r@)),
            views_of(r@) == self.found_views(),
            forall|i: int, j: int|
                0 <= i < j < r@.len() ==> #[trigger] r@[i]@ != #[trigger] r@[j]@,
    {
        proof {
            lemma_sorted_distinct(views_of(self.found@));
            assert forall|i: int, j: int|
                0 <= i < j < self.found@.len() implies #[trigger] self.found@[i]@
                != #[trigger] self.found@[j]@ by {
                assert(views_of(self.found@)[i] == self.found@[i]@);
                assert(views_of(self.found@)[j] == self.found@[j]@);
            }
        }
        self.found
    }
}

} // verus!
