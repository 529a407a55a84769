//! Summarization.  Once the groups are frozen, the result set
//! derives from them the duplicate sets and the three aggregate
//! counters: files seen, duplicate files, and reclaimable bytes.
//! File sizes are read outside and handed in, one per group; sums
//! that would not fit saturate at the largest representable value.

use vstd::prelude::*;

verus! {

use crate::processor::{FileGroup, groups_model};
use crate::strutil::{views_of, hex_str, hex_of};
use crate::timings::StopWatch;

/// One duplicate set: the fingerprint as lower-case hex, the member
/// paths, and the size in bytes of one member.
pub struct FileSet {
    pub key: String,
    pub paths: Vec<String>,
    pub file_size: usize,
}

/// The aggregate counters of a run.
pub struct Summary {
    pub file_size_total: usize,
    pub total_dup_files: usize,
    pub total_files: usize,
}

/// The mathematical content of one duplicate set.
pub open spec fn fileset_model(fs: FileSet) -> (Seq<char>, Seq<Seq<char>>, usize) {
    (fs.key@, views_of(fs.paths@), fs.file_size)
}

pub open spec fn filesets_model(fss: Seq<FileSet>) -> Seq<(Seq<char>, Seq<Seq<char>>, usize)> {
    fss.map_values(|fs: FileSet| fileset_model(fs))
}

/// `x`, cut off at the largest `usize` value.
pub open spec fn clamped(x: int) -> int {
    if x > usize::MAX as int {
        usize::MAX as int
    } else {
        x
    }
}

/// Every file seen, counted once per occurrence across all groups.
pub open spec fn total_files_of(gv: Seq<(Seq<u8>, Seq<Seq<char>>)>) -> int
    decreases gv.len(),
{
    if gv.len() == 0 {
        0
    } else {
        total_files_of(gv.drop_last()) + gv.last().1.len()
    }
}

/// The number of files that could be removed: one less than the
/// member count of each duplicate group.
pub open spec fn dup_files_of(gv: Seq<(Seq<u8>, Seq<Seq<char>>)>) -> int
    decreases gv.len(),
{
    if gv.len() == 0 {
        0
    } else {
        dup_files_of(gv.drop_last()) + if gv.last().1.len() >= 2 {
            gv.last().1.len() - 1
        } else {
            0
        }
    }
}

/// The reclaimable bytes: each duplicate group's member size times
/// one less than its member count.
pub open spec fn dup_size_of(gv: Seq<(Seq<u8>, Seq<Seq<char>>)>, sizes: Seq<usize>) -> int
    decreases gv.len(),
{
    if gv.len() == 0 {
        0
    } else {
        dup_size_of(gv.drop_last(), sizes.drop_last()) + if gv.last().1.len() >= 2 {
            sizes.last() * (gv.last().1.len() - 1)
        } else {
            0
        }
    }
}

/// The duplicate sets derived from the groups, in group order: one
/// per group of two or more members, keyed by the digest in hex.
pub open spec fn filesets_of(gv: Seq<(Seq<u8>, Seq<Seq<char>>)>, sizes: Seq<usize>) -> Seq<
    (Seq<char>, Seq<Seq<char>>, usize),
>
    decreases gv.len(),
{
    if gv.len() == 0 {
        Seq::empty()
    } else {
        filesets_of(gv.drop_last(), sizes.drop_last()) + if gv.last().1.len() >= 2 {
            seq![(hex_str(gv.last().0), gv.last().1, sizes.last())]
        } else {
            Seq::empty()
        }
    }
}

/// Adds, saturating at the largest `usize` value.
fn sat_add(a: usize, b: usize) -> (r: usize)
    ensures
        r as int == clamped(a + b),
{
    if a <= usize::MAX - b {
        a + b
    } else {
        usize::MAX
    }
}

/// Multiplies, saturating at the largest `usize` value.
fn sat_mul(a: usize, b: usize) -> (r: usize)
    ensures
        r as int == clamped(a * b),
{
    match a.checked_mul(b) {
        Some(p) => p,
        None => usize::MAX,
    }
}

proof fn lemma_clamped_add(x: int, p: int)
    requires
        x >= 0,
        p >= 0,
    ensures
        clamped(clamped(x) + clamped(p)) == clamped(x + p),
{
}

/// The size of the first member that could be measured, or zero when
/// none could.
pub open spec fn first_some(stats: Seq<Option<usize>>) -> usize
    decreases stats.len(),
{
    if stats.len() == 0 {
        0
    } else if stats[0] is Some {
        stats[0]->0
    } else {
        first_some(stats.drop_first())
    }
}

/// Picks the first measured size out of per-member measurements, or
/// zero when every measurement failed.
pub fn first_good_size(stats: &Vec<Option<usize>>) -> (r: usize)
    ensures
        r == first_some(stats@),
{
    let mut i: usize = 0;
    proof {
        assert(stats@.skip(0) =~= stats@);
    }
    loop
        invariant
            i <= stats@.len(),
            first_some(stats@) == first_some(stats@.skip(i as int)),
        decreases stats@.len() - i,
    {
        if i == stats.len() {
            return 0;
        }
        proof {
            assert(stats@.skip(i as int)[0] == stats@[i as int]);
            assert(stats@.skip(i as int).drop_first() =~= stats@.skip(i as int + 1));
        }
        match stats[i] {
            Some(v) => {
                return v;
            },
            None => {
                i = i + 1;
            },
        }
    }
}

/// Copies a vector of strings.
fn copy_strings(v: &Vec<String>) -> (r: Vec<String>)
    ensures
        r@ == v@,
{
    let mut r: Vec<String> = Vec::new();
    let mut i: usize = 0;
    loop
        invariant
            i <= v@.len(),
            r@ =~= v@.take(i as int),
        decreases v@.len() - i,
    {
        if i == v.len() {
            proof {
                assert(v@.take(v@.len() as int) =~= v@);
            }
            return r;
        }
        r.push(v[i].clone());
        i = i + 1;
        proof {
            assert(v@.take(i as int) =~= v@.take(i as int - 1).push(v@[i as int - 1]));
        }
    }
}

/// The immutable outcome of one run: the timings, the frozen
/// fingerprint groups, and — once `summarize` has run — the
/// duplicate sets and aggregate counters.
pub struct ResultSet {
    pub stop_watch: StopWatch,
    pub files_tree: Vec<FileGroup>,
    pub fileset: Vec<FileSet>,
    pub summary: Summary,
}

impl ResultSet {
    /// The mathematical content of the frozen groups.
    pub open spec fn groups(self) -> Seq<(Seq<u8>, Seq<Seq<char>>)> {
        groups_model(self.files_tree@)
    }

    /// How many groups there are.
    pub fn group_count(&self) -> (n: usize)
        ensures
            n == self.groups().len(),
    {
        self.files_tree.len()
    }

    /// The member paths of one group.
    pub fn group_paths(&self, i: usize) -> (p: &Vec<String>)
        requires
            i < self.groups().len(),
        ensures
            views_of(p@) == self.groups()[i as int].1,
    {
        &self.files_tree[i].paths
    }

    /// Derives the duplicate sets and the counters from the groups.
    /// `sizes` holds, for each group in order, the measured size in
    /// bytes of one of its members (ignored for groups of a single
    /// member).  Counters accumulate on top of their current values
    /// and saturate rather than overflow.
    pub fn summarize(&mut self, sizes: &Vec<usize>)
        requires
            sizes@.len() == old(self).groups().len(),
        ensures
            final(self).groups() == old(self).groups(),
            final(self).stop_watch == old(self).stop_watch,
            filesets_model(final(self).fileset@) == filesets_model(old(self).fileset@)
                + filesets_of(old(self).groups(), sizes@),
            final(self).summary.total_files as int == clamped(
                old(self).summary.total_files + total_files_of(old(self).groups()),
            ),
            final(self).summary.total_dup_files as int == clamped(
                old(self).summary.total_dup_files + dup_files_of(old(self).groups()),
            ),
            final(self).summary.file_size_total as int == clamped(
                old(self).summary.file_size_total + dup_size_of(old(self).groups(), sizes@),
            ),
    {
        let ghost gv = self.groups();
        let ghost fs0 = filesets_model(self.fileset@);
        let ghost tf0 = self.summary.total_files as int;
        let ghost df0 = self.summary.total_dup_files as int;
        let ghost ds0 = self.summary.file_size_total as int;
        let n = self.files_tree.len();
        let mut i: usize = 0;
        proof {
            assert(gv.take(0) =~= Seq::<(Seq<u8>, Seq<Seq<char>>)>::empty());
            assert(sizes@.take(0) =~= Seq::<usize>::empty());
        }
        while i < n
            invariant
                i <= n,
                n == self.files_tree@.len(),
                sizes@.len() == gv.len(),
                gv == groups_model(self.files_tree@),
                self.stop_watch == old(self).stop_watch,
                self.files_tree@ == old(self).files_tree@,
                filesets_model(self.fileset@) =~= fs0 + filesets_of(
                    gv.take(i as int),
                    sizes@.take(i as int),
                ),
                self.summary.total_files as int == clamped(
                    tf0 + total_files_of(gv.take(i as int)),
                ),
                self.summary.total_dup_files as int == clamped(
                    df0 + dup_files_of(gv.take(i as int)),
                ),
                self.summary.file_size_total as int == clamped(
                    ds0 + dup_size_of(gv.take(i as int), sizes@.take(i as int)),
                ),
                total_files_of(gv.take(i as int)) >= 0,
                dup_files_of(gv.take(i as int)) >= 0,
                dup_size_of(gv.take(i as int), sizes@.take(i as int)) >= 0,
            decreases n - i,
        {
            proof {
                assert(gv.take(i as int + 1).drop_last() =~= gv.take(i as int));
                assert(sizes@.take(i as int + 1).drop_last() =~= sizes@.take(i as int));
                assert(gv.take(i as int + 1).last() == gv[i as int]);
                assert(sizes@.take(i as int + 1).last() == sizes@[i as int]);
            }
            let len = self.files_tree[i].paths.len();
            self.summary.total_files = sat_add(self.summary.total_files, len);
            proof {
                lemma_clamped_add(tf0 + total_files_of(gv.take(i as int)), len as int);
            }
            if len > 1 {
                self.summary.total_dup_files = sat_add(self.summary.total_dup_files, len - 1);
                let contribution = sat_mul(sizes[i], len - 1);
                self.summary.file_size_total = sat_add(
                    self.summary.file_size_total,
                    contribution,
                );
                let key = hex_of(&self.files_tree[i].digest);
                let paths = copy_strings(&self.files_tree[i].paths);
                let file_size = sizes[i];
                let ghost fsets_before = filesets_model(self.fileset@);
                self.fileset.push(FileSet { key, paths, file_size });
                proof {
                    lemma_clamped_add(
                        df0 + dup_files_of(gv.take(i as int)),
                        len as int - 1,
                    );
                    lemma_clamped_add(
                        ds0 + dup_size_of(gv.take(i as int), sizes@.take(i as int)),
                        sizes@[i as int] * (len as int - 1),
                    );
                    assert(sizes@[i as int] * (len as int - 1) >= 0) by (nonlinear_arith)
                        requires
                            len >= 1,
                            sizes@[i as int] >= 0,
                    ;
                    assert(gv[i as int].1 == views_of(self.files_tree@[i as int].paths@));
                    assert(filesets_model(self.fileset@) =~= fsets_before.push(
                        fileset_model(self.fileset@.last()),
                    ));
                    assert(fileset_model(self.fileset@.last()) == (
                        hex_str(gv[i as int].0),
                        gv[i as int].1,
                        sizes@[i as int],
                    ));
                    assert(filesets_of(gv.take(i as int + 1), sizes@.take(i as int + 1))
                        =~= filesets_of(gv.take(i as int), sizes@.take(i as int)).push((
                        hex_str(gv[i as int].0),
                        gv[i as int].1,
                        sizes@[i as int],
                    )));
                    assert(filesets_model(self.fileset@) =~= fs0 + filesets_of(
                        gv.take(i as int + 1),
                        sizes@.take(i as int + 1),
                    ));
                }
            } else {
                proof {
                    assert(filesets_of(gv.take(i as int + 1), sizes@.take(i as int + 1))
                        =~= filesets_of(gv.take(i as int), sizes@.take(i as int)));
                }
            }
            i = i + 1;
        }
        proof {
            assert(gv.take(n as int) =~= gv);
            assert(sizes@.take(n as int) =~= sizes@);
        }
    }
}

/// A result set over frozen groups, with empty duplicate sets and
/// zeroed counters.
pub fn new(stop_watch: StopWatch, files_tree: Vec<FileGroup>) -> (rs: ResultSet)
    ensures
        rs.stop_watch == stop_watch,
        rs.groups() == groups_model(files_tree@),
        rs.fileset@ =~= Seq::<FileSet>::empty(),
        rs.summary.file_size_total == 0,
        rs.summary.total_dup_files == 0,
        rs.summary.total_files == 0,
{
    ResultSet {
        stop_watch,
        files_tree,
        fileset: vec![],
        summary: Summary { file_size_total: 0, total_dup_files: 0, total_files: 0 },
    }
}

} // verus!
