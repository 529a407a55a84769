//! Grouping of hashing outcomes.  Given one outcome per candidate
//! file — its path together with its fingerprint, or nothing where
//! hashing failed — the processor folds the successful outcomes into
//! groups of paths sharing a fingerprint.  Failed outcomes are
//! excluded entirely, and what ends up grouped together does not
//! depend on the order in which outcomes arrive.

use vstd::prelude::*;

verus! {

use crate::strutil::views_of;

/// The paths that produced one fingerprint.
pub struct FileGroup {
    pub digest: Vec<u8>,
    pub paths: Vec<String>,
}

/// One hashing outcome: a path, and its fingerprint where hashing
/// succeeded.
pub type HashOutcome = (String, Option<Vec<u8>>);

/// The mathematical content of a group: its digest bytes and the
/// views of its member paths.
pub open spec fn group_model(g: FileGroup) -> (Seq<u8>, Seq<Seq<char>>) {
    (g.digest@, views_of(g.paths@))
}

pub open spec fn groups_model(gs: Seq<FileGroup>) -> Seq<(Seq<u8>, Seq<Seq<char>>)> {
    gs.map_values(|g: FileGroup| group_model(g))
}

/// The mathematical content of one hashing outcome.
pub open spec fn outcome_model(p: HashOutcome) -> (Seq<char>, Option<Seq<u8>>) {
    (
        p.0@,
        match p.1 {
            Some(d) => Some(d@),
            None => None,
        },
    )
}

pub open spec fn outcomes_model(s: Seq<HashOutcome>) -> Seq<(Seq<char>, Option<Seq<u8>>)> {
    s.map_values(|p: HashOutcome| outcome_model(p))
}

/// The paths among `pairs` whose fingerprint is `d`, in arrival
/// order.
pub open spec fn group_of(pairs: Seq<(Seq<char>, Option<Seq<u8>>)>, d: Seq<u8>) -> Seq<Seq<char>> {
    pairs.filter(|p: (Seq<char>, Option<Seq<u8>>)| p.1 == Some(d)).map_values(
        |p: (Seq<char>, Option<Seq<u8>>)| p.0,
    )
}

/// What grouping promises: group digests are pairwise distinct, each
/// group holds exactly the paths that hashed to its digest, in
/// arrival order, and every successful outcome has a group.
pub open spec fn groups_ok(
    pairs: Seq<(Seq<char>, Option<Seq<u8>>)>,
    gv: Seq<(Seq<u8>, Seq<Seq<char>>)>,
) -> bool {
    &&& forall|i: int, j: int|
        0 <= i < j < gv.len() ==> (#[trigger] gv[i]).0 != (#[trigger] gv[j]).0
    &&& forall|i: int|
        0 <= i < gv.len() ==> (#[trigger] gv[i]).1 == group_of(pairs, gv[i].0) && gv[i].1.len()
            >= 1
    &&& forall|k: int|
        0 <= k < pairs.len() && (#[trigger] pairs[k]).1 is Some ==> exists|i: int|
            0 <= i < gv.len() && (#[trigger] gv[i]).0 == pairs[k].1->0
}

/// Extending the outcomes by one pair extends exactly the group of
/// its digest, and only for a successful outcome.
pub proof fn lemma_group_of_push(
    pairs: Seq<(Seq<char>, Option<Seq<u8>>)>,
    m: (Seq<char>, Option<Seq<u8>>),
    d: Seq<u8>,
)
    ensures
        group_of(pairs.push(m), d) == if m.1 == Some(d) {
            group_of(pairs, d).push(m.0)
        } else {
            group_of(pairs, d)
        },
{
    reveal(Seq::filter);
    let pred = |p: (Seq<char>, Option<Seq<u8>>)| p.1 == Some(d);
    let proj = |p: (Seq<char>, Option<Seq<u8>>)| p.0;
    assert(pairs.push(m).drop_last() =~= pairs);
    if m.1 == Some(d) {
        assert(pairs.push(m).filter(pred) == pairs.filter(pred).push(m));
        assert(pairs.filter(pred).push(m).map_values(proj) =~= pairs.filter(pred).map_values(
            proj,
        ).push(m.0));
    }
}

/// A non-empty group's digest occurs among the outcomes.
pub proof fn lemma_group_of_source(pairs: Seq<(Seq<char>, Option<Seq<u8>>)>, d: Seq<u8>)
    requires
        group_of(pairs, d).len() >= 1,
    ensures
        exists|k: int| 0 <= k < pairs.len() && (#[trigger] pairs[k]).1 == Some(d),
    decreases pairs.len(),
{
    reveal(Seq::filter);
    let pred = |p: (Seq<char>, Option<Seq<u8>>)| p.1 == Some(d);
    assert(pairs.len() > 0);
    if pred(pairs.last()) {
        assert(pairs[pairs.len() - 1].1 == Some(d));
    } else {
        assert(pairs.filter(pred) == pairs.drop_last().filter(pred));
        lemma_group_of_source(pairs.drop_last(), d);
        let k = choose|k: int|
            0 <= k < pairs.drop_last().len() && (#[trigger] pairs.drop_last()[k]).1 == Some(d);
        assert(pairs[k].1 == Some(d));
    }
}

/// Compares two byte vectors.
pub fn bytes_eq(a: &Vec<u8>, b: &Vec<u8>) -> (r: bool)
    ensures
        r == (a@ == b@),
{
    if a.len() != b.len() {
        return false;
    }
    let mut i: usize = 0;
    loop
        invariant
            i <= a@.len(),
            a@.len() == b@.len(),
            forall|k: int| 0 <= k < i ==> a@[k] == b@[k],
        decreases a@.len() - i,
    {
        if i == a.len() {
            proof {
                assert(a@ =~= b@);
            }
            return true;
        }
        if a[i] != b[i] {
            return false;
        }
        i = i + 1;
    }
}

/// Copies a byte vector.
pub fn copy_bytes(v: &Vec<u8>) -> (r: Vec<u8>)
    ensures
        r@ == v@,
{
    let mut r: Vec<u8> = Vec::new();
    let mut i: usize = 0;
    loop
        invariant
            i <= v@.len(),
            r@ =~= v@.take(i as int),
        decreases v@.len() - i,
    {
        if i == v.len() {
            proof {
                assert(v@.take(v@.len() as int) =~= v@);
            }
            return r;
        }
        r.push(v[i]);
        i = i + 1;
        proof {
            assert(v@.take(i as int) =~= v@.take(i as int - 1).push(v@[i as int - 1]));
        }
    }
}

/// The position of the group with the given digest, if one exists.
fn find_group(groups: &Vec<FileGroup>, dig: &Vec<u8>) -> (r: Option<usize>)
    ensures
        match r {
            Some(g) => g < groups@.len() && groups_model(groups@)[g as int].0 == dig@,
            None => forall|t: int|
                0 <= t < groups@.len() ==> (#[trigger] groups_model(groups@)[t]).0 != dig@,
        },
{
    let mut g: usize = 0;
    loop
        invariant
            g <= groups@.len(),
            forall|t: int| 0 <= t < g ==> (#[trigger] groups_model(groups@)[t]).0 != dig@,
        decreases groups@.len() - g,
    {
        if g == groups.len() {
            return None;
        }
        if bytes_eq(&groups[g].digest, dig) {
            return Some(g);
        }
        g = g + 1;
    }
}

/// The candidate files of one run, ready for grouping.
pub struct Processor {
    files: Vec<String>,
}

impl Processor {
    /// The views of the candidate paths.
    pub closed spec fn files_view(self) -> Seq<Seq<char>> {
        views_of(self.files@)
    }

    /// The candidate paths.
    pub fn files(&self) -> (f: &Vec<String>)
        ensures
            views_of(f@) == self.files_view(),
    {
        &self.files
    }

    /// Folds hashing outcomes into groups of paths sharing a
    /// fingerprint; outcomes without a fingerprint are left out.
    pub fn compute_files(&self, outcomes: &Vec<HashOutcome>) -> (groups: Vec<FileGroup>)
        ensures
            groups_ok(outcomes_model(outcomes@), groups_model(groups@)),
    {
        let ghost pv = outcomes_model(outcomes@);
        let mut groups: Vec<FileGroup> = Vec::new();
        let mut k: usize = 0;
        proof {
            assert(outcomes_model(outcomes@).take(0) =~= outcomes_model(outcomes@.take(0)));
        }
        loop
            invariant
                k <= outcomes@.len(),
                pv == outcomes_model(outcomes@),
                groups_ok(pv.take(k as int), groups_model(groups@)),
            decreases outcomes@.len() - k,
        {
            if k == outcomes.len() {
                proof {
                    assert(pv.take(pv.len() as int) =~= pv);
                }
                return groups;
            }
            let ghost m = outcome_model(outcomes@[k as int]);
            let ghost prefix = pv.take(k as int);
            proof {
                assert(pv.take(k as int + 1) =~= prefix.push(m));
                assert forall|d: Seq<u8>|
                    #[trigger] group_of(prefix.push(m), d) == if m.1 == Some(d) {
                        group_of(prefix, d).push(m.0)
                    } else {
                        group_of(prefix, d)
                    } by {
                    lemma_group_of_push(prefix, m, d);
                }
            }
            let outcome = &outcomes[k];
            match &outcome.1 {
                None => {
                    proof {
                        assert(groups_ok(pv.take(k as int + 1), groups_model(groups@)));
                    }
                },
                Some(dig) => {
                    let ghost old_groups = groups_model(groups@);
                    match find_group(&groups, dig) {
                        Some(g) => {
                            let mut grp = groups.swap_remove(g);
                            grp.paths.push(outcome.0.clone());
                            groups.push(grp);
                            proof {
                                let new_groups = groups_model(groups@);
                                let n = old_groups.len() as int;
                                assert(new_groups.len() == n);
                                assert(new_groups[n - 1].0 == old_groups[g as int].0);
                                assert(new_groups[n - 1].1 =~= old_groups[g as int].1.push(m.0));
                                assert(forall|t: int|
                                    0 <= t < n - 1 && t != g ==> #[trigger] new_groups[t]
                                        == old_groups[t]);
                                assert(g < n - 1 ==> new_groups[g as int] == old_groups[n - 1]);
                                assert forall|kk: int|
                                    0 <= kk < prefix.push(m).len() && (#[trigger] prefix.push(
                                        m,
                                    )[kk]).1 is Some implies exists|i: int|
                                    0 <= i < new_groups.len() && (#[trigger] new_groups[i]).0
                                        == prefix.push(m)[kk].1->0 by {
                                    if kk < prefix.len() {
                                        let i = choose|i: int|
                                            0 <= i < old_groups.len() && (#[trigger] old_groups[i]).0
                                                == prefix[kk].1->0;
                                        if i == g {
                                            assert(new_groups[n - 1].0 == prefix.push(m)[kk].1->0);
                                        } else if i == n - 1 {
                                            assert(new_groups[g as int].0 == prefix.push(
                                                m,
                                            )[kk].1->0);
                                        } else {
                                            assert(new_groups[i].0 == prefix.push(m)[kk].1->0);
                                        }
                                    } else {
                                        assert(new_groups[n - 1].0 == dig@);
                                    }
                                }
                                assert(groups_ok(pv.take(k as int + 1), new_groups));
                            }
                        },
                        None => {
                            let digest = copy_bytes(dig);
                            let mut paths: Vec<String> = Vec::new();
                            paths.push(outcome.0.clone());
                            groups.push(FileGroup { digest, paths });
                            proof {
                                let new_groups = groups_model(groups@);
                                let n = old_groups.len() as int;
                                assert(new_groups.len() == n + 1);
                                assert(forall|t: int|
                                    0 <= t < n ==> #[trigger] new_groups[t] == old_groups[t]);
                                assert(new_groups[n].0 == dig@);
                                assert(group_of(prefix, dig@).len() == 0) by {
                                    if group_of(prefix, dig@).len() >= 1 {
                                        lemma_group_of_source(prefix, dig@);
                                        let t = choose|t: int|
                                            0 <= t < prefix.len() && (#[trigger] prefix[t]).1
                                                == Some(dig@);
                                        assert(exists|i: int|
                                            0 <= i < old_groups.len() && (#[trigger] old_groups[i]).0
                                                == prefix[t].1->0);
                                        assert(false);
                                    }
                                }
                                assert(group_of(prefix, dig@) =~= Seq::<Seq<char>>::empty());
                                assert(new_groups[n].1 =~= group_of(prefix, dig@).push(m.0));
                                assert forall|kk: int|
                                    0 <= kk < prefix.push(m).len() && (#[trigger] prefix.push(
                                        m,
                                    )[kk]).1 is Some implies exists|i: int|
                                    0 <= i < new_groups.len() && (#[trigger] new_groups[i]).0
                                        == prefix.push(m)[kk].1->0 by {
                                    if kk < prefix.len() {
                                        let i = choose|i: int|
                                            0 <= i < old_groups.len() && (#[trigger] old_groups[i]).0
                                                == prefix[kk].1->0;
                                        assert(new_groups[i].0 == prefix.push(m)[kk].1->0);
                                    } else {
                                        assert(new_groups[n].0 == dig@);
                                    }
                                }
                                assert forall|i: int|
                                    0 <= i < new_groups.len() implies (#[trigger] new_groups[i]).1
                                    == group_of(prefix.push(m), new_groups[i].0)
                                    && new_groups[i].1.len() >= 1 by {
                                    if i < n {
                                        assert(old_groups[i].0 != dig@);
                                        assert(group_of(prefix.push(m), new_groups[i].0)
                                            == group_of(prefix, new_groups[i].0));
                                    }
                                }
                                assert(groups_ok(pv.take(k as int + 1), new_groups));
                            }
                        },
                    }
                },
            }
            k = k + 1;
        }
    }
}

/// A processor over the given candidate paths.
pub fn new(files: Vec<String>) -> (p: Processor)
    ensures
        p.files_view() == views_of(files@),
{
    Processor { files }
}

} // verus!
