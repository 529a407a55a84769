//! The laws of the pipeline: what grouping and summarization
//! guarantee together, stated over the groups' mathematical content
//! and proved from the contracts alone.

use vstd::prelude::*;

verus! {

use vstd::multiset::Multiset;
use crate::processor::{groups_ok, group_of, lemma_group_of_source};
use crate::resultset::{total_files_of, dup_files_of, dup_size_of, filesets_of};

proof fn lemma_filter_one_index<A>(s: Seq<A>, pred: spec_fn(A) -> bool)
    requires
        s.filter(pred).len() >= 1,
    ensures
        exists|k: int| 0 <= k < s.len() && pred(#[trigger] s[k]),
    decreases s.len(),
{
    reveal(Seq::filter);
    assert(s.len() > 0);
    if pred(s.last()) {
        assert(pred(s[s.len() - 1]));
    } else {
        assert(s.filter(pred) == s.drop_last().filter(pred));
        lemma_filter_one_index(s.drop_last(), pred);
        let k = choose|k: int| 0 <= k < s.drop_last().len() && pred(#[trigger] s.drop_last()[k]);
        assert(pred(s[k]));
    }
}

proof fn lemma_filter_two_indices<A>(s: Seq<A>, pred: spec_fn(A) -> bool)
    requires
        s.filter(pred).len() >= 2,
    ensures
        exists|k1: int, k2: int|
            0 <= k1 < k2 < s.len() && pred(#[trigger] s[k1]) && pred(#[trigger] s[k2]),
    decreases s.len(),
{
    reveal(Seq::filter);
    assert(s.len() > 0);
    if pred(s.last()) {
        assert(s.filter(pred) == s.drop_last().filter(pred).push(s.last()));
        lemma_filter_one_index(s.drop_last(), pred);
        let k = choose|k: int| 0 <= k < s.drop_last().len() && pred(#[trigger] s.drop_last()[k]);
        assert(pred(s[k]));
        assert(pred(s[s.len() - 1]));
    } else {
        assert(s.filter(pred) == s.drop_last().filter(pred));
        lemma_filter_two_indices(s.drop_last(), pred);
        let (k1, k2) = choose|k1: int, k2: int|
            0 <= k1 < k2 < s.drop_last().len() && pred(#[trigger] s.drop_last()[k1]) && pred(
                #[trigger] s.drop_last()[k2],
            );
        assert(pred(s[k1]));
        assert(pred(s[k2]));
    }
}

proof fn lemma_filter_all<A>(s: Seq<A>, pred: spec_fn(A) -> bool)
    requires
        forall|k: int| 0 <= k < s.len() ==> pred(#[trigger] s[k]),
    ensures
        s.filter(pred) == s,
    decreases s.len(),
{
    reveal(Seq::filter);
    if s.len() > 0 {
        lemma_filter_all(s.drop_last(), pred);
        assert(s.drop_last().push(s.last()) =~= s);
    }
}

proof fn lemma_small_groups(gv: Seq<(Seq<u8>, Seq<Seq<char>>)>, sizes: Seq<usize>)
    requires
        forall|i: int| 0 <= i < gv.len() ==> (#[trigger] gv[i]).1.len() <= 1,
    ensures
        dup_files_of(gv) == 0,
        filesets_of(gv, sizes) == Seq::<(Seq<char>, Seq<Seq<char>>, usize)>::empty(),
    decreases gv.len(),
{
    if gv.len() > 0 {
        assert(forall|i: int|
            0 <= i < gv.drop_last().len() ==> (#[trigger] gv.drop_last()[i]).1.len() <= 1);
        lemma_small_groups(gv.drop_last(), sizes.drop_last());
        assert(gv.last().1.len() <= 1);
        assert(filesets_of(gv, sizes) =~= Seq::<(Seq<char>, Seq<Seq<char>>, usize)>::empty());
    }
}

/// Where no two successfully hashed files share a fingerprint, there
/// are no duplicate sets and nothing counts as a duplicate,
/// whatever sizes were measured.
pub proof fn lemma_unique_contents_no_duplicates(
    pairs: Seq<(Seq<char>, Option<Seq<u8>>)>,
    gv: Seq<(Seq<u8>, Seq<Seq<char>>)>,
    sizes: Seq<usize>,
)
    requires
        groups_ok(pairs, gv),
        forall|k1: int, k2: int|
            0 <= k1 < k2 < pairs.len() && (#[trigger] pairs[k1]).1 is Some && (
            #[trigger] pairs[k2]).1 is Some ==> pairs[k1].1 != pairs[k2].1,
    ensures
        dup_files_of(gv) == 0,
        filesets_of(gv, sizes) == Seq::<(Seq<char>, Seq<Seq<char>>, usize)>::empty(),
{
    assert forall|i: int| 0 <= i < gv.len() implies (#[trigger] gv[i]).1.len() <= 1 by {
        let d = gv[i].0;
        let pred = |p: (Seq<char>, Option<Seq<u8>>)| p.1 == Some(d);
        if gv[i].1.len() >= 2 {
            assert(pairs.filter(pred).len() >= 2);
            lemma_filter_two_indices(pairs, pred);
            let (k1, k2) = choose|k1: int, k2: int|
                0 <= k1 < k2 < pairs.len() && pred(#[trigger] pairs[k1]) && pred(
                    #[trigger] pairs[k2],
                );
            assert(pairs[k1].1 == Some(d) && pairs[k2].1 == Some(d));
            assert(false);
        }
    }
    lemma_small_groups(gv, sizes);
}

/// Where every hashed file has the same fingerprint, all of them
/// form one group, and its duplicate set reclaims one size times one
/// less than their number.
pub proof fn lemma_identical_contents_one_group(
    pairs: Seq<(Seq<char>, Option<Seq<u8>>)>,
    gv: Seq<(Seq<u8>, Seq<Seq<char>>)>,
    sizes: Seq<usize>,
    d: Seq<u8>,
)
    requires
        groups_ok(pairs, gv),
        pairs.len() >= 1,
        forall|k: int| 0 <= k < pairs.len() ==> (#[trigger] pairs[k]).1 == Some(d),
        sizes.len() == gv.len(),
    ensures
        gv.len() == 1,
        gv[0].0 == d,
        gv[0].1 == pairs.map_values(|p: (Seq<char>, Option<Seq<u8>>)| p.0),
        total_files_of(gv) == pairs.len(),
        pairs.len() >= 2 ==> dup_files_of(gv) == pairs.len() - 1,
        pairs.len() >= 2 ==> dup_size_of(gv, sizes) == sizes[0] * (pairs.len() - 1),
        pairs.len() >= 2 ==> filesets_of(gv, sizes) =~= seq![
            (crate::strutil::hex_str(d), gv[0].1, sizes[0]),
        ],
        pairs.len() < 2 ==> dup_files_of(gv) == 0,
{
    let pred = |p: (Seq<char>, Option<Seq<u8>>)| p.1 == Some(d);
    assert(pairs[0].1 is Some);
    assert(exists|i: int| 0 <= i < gv.len() && (#[trigger] gv[i]).0 == pairs[0].1->0);
    assert forall|i: int| 0 <= i < gv.len() implies (#[trigger] gv[i]).0 == d by {
        lemma_group_of_source(pairs, gv[i].0);
        let k = choose|k: int| 0 <= k < pairs.len() && (#[trigger] pairs[k]).1 == Some(gv[i].0);
    }
    if gv.len() >= 2 {
        assert(gv[0].0 != gv[1].0);
        assert(false);
    }
    assert(gv.len() == 1);
    lemma_filter_all(pairs, pred);
    assert(gv[0].1 == group_of(pairs, d));
    assert(group_of(pairs, d) == pairs.map_values(|p: (Seq<char>, Option<Seq<u8>>)| p.0));
    assert(total_files_of(gv) == total_files_of(gv.drop_last()) + gv.last().1.len());
    assert(gv.drop_last().len() == 0);
    assert(total_files_of(gv.drop_last()) == 0);
    assert(gv.last() == gv[0]);
    assert(gv[0].1.len() == pairs.len());
    assert(dup_files_of(gv.drop_last()) == 0);
    assert(dup_size_of(gv.drop_last(), sizes.drop_last()) == 0);
    assert(filesets_of(gv.drop_last(), sizes.drop_last()) =~= Seq::<
        (Seq<char>, Seq<Seq<char>>, usize),
    >::empty());
    if pairs.len() >= 2 {
        assert(dup_files_of(gv) == gv.last().1.len() - 1);
        assert(dup_size_of(gv, sizes) == sizes.last() * (gv.last().1.len() - 1));
        assert(sizes.last() == sizes[0]);
        assert(filesets_of(gv, sizes) =~= seq![(crate::strutil::hex_str(d), gv[0].1, sizes[0])]);
    }
}

/// Grouping does not depend on the order in which outcomes arrive:
/// runs over the same outcomes in any order give, for each
/// fingerprint, the same multiset of member paths.
/// A group with this digest and this multiset of members appears
/// among the given groups.
pub open spec fn group_matched(
    g: (Seq<u8>, Seq<Seq<char>>),
    gv: Seq<(Seq<u8>, Seq<Seq<char>>)>,
) -> bool {
    exists|j: int|
        0 <= j < gv.len() && (#[trigger] gv[j]).0 == g.0 && gv[j].1.to_multiset()
            == g.1.to_multiset()
}

pub proof fn lemma_grouping_order_independent(
    pairs1: Seq<(Seq<char>, Option<Seq<u8>>)>,
    pairs2: Seq<(Seq<char>, Option<Seq<u8>>)>,
    gv1: Seq<(Seq<u8>, Seq<Seq<char>>)>,
    gv2: Seq<(Seq<u8>, Seq<Seq<char>>)>,
)
    requires
        groups_ok(pairs1, gv1),
        groups_ok(pairs2, gv2),
        pairs1.to_multiset() == pairs2.to_multiset(),
    ensures
        forall|i: int| 0 <= i < gv1.len() ==> group_matched(#[trigger] gv1[i], gv2),
{
    broadcast use vstd::seq_lib::group_to_multiset_ensures;

    assert forall|i: int| 0 <= i < gv1.len() implies group_matched(#[trigger] gv1[i], gv2) by {
        let d = gv1[i].0;
        lemma_group_of_source(pairs1, d);
        let k = choose|k: int| 0 <= k < pairs1.len() && (#[trigger] pairs1[k]).1 == Some(d);
        assert(pairs1.to_multiset().count(pairs1[k]) > 0);
        assert(pairs2.to_multiset().count(pairs1[k]) > 0);
        assert(pairs2.contains(pairs1[k]));
        let k2 = choose|k2: int| 0 <= k2 < pairs2.len() && pairs2[k2] == pairs1[k];
        assert(pairs2[k2].1 is Some);
        let j = choose|j: int| 0 <= j < gv2.len() && (#[trigger] gv2[j]).0 == pairs2[k2].1->0;
        assert(gv2[j].0 == d);
        assert(gv2[j].1.to_multiset() =~= gv1[i].1.to_multiset()) by {
            assert forall|x: Seq<char>|
                gv2[j].1.to_multiset().count(x) == gv1[i].1.to_multiset().count(x) by {
                lemma_group_count(pairs1, d, x);
                lemma_group_count(pairs2, d, x);
            }
        }
        assert(0 <= j < gv2.len() && gv2[j].0 == gv1[i].0 && gv2[j].1.to_multiset()
            == gv1[i].1.to_multiset());
    }
}

/// How often a path appears in a fingerprint's group: as often as
/// the pair of that path and that fingerprint appears among the
/// outcomes.
proof fn lemma_group_count(pairs: Seq<(Seq<char>, Option<Seq<u8>>)>, d: Seq<u8>, x: Seq<char>)
    ensures
        group_of(pairs, d).to_multiset().count(x) == pairs.to_multiset().count((x, Some(d))),
    decreases pairs.len(),
{
    broadcast use vstd::seq_lib::group_to_multiset_ensures;

    if pairs.len() == 0 {
        assert(group_of(pairs, d) =~= Seq::<Seq<char>>::empty());
        assert(Seq::<Seq<char>>::empty().to_multiset() =~= Multiset::<Seq<char>>::empty());
        assert(pairs.to_multiset() =~= Multiset::<(Seq<char>, Option<Seq<u8>>)>::empty());
    } else {
        let p = pairs.drop_last();
        let m = pairs.last();
        assert(pairs =~= p.push(m));
        lemma_group_count(p, d, x);
        crate::processor::lemma_group_of_push(p, m, d);
        assert(pairs.to_multiset() =~= p.to_multiset().insert(m));
        if m.1 == Some(d) {
            assert(group_of(pairs, d).to_multiset() =~= group_of(p, d).to_multiset().insert(
                m.0,
            ));
            if x == m.0 {
                assert(m == (x, Some(d)));
            } else {
                assert(m != (x, Some(d)));
            }
        } else {
            assert(m != (x, Some(d)));
        }
    }
}

} // verus!
