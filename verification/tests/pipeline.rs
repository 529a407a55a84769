use dupfind::hashing::{fingerprint_bytes, Hasher};
use dupfind::processor::{self, HashOutcome};
use dupfind::resultset::{self, first_good_size};
use dupfind::timings;

fn outcome(path: &str, content: Option<&[u8]>) -> HashOutcome {
    (path.to_string(), content.map(fingerprint_bytes))
}

#[test]
fn fingerprints_are_deterministic() {
    let a = fingerprint_bytes(b"some file content");
    let b = fingerprint_bytes(b"some file content");
    let c = fingerprint_bytes(b"other content");
    assert_eq!(a, b);
    assert_ne!(a, c);
    assert_eq!(a.len(), 16);
}

#[test]
fn chunked_hashing_matches_whole_input() {
    let mut h = Hasher::new();
    h.consume(b"some file");
    h.consume(b" content");
    assert_eq!(h.finish(), fingerprint_bytes(b"some file content"));
}

#[test]
fn known_digest_in_hex() {
    let d = fingerprint_bytes(b"hello world");
    assert_eq!(
        dupfind::strutil::hex_of(&d),
        "5eb63bbbe01eeed093cb22bb8f5acdc3"
    );
}

#[test]
fn unique_contents_give_no_duplicates() {
    let outcomes = vec![
        outcome("a.txt", Some(b"alpha")),
        outcome("b.txt", Some(b"beta")),
        outcome("c.txt", Some(b"gamma")),
    ];
    let p = processor::new(vec![
        "a.txt".to_string(),
        "b.txt".to_string(),
        "c.txt".to_string(),
    ]);
    let groups = p.compute_files(&outcomes);
    assert_eq!(groups.len(), 3);
    let mut rs = resultset::new(timings::new(), groups);
    rs.summarize(&vec![5, 4, 5]);
    assert_eq!(rs.summary.total_files, 3);
    assert_eq!(rs.summary.total_dup_files, 0);
    assert_eq!(rs.summary.file_size_total, 0);
    assert_eq!(rs.fileset.len(), 0);
}

#[test]
fn identical_contents_form_one_set() {
    let outcomes = vec![
        outcome("a.txt", Some(b"same bytes")),
        outcome("b.txt", Some(b"same bytes")),
        outcome("c.txt", Some(b"same bytes")),
    ];
    let p = processor::new(vec![]);
    let groups = p.compute_files(&outcomes);
    assert_eq!(groups.len(), 1);
    assert_eq!(groups[0].paths, vec!["a.txt", "b.txt", "c.txt"]);
    let mut rs = resultset::new(timings::new(), groups);
    rs.summarize(&vec![10]);
    assert_eq!(rs.summary.total_files, 3);
    assert_eq!(rs.summary.total_dup_files, 2);
    assert_eq!(rs.summary.file_size_total, 20);
    assert_eq!(rs.fileset.len(), 1);
    assert_eq!(rs.fileset[0].paths.len(), 3);
    assert_eq!(rs.fileset[0].file_size, 10);
}

#[test]
fn failed_hashes_are_excluded() {
    let outcomes = vec![
        outcome("a.txt", Some(b"kept")),
        outcome("vanished.txt", None),
        outcome("b.txt", Some(b"kept")),
    ];
    let p = processor::new(vec![]);
    let groups = p.compute_files(&outcomes);
    assert_eq!(groups.len(), 1);
    assert_eq!(groups[0].paths, vec!["a.txt", "b.txt"]);
    let mut rs = resultset::new(timings::new(), groups);
    rs.summarize(&vec![4]);
    assert_eq!(rs.summary.total_files, 2);
    assert_eq!(rs.summary.total_dup_files, 1);
    assert_eq!(rs.summary.file_size_total, 4);
}

#[test]
fn two_duplicates_and_one_unique() {
    let outcomes = vec![
        outcome("root/a.txt", Some(b"same 10b \n")),
        outcome("root/b.txt", Some(b"same 10b \n")),
        outcome("root/c.txt", Some(b"different")),
    ];
    let p = processor::new(vec![]);
    let groups = p.compute_files(&outcomes);
    assert_eq!(groups.len(), 2);
    let mut rs = resultset::new(timings::new(), groups);
    rs.summarize(&vec![10, 9]);
    assert_eq!(rs.summary.total_files, 3);
    assert_eq!(rs.summary.total_dup_files, 1);
    assert_eq!(rs.summary.file_size_total, 10);
    assert_eq!(rs.fileset.len(), 1);
    assert_eq!(rs.fileset[0].file_size, 10);
    let mut paths = rs.fileset[0].paths.clone();
    paths.sort();
    assert_eq!(paths, vec!["root/a.txt", "root/b.txt"]);
}

#[test]
fn empty_run_is_all_zeroes() {
    let p = processor::new(vec![]);
    let groups = p.compute_files(&vec![]);
    assert_eq!(groups.len(), 0);
    let mut rs = resultset::new(timings::new(), groups);
    rs.summarize(&vec![]);
    assert_eq!(rs.summary.total_files, 0);
    assert_eq!(rs.summary.total_dup_files, 0);
    assert_eq!(rs.summary.file_size_total, 0);
    assert_eq!(rs.fileset.len(), 0);
}

#[test]
fn grouping_ignores_arrival_order() {
    let a = outcome("a.txt", Some(b"same"));
    let b = outcome("b.txt", Some(b"same"));
    let c = outcome("c.txt", Some(b"lone"));
    let p = processor::new(vec![]);
    let g1 = p.compute_files(&vec![a.clone(), b.clone(), c.clone()]);
    let g2 = p.compute_files(&vec![c, b, a]);
    assert_eq!(g1.len(), g2.len());
    for g in &g1 {
        let other = g2.iter().find(|o| o.digest == g.digest).unwrap();
        let mut p1 = g.paths.clone();
        let mut p2 = other.paths.clone();
        p1.sort();
        p2.sort();
        assert_eq!(p1, p2);
    }
}

#[test]
fn first_good_size_takes_first_measurement() {
    assert_eq!(first_good_size(&vec![None, Some(7), Some(9)]), 7);
    assert_eq!(first_good_size(&vec![None, None]), 0);
    assert_eq!(first_good_size(&vec![]), 0);
    assert_eq!(first_good_size(&vec![Some(3)]), 3);
}

#[test]
fn stopwatch_measures_named_phase() {
    let mut w = timings::new();
    w.start(timings::Timer::List, 1_000_000_000);
    w.stop(timings::Timer::List, 3_500_000_000);
    assert_eq!(w.duration(timings::Timer::List), Some(2_500_000_000));
    assert_eq!(w.duration(timings::Timer::Compute), Some(0));
    w.start(timings::Timer::Compute, 10);
    w.stop(timings::Timer::Compute, 5);
    assert_eq!(w.duration(timings::Timer::Compute), None);
    assert_eq!(w.duration_as_string(timings::Timer::Compute), "");
    assert_eq!(w.duration_as_string(timings::Timer::List), "00:00:02");
}

#[test]
fn hashing_is_stable_across_chunking() {
    // Larger than one internal buffer, so the chunked walk matters.
    let big: Vec<u8> = (0..200_000u32).map(|i| (i % 251) as u8).collect();
    let whole = fingerprint_bytes(&big);
    let mut h = Hasher::new();
    for chunk in big.chunks(7_000) {
        h.consume(chunk);
    }
    assert_eq!(h.finish(), whole);
    assert_eq!(fingerprint_bytes(&big), whole);
}

#[test]
fn reclaimable_bytes_saturate_instead_of_overflowing() {
    let outcomes = vec![
        outcome("a", Some(b"huge")),
        outcome("b", Some(b"huge")),
        outcome("c", Some(b"huge")),
    ];
    let p = processor::new(vec![]);
    let groups = p.compute_files(&outcomes);
    let mut rs = resultset::new(timings::new(), groups);
    rs.summarize(&vec![usize::MAX]);
    assert_eq!(rs.summary.total_dup_files, 2);
    assert_eq!(rs.summary.file_size_total, usize::MAX);
}
