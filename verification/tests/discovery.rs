use dupfind::discovery::Discovery;
use dupfind::pattern::NamePattern;

fn match_all() -> NamePattern {
    NamePattern::compile(".*").unwrap()
}

#[test]
fn depth_zero_discovers_nothing() {
    let roots = vec!["root".to_string()];
    let mut d = Discovery::new(&roots, 0, match_all());
    assert!(d.pop_pending().is_none());
    assert_eq!(d.files(), Vec::<String>::new());
}

#[test]
fn depth_one_sees_only_direct_children() {
    let roots = vec!["root".to_string()];
    let mut d = Discovery::new(&roots, 1, match_all());
    let (dir, depth) = d.pop_pending().unwrap();
    assert_eq!(dir, "root");
    assert_eq!(depth, 1);
    // The driver finds one file and one directory inside `root`.
    d.expand_dir(
        depth,
        &vec!["root/a.txt".to_string(), "root/sub".to_string()],
    );
    let (sub, sub_depth) = d.pop_pending().unwrap();
    assert_eq!(sub, "root/sub");
    assert_eq!(sub_depth, 0);
    // No depth is left for `root/sub`: its children never enter.
    d.expand_dir(sub_depth, &vec!["root/sub/deep.txt".to_string()]);
    let (file, _) = d.pop_pending().unwrap();
    assert_eq!(file, "root/a.txt");
    d.record_file(file);
    assert!(d.pop_pending().is_none());
    assert_eq!(d.files(), vec!["root/a.txt"]);
}

#[test]
fn overlapping_roots_yield_each_file_once() {
    let roots = vec!["root".to_string(), "root".to_string()];
    let mut d = Discovery::new(&roots, 2, match_all());
    while let Some((path, depth)) = d.pop_pending() {
        if path == "root" {
            d.expand_dir(depth, &vec!["root/b.txt".to_string(), "root/a.txt".to_string()]);
        } else {
            d.record_file(path);
        }
    }
    assert_eq!(d.files(), vec!["root/a.txt", "root/b.txt"]);
}

#[test]
fn pattern_filters_recorded_files() {
    let pattern = NamePattern::compile(r"\.txt$").unwrap();
    let roots = vec!["r".to_string()];
    let mut d = Discovery::new(&roots, 1, pattern);
    let (dir, depth) = d.pop_pending().unwrap();
    assert_eq!(dir, "r");
    d.expand_dir(depth, &vec!["r/keep.txt".to_string(), "r/skip.bin".to_string()]);
    while let Some((path, _)) = d.pop_pending() {
        d.record_file(path);
    }
    assert_eq!(d.files(), vec!["r/keep.txt"]);
}

#[test]
fn bad_pattern_is_rejected_at_compile_time() {
    assert!(NamePattern::compile("(unclosed").is_none());
    assert!(NamePattern::compile(".*").is_some());
}

#[test]
fn pattern_matching_follows_the_regex() {
    let p = NamePattern::compile(r"^photo_[0-9]+\.jpg$").unwrap();
    assert!(p.is_match("photo_0012.jpg"));
    assert!(!p.is_match("photo_.jpg"));
    assert!(!p.is_match("photo_0012.jpeg"));
}
