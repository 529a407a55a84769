use dupfind::processor;
use dupfind::resultset::{self, ResultSet};
use dupfind::strutil;
use dupfind::timings;
use dupfind::view::{self, Render, ViewType};
use dupfind::hashing::fingerprint_bytes;

fn two_duplicate_result() -> ResultSet {
    let outcomes = vec![
        ("root/a.txt".to_string(), Some(fingerprint_bytes(b"same 10b \n"))),
        ("root/b.txt".to_string(), Some(fingerprint_bytes(b"same 10b \n"))),
        ("root/c.txt".to_string(), Some(fingerprint_bytes(b"different"))),
    ];
    let p = processor::new(vec![]);
    let groups = p.compute_files(&outcomes);
    let mut rs = resultset::new(timings::new(), groups);
    rs.summarize(&vec![10, 9]);
    rs
}

#[test]
fn json_output_has_summary_and_data() {
    let rs = two_duplicate_result();
    let text = view::json::new().show(&rs);
    let v: serde_json::Value = serde_json::from_str(&text).unwrap();
    let summary = v.get("summary").unwrap();
    assert_eq!(summary.get("total_files").unwrap().as_u64(), Some(3));
    assert_eq!(summary.get("total_dup_files").unwrap().as_u64(), Some(1));
    assert_eq!(summary.get("file_size_total").unwrap().as_u64(), Some(10));
    let data = v.get("data").unwrap().as_array().unwrap();
    assert_eq!(data.len(), 1);
    let set = &data[0];
    assert_eq!(set.get("file_size").unwrap().as_u64(), Some(10));
    let paths = set.get("paths").unwrap().as_array().unwrap();
    assert_eq!(paths.len(), 2);
    assert_eq!(
        set.get("key").unwrap().as_str().unwrap(),
        strutil::hex_of(&fingerprint_bytes(b"same 10b \n"))
    );
}

#[test]
fn json_output_of_empty_run() {
    let p = processor::new(vec![]);
    let groups = p.compute_files(&vec![]);
    let mut rs = resultset::new(timings::new(), groups);
    rs.summarize(&vec![]);
    let text = view::json::new().show(&rs);
    assert_eq!(
        text,
        "{\"summary\":{\"file_size_total\":0,\"total_dup_files\":0,\"total_files\":0},\"data\":[]}"
    );
}

#[test]
fn json_escapes_awkward_paths() {
    let outcomes = vec![
        ("we\"ird\\path".to_string(), Some(fingerprint_bytes(b"x"))),
        ("plain".to_string(), Some(fingerprint_bytes(b"x"))),
    ];
    let p = processor::new(vec![]);
    let groups = p.compute_files(&outcomes);
    let mut rs = resultset::new(timings::new(), groups);
    rs.summarize(&vec![1]);
    let text = view::json::new().show(&rs);
    let v: serde_json::Value = serde_json::from_str(&text).unwrap();
    let paths = v.get("data").unwrap().as_array().unwrap()[0]
        .get("paths")
        .unwrap()
        .as_array()
        .unwrap();
    assert_eq!(paths[0].as_str().unwrap(), "we\"ird\\path");
    assert_eq!(paths[1].as_str().unwrap(), "plain");
}

#[test]
fn file_output_lists_only_duplicate_members() {
    let rs = two_duplicate_result();
    let text = view::file::new().show(&rs);
    assert_eq!(text, "root/a.txt\nroot/b.txt\n");
}

#[test]
fn plain_output_reports_sets_and_totals() {
    let rs = two_duplicate_result();
    let key = strutil::hex_of(&fingerprint_bytes(b"same 10b \n"));
    let text = view::plain::new().show(&rs);
    let expected = format!(
        "{}:\nroot/a.txt\nroot/b.txt\nduplicate amount size: 10 B\n\n\
         Summary:\nFiles amount: 3\nDuplicated files: 1\nDuplicated file size: 10 B\n\n\
         Timings:\nList files: 00:00:00\nCompute files: 00:00:00\nOverall: 00:00:00\n",
        key
    );
    assert_eq!(text, expected);
}

#[test]
fn view_type_reads_known_names_only() {
    assert_eq!(ViewType::from_str("plain"), Some(ViewType::Plain));
    assert_eq!(ViewType::from_str("json"), Some(ViewType::JSON));
    assert_eq!(ViewType::from_str("file"), Some(ViewType::File));
    assert_eq!(ViewType::from_str("yaml"), None);
    assert_eq!(ViewType::from_str(""), None);
}

#[test]
fn renderer_dispatch_follows_the_format() {
    let rs = two_duplicate_result();
    let through_dispatch = view::from_option(Some(ViewType::File)).show(&rs);
    assert_eq!(through_dispatch, view::file::new().show(&rs));
    let default_is_plain = view::from_option(None).show(&rs);
    assert_eq!(default_is_plain, view::plain::new().show(&rs));
    let json_direct = view::new(ViewType::JSON).show(&rs);
    assert_eq!(json_direct, view::json::new().show(&rs));
}

#[test]
fn decimal_and_hex_rendering() {
    assert_eq!(strutil::dec_of(0), "0");
    assert_eq!(strutil::dec_of(7), "7");
    assert_eq!(strutil::dec_of(1234567890), "1234567890");
    assert_eq!(strutil::hex_of(&vec![0x00, 0xff, 0x1a]), "00ff1a");
    assert_eq!(strutil::hex_of(&vec![]), "");
}

#[test]
fn json_escape_handles_specials() {
    assert_eq!(strutil::json_escape("plain"), "plain");
    assert_eq!(strutil::json_escape("a\"b"), "a\\\"b");
    assert_eq!(strutil::json_escape("a\\b"), "a\\\\b");
    assert_eq!(strutil::json_escape("a\nb"), "a\\u000ab");
    assert_eq!(strutil::json_escape("tab\tend"), "tab\\u0009end");
}
