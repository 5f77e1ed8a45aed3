use ervcaller::split_filter::{filter_split_reads, header_index, keep_group};

fn group(header: &str) -> Vec<String> {
    vec![header.to_string(), "ACGT".to_string(), "+".to_string(), "IIII".to_string()]
}

#[test]
fn index_five_drops_the_group() {
    let lines = group("@soft|x|5|y");
    assert!(filter_split_reads(&lines).is_empty());
}

#[test]
fn index_six_keeps_the_group_verbatim() {
    let lines = group("@soft|x|6|y");
    assert_eq!(filter_split_reads(&lines), lines);
}

#[test]
fn every_residue_mod_four() {
    assert!(!keep_group("@soft|a|4|b"));
    assert!(!keep_group("@soft|a|1|b"));
    assert!(keep_group("@soft|a|2|b"));
    assert!(keep_group("@soft|a|3|b"));
    assert!(keep_group("@soft|a|7"));
}

#[test]
fn unreadable_index_counts_as_zero() {
    assert_eq!(header_index("@soft|a|zz|b"), 0);
    assert_eq!(header_index("@soft|a"), 0);
    assert!(!keep_group("@soft|a|zz|b"));
    assert!(!keep_group("@soft"));
}

#[test]
fn index_is_trimmed() {
    assert_eq!(header_index("@soft|a| 11 |b"), 11);
    assert_eq!(header_index("@soft|a|10\n"), 10);
    assert!(keep_group("@soft|a| 11 |b"));
}

#[test]
fn unmarked_groups_pass_through() {
    assert!(keep_group("@read7/1"));
    let lines = group("@read7/1");
    assert_eq!(filter_split_reads(&lines), lines);
}

#[test]
fn mixed_stream_keeps_order() {
    let mut lines = Vec::new();
    lines.extend(group("@soft|r1|6|y"));
    lines.extend(group("@soft|r2|5|y"));
    lines.extend(group("@other"));
    lines.extend(group("@soft|r3|3"));
    let mut expected = Vec::new();
    expected.extend(group("@soft|r1|6|y"));
    expected.extend(group("@other"));
    expected.extend(group("@soft|r3|3"));
    assert_eq!(filter_split_reads(&lines), expected);
}

#[test]
fn short_last_group_follows_its_header() {
    let mut lines = group("@soft|r1|2");
    lines.push("@soft|r2|1".to_string());
    lines.push("AC".to_string());
    assert_eq!(filter_split_reads(&lines), group("@soft|r1|2"));
    let tail = vec!["@soft|r3|2".to_string(), "AC".to_string()];
    assert_eq!(filter_split_reads(&tail), tail);
}

#[test]
fn empty_stream_stays_empty() {
    assert!(filter_split_reads(&Vec::new()).is_empty());
}

#[test]
fn index_is_trimmed_of_unicode_whitespace() {
    assert_eq!(header_index("@soft|a|\u{0B}6\u{A0}|b"), 6);
    assert!(keep_group("@soft|a|\u{2003}6\u{2003}|b"));
}
