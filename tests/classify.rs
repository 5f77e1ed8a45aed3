use ervcaller::classify::{
    call_type, classify_record, classify_records, format_call, parse_as_xs, Classification,
    Orientation, ScoringPolicy,
};

fn record(flag: &str, reference: &str, tags: &str) -> String {
    format!("read1\t{}\t{}\t100\t60\t50M\t*\t0\t0\tSEQ\tQUAL\t{}", flag, reference, tags)
}

fn call_of(c: Classification) -> ervcaller::classify::ReadSupportCall {
    match c {
        Classification::Call(c) => c,
        other => panic!("expected a call, got {:?}", other),
    }
}

#[test]
fn low_flag_dominant_score_is_right() {
    let policy = ScoringPolicy::new();
    let c = call_of(classify_record(&record("256", "chr1", "AS:i:40\tXS:i:10"), &policy));
    assert_eq!(c.read_name, "read1");
    assert_eq!(c.orientation, Orientation::Right);
    assert_eq!(c.alignment_score, 40);
    assert_eq!(c.secondary_score, 10);
    assert_eq!(c.cigar, "50M");
    assert_eq!(format_call(&c), "read1 R 40 10 50M");
}

#[test]
fn high_flag_dominant_score_is_left() {
    let policy = ScoringPolicy::new();
    let c = call_of(classify_record(&record("384", "chr1", "AS:i:40\tXS:i:10"), &policy));
    assert_eq!(c.orientation, Orientation::Left);
    assert_eq!(format_call(&c), "read1 L 40 10 50M");
}

#[test]
fn flag_128_is_left_and_127_is_right() {
    let policy = ScoringPolicy::new();
    let l = call_of(classify_record(&record("128", "chr1", "AS:i:50"), &policy));
    assert_eq!(l.orientation, Orientation::Left);
    let r = call_of(classify_record(&record("127", "chr1", "AS:i:50"), &policy));
    assert_eq!(r.orientation, Orientation::Right);
}

#[test]
fn score_below_threshold_gives_no_call() {
    let policy = ScoringPolicy::new();
    for flag in ["0", "256", "384"] {
        for tags in ["AS:i:20\tXS:i:10", "AS:i:20", "AS:i:20\tXS:i:0"] {
            let r = classify_record(&record(flag, "chr1", tags), &policy);
            assert!(matches!(r, Classification::NoCall));
        }
    }
}

#[test]
fn missing_alignment_score_gives_no_call() {
    let policy = ScoringPolicy::new();
    let r = classify_record(&record("384", "chr1", "XS:i:10\tNM:i:0"), &policy);
    assert!(matches!(r, Classification::NoCall));
}

#[test]
fn unplaced_record_gives_no_call() {
    let policy = ScoringPolicy::new();
    let r = classify_record(&record("384", "*", "AS:i:40\tXS:i:10"), &policy);
    assert!(matches!(r, Classification::NoCall));
}

#[test]
fn absent_secondary_score_counts_as_zero() {
    let policy = ScoringPolicy::new();
    let c = call_of(classify_record(&record("0", "chr1", "AS:i:30"), &policy));
    assert_eq!(c.secondary_score, 0);
    assert_eq!(format_call(&c), "read1 R 30 0 50M");
}

#[test]
fn dominance_boundary() {
    let policy = ScoringPolicy::new();
    let c = classify_record(&record("0", "chr1", "AS:i:30\tXS:i:15"), &policy);
    assert!(matches!(c, Classification::Call(_)));
    let n = classify_record(&record("0", "chr1", "AS:i:30\tXS:i:16"), &policy);
    assert!(matches!(n, Classification::NoCall));
}

#[test]
fn negative_secondary_score_is_dominated() {
    let policy = ScoringPolicy::new();
    let c = call_of(classify_record(&record("0", "chr1", "AS:i:35\tXS:i:-4"), &policy));
    assert_eq!(format_call(&c), "read1 R 35 -4 50M");
}

#[test]
fn malformed_numbers_are_reported() {
    let policy = ScoringPolicy::new();
    let bad_as = classify_record(&record("0", "chr1", "AS:i:4x\tXS:i:10"), &policy);
    assert!(matches!(bad_as, Classification::Malformed));
    let bad_xs = classify_record(&record("0", "chr1", "AS:i:40\tXS:i:"), &policy);
    assert!(matches!(bad_xs, Classification::Malformed));
    let bad_flag = classify_record(&record("0x10", "chr1", "AS:i:40"), &policy);
    assert!(matches!(bad_flag, Classification::Malformed));
    let too_big = classify_record(&record("0", "chr1", "AS:i:2147483648"), &policy);
    assert!(matches!(too_big, Classification::Malformed));
}

#[test]
fn short_line_gives_no_call() {
    let policy = ScoringPolicy::new();
    assert!(matches!(classify_record("read1 0", &policy), Classification::NoCall));
    assert!(matches!(classify_record("", &policy), Classification::NoCall));
}

#[test]
fn custom_policy_is_used() {
    let policy = ScoringPolicy { min_alignment_score: 10, dominance_multiplier: 3 };
    let c = classify_record(&record("0", "chr1", "AS:i:20\tXS:i:6"), &policy);
    assert!(matches!(c, Classification::Call(_)));
    let n = classify_record(&record("0", "chr1", "AS:i:20\tXS:i:7"), &policy);
    assert!(matches!(n, Classification::NoCall));
}

#[test]
fn parse_as_xs_takes_last_optional_tags() {
    let line = record("0", "chr1", "AS:i:12\tXS:i:3\tAS:i:40");
    let (a, x) = parse_as_xs(&line);
    assert_eq!(a.as_deref(), Some("40"));
    assert_eq!(x.as_deref(), Some("3"));
}

#[test]
fn parse_as_xs_ignores_mandatory_fields() {
    let line = "AS:i:9 0 chr1 100 60 50M * 0 0 SEQ QUAL";
    assert_eq!(parse_as_xs(line), (None, None));
    let unplaced = record("0", "*", "AS:i:40\tXS:i:1");
    assert_eq!(parse_as_xs(&unplaced), (None, None));
}

#[test]
fn spaces_separate_fields_too() {
    let policy = ScoringPolicy::new();
    let line = "read1 256 chr1 100 60 50M * 0 0 SEQ QUAL AS:i:40 XS:i:10";
    let c = call_of(classify_record(line, &policy));
    assert_eq!(format_call(&c), "read1 R 40 10 50M");
}

#[test]
fn stream_keeps_order_and_isolates_bad_records() {
    let policy = ScoringPolicy::new();
    let lines = vec![
        record("384", "chr1", "AS:i:40\tXS:i:10"),
        record("0", "chr1", "AS:i:oops"),
        record("0", "chr1", "XS:i:10"),
        "read2\t0\tchr2\t5\t60\t20S30M\t*\t0\t0\tSEQ\tQUAL\tAS:i:31".to_string(),
    ];
    let report = classify_records(&lines, &policy);
    assert_eq!(report.calls.len(), 2);
    assert_eq!(report.calls[0].orientation, Orientation::Left);
    assert_eq!(report.calls[1].read_name, "read2");
    assert_eq!(report.calls[1].cigar, "20S30M");
    assert_eq!(report.malformed, vec![1]);
    assert!(report.calls.len() <= lines.len());
}

#[test]
fn call_type_writes_breakpoint_lines() {
    let policy = ScoringPolicy::new();
    let lines = vec![
        record("256", "chr1", "AS:i:40\tXS:i:10"),
        record("384", "chr1", "AS:i:40\tXS:i:10"),
        record("384", "chr1", "AS:i:20\tXS:i:10"),
    ];
    let (out, bad) = call_type(&lines, &policy);
    assert_eq!(out, vec!["read1 R 40 10 50M".to_string(), "read1 L 40 10 50M".to_string()]);
    assert!(bad.is_empty());
}

#[test]
fn empty_stream_gives_nothing() {
    let report = classify_records(&Vec::new(), &ScoringPolicy::new());
    assert!(report.calls.is_empty());
    assert!(report.malformed.is_empty());
}

#[test]
fn unicode_whitespace_separates_fields() {
    let policy = ScoringPolicy::new();
    let line = "read1\u{0B}384\u{A0}chr1 100\u{3000}60 50M * 0 0 SEQ QUAL\u{85}AS:i:40 XS:i:10";
    let c = call_of(classify_record(line, &policy));
    assert_eq!(format_call(&c), "read1 L 40 10 50M");
}
