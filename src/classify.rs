//! Classification of aligned-read records into left- or right-flanking
//! breakpoint support, from their alignment-score tags and bit flag.
use vstd::prelude::*;
use vstd::string::*;
use crate::numeric::{i32_literal, opt_int, parse_i32_in, append_i32, decimal_text};
use crate::text::{fields, starts_with, split_fields, has_prefix};

verus! {

/// Which side of an insertion a supporting read flanks.
#[derive(Clone, Copy, Debug, PartialEq, Eq, Structural)]
pub enum Orientation {
    Left,
    Right,
}

/// The two numbers that decide whether a read supports a breakpoint.
#[derive(Clone, Copy, Debug, PartialEq, Eq, Structural)]
pub struct ScoringPolicy {
    /// Least primary alignment score (`AS`) that counts.
    pub min_alignment_score: i32,
    /// How many times the secondary score (`XS`) the primary one must reach.
    pub dominance_multiplier: i32,
}

pub const DEFAULT_MIN_ALIGNMENT_SCORE: i32 = 30;

pub const DEFAULT_DOMINANCE_MULTIPLIER: i32 = 2;

impl ScoringPolicy {
    /// The usual policy: a score of at least 30, at least twice the secondary one.
    pub fn new() -> (r: ScoringPolicy)
        ensures
            r.min_alignment_score == 30,
            r.dominance_multiplier == 2,
    {
        ScoringPolicy {
            min_alignment_score: DEFAULT_MIN_ALIGNMENT_SCORE,
            dominance_multiplier: DEFAULT_DOMINANCE_MULTIPLIER,
        }
    }
}

/// One read that supports a breakpoint.
#[derive(Clone, Debug)]
pub struct ReadSupportCall {
    pub read_name: String,
    pub orientation: Orientation,
    pub alignment_score: i32,
    pub secondary_score: i32,
    pub cigar: String,
}

/// What a [`ReadSupportCall`] holds, as mathematical values.
pub struct CallView {
    pub read_name: Seq<char>,
    pub orientation: Orientation,
    pub alignment_score: int,
    pub secondary_score: int,
    pub cigar: Seq<char>,
}

impl View for ReadSupportCall {
    type V = CallView;

    open spec fn view(&self) -> CallView {
        CallView {
            read_name: self.read_name@,
            orientation: self.orientation,
            alignment_score: self.alignment_score as int,
            secondary_score: self.secondary_score as int,
            cigar: self.cigar@,
        }
    }
}

/// The outcome of classifying one record.
#[derive(Debug)]
pub enum Classification {
    /// The record supports a breakpoint.
    Call(ReadSupportCall),
    /// The record is unmapped, has no `AS` tag, or its scores fall short.
    NoCall,
    /// The flag, `AS` or `XS` value is not an `i32` literal.
    Malformed,
}

pub enum Verdict {
    Call(CallView),
    NoCall,
    Malformed,
}

impl View for Classification {
    type V = Verdict;

    open spec fn view(&self) -> Verdict {
        match self {
            Classification::Call(c) => Verdict::Call(c@),
            Classification::NoCall => Verdict::NoCall,
            Classification::Malformed => Verdict::Malformed,
        }
    }
}

pub open spec fn as_tag() -> Seq<char> {
    seq!['A', 'S', ':', 'i', ':']
}

pub open spec fn xs_tag() -> Seq<char> {
    seq!['X', 'S', ':', 'i', ':']
}

/// Index of the first optional field of an alignment record.
pub open spec fn first_optional_field() -> int {
    11
}

/// The value of the last optional field among `fs[11..n]` that starts with
/// `tag`, with the tag removed.
pub open spec fn tag_value(fs: Seq<Seq<char>>, tag: Seq<char>, n: int) -> Option<Seq<char>>
    decreases n,
{
    if n <= first_optional_field() {
        None
    } else if starts_with(fs[n - 1], tag) {
        Some(fs[n - 1].skip(tag.len() as int))
    } else {
        tag_value(fs, tag, n - 1)
    }
}

/// A record whose reference field is missing or the unmapped sentinel `*`.
pub open spec fn unplaced(fs: Seq<Seq<char>>) -> bool {
    fs.len() < 3 || fs[2] == seq!['*']
}

/// The raw `AS` and `XS` values of a record; none for an unplaced one.
pub open spec fn score_tags(fs: Seq<Seq<char>>) -> (Option<Seq<char>>, Option<Seq<char>>) {
    if unplaced(fs) {
        (None, None)
    } else {
        (tag_value(fs, as_tag(), fs.len() as int), tag_value(fs, xs_tag(), fs.len() as int))
    }
}

/// The secondary score: 0 when the tag is absent.
pub open spec fn secondary_value(xs: Option<Seq<char>>) -> Option<int> {
    match xs {
        None => Some(0),
        Some(t) => i32_literal(t),
    }
}

/// Whether the scores pass the policy.
pub open spec fn scores_pass(a: int, x: int, threshold: int, multiplier: int) -> bool {
    a >= threshold && a >= multiplier * x
}

/// The orientation that a bit flag gives: `Left` when flag mod 256 is at least 128.
pub open spec fn orientation_of(flag: int) -> Orientation {
    if flag % 256 >= 128 {
        Orientation::Left
    } else {
        Orientation::Right
    }
}

/// The classification of one record line under a policy.
pub open spec fn verdict(line: Seq<char>, threshold: int, multiplier: int) -> Verdict {
    let fs = fields(line);
    let (a, x) = score_tags(fs);
    match a {
        None => Verdict::NoCall,
        Some(at) => match (i32_literal(fs[1]), i32_literal(at), secondary_value(x)) {
            (Some(flag), Some(av), Some(xv)) => if scores_pass(av, xv, threshold, multiplier) {
                Verdict::Call(
                    CallView {
                        read_name: fs[0],
                        orientation: orientation_of(flag),
                        alignment_score: av,
                        secondary_score: xv,
                        cigar: fs[5],
                    },
                )
            } else {
                Verdict::NoCall
            },
            _ => Verdict::Malformed,
        },
    }
}

pub open spec fn opt_view(o: Option<String>) -> Option<Seq<char>> {
    match o {
        Some(s) => Some(s@),
        None => None,
    }
}

proof fn lemma_tag_value_index(fs: Seq<Seq<char>>, tag: Seq<char>, n: int)
    requires
        tag_value(fs, tag, n) is Some,
    ensures
        n > first_optional_field(),
    decreases n,
{
    if n > first_optional_field() {
    } else {
    }
}

/// The value of the last optional field of `fs` that starts with `tag`.
fn find_tag(fs: &Vec<String>, tag: &str) -> (r: Option<String>)
    ensures
        opt_view(r) == tag_value(fs.deep_view(), tag@, fs.len() as int),
{
    let n = fs.len();
    if n <= 11 {
        return None;
    }
    let m = tag.unicode_len();
    let mut found: Option<String> = None;
    let mut i: usize = 11;
    while i < n
        invariant
            11 <= i <= n,
            n == fs.len(),
            m == tag@.len(),
            opt_view(found) == tag_value(fs.deep_view(), tag@, i as int),
        decreases n - i,
    {
        let f = fs[i].as_str();
        assert(f@ == fs.deep_view()[i as int]);
        if has_prefix(f, tag) {
            let k = f.unicode_len();
            found = Some(f.substring_char(m, k).to_owned());
            assert(f@.subrange(m as int, k as int) =~= f@.skip(m as int));
        }
        i = i + 1;
    }
    found
}

fn is_star(s: &str) -> (r: bool)
    ensures
        r == (s@ == seq!['*']),
{
    if s.unicode_len() != 1 {
        return false;
    }
    let c = s.get_char(0);
    proof {
        if c == '*' {
            assert(s@ =~= seq!['*']);
        }
    }
    c == '*'
}

fn score_tags_of(fs: &Vec<String>) -> (r: (Option<String>, Option<String>))
    ensures
        (opt_view(r.0), opt_view(r.1)) == score_tags(fs.deep_view()),
{
    proof {
        reveal_strlit("AS:i:");
        reveal_strlit("XS:i:");
        assert("AS:i:"@ =~= as_tag());
        assert("XS:i:"@ =~= xs_tag());
    }
    if fs.len() < 3 || is_star(fs[2].as_str()) {
        return (None, None);
    }
    (find_tag(fs, "AS:i:"), find_tag(fs, "XS:i:"))
}

/// The raw `AS` and `XS` tag values of an alignment record line: none when
/// the record has no reference (`*`); where a tag occurs more than once, the
/// last occurrence.
pub fn parse_as_xs(line: &str) -> (r: (Option<String>, Option<String>))
    ensures
        (opt_view(r.0), opt_view(r.1)) == score_tags(fields(line@)),
{
    let fs = split_fields(line);
    score_tags_of(&fs)
}

fn parse_whole(s: &str) -> (r: Option<i32>)
    ensures
        opt_int(r) == i32_literal(s@),
{
    let n = s.unicode_len();
    let r = parse_i32_in(s, 0, n);
    assert(s@.subrange(0, n as int) =~= s@);
    r
}

/// Classifies one alignment record line.
pub fn classify_record(line: &str, policy: &ScoringPolicy) -> (r: Classification)
    ensures
        r@ == verdict(
            line@,
            policy.min_alignment_score as int,
            policy.dominance_multiplier as int,
        ),
{
    let fs = split_fields(line);
    let (a, x) = score_tags_of(&fs);
    let ghost dv = fs.deep_view();
    let at = match a {
        None => {
            return Classification::NoCall;
        },
        Some(t) => t,
    };
    proof {
        lemma_tag_value_index(dv, as_tag(), dv.len() as int);
    }
    let flag = match parse_whole(fs[1].as_str()) {
        Some(v) => v,
        None => {
            return Classification::Malformed;
        },
    };
    let av = match parse_whole(at.as_str()) {
        Some(v) => v,
        None => {
            return Classification::Malformed;
        },
    };
    let xv = match x {
        None => 0i32,
        Some(t) => match parse_whole(t.as_str()) {
            Some(v) => v,
            None => {
                return Classification::Malformed;
            },
        },
    };
    let m64 = policy.dominance_multiplier as i64;
    let x64 = xv as i64;
    assert(-0x4000_0000_0000_0000 <= m64 * x64 <= 0x4000_0000_0000_0000) by (nonlinear_arith)
        requires
            -0x8000_0000 <= m64 <= 0x8000_0000,
            -0x8000_0000 <= x64 <= 0x8000_0000,
    ;
    let product = m64 * x64;
    if !(av >= policy.min_alignment_score && (av as i64) >= product) {
        return Classification::NoCall;
    }
    let low = match flag.checked_rem_euclid(256) {
        Some(m) => m,
        None => 0,
    };
    let orientation = if low >= 128 {
        Orientation::Left
    } else {
        Orientation::Right
    };
    Classification::Call(
        ReadSupportCall {
            read_name: fs[0].clone(),
            orientation,
            alignment_score: av,
            secondary_score: xv,
            cigar: fs[5].clone(),
        },
    )
}

} // verus!

verus! {

pub open spec fn orientation_letter(o: Orientation) -> Seq<char> {
    match o {
        Orientation::Left => seq!['L'],
        Orientation::Right => seq!['R'],
    }
}

/// The breakpoint line of a call: `<read> <L|R> <AS> <XS> <CIGAR>`.
pub open spec fn call_line(c: CallView) -> Seq<char> {
    c.read_name + seq![' '] + orientation_letter(c.orientation) + seq![' '] + decimal_text(
        c.alignment_score,
    ) + seq![' '] + decimal_text(c.secondary_score) + seq![' '] + c.cigar
}

/// Formats a call as its breakpoint line.
pub fn format_call(c: &ReadSupportCall) -> (r: String)
    ensures
        r@ == call_line(c@),
{
    proof {
        reveal_strlit(" ");
        reveal_strlit("L");
        reveal_strlit("R");
    }
    let mut out = String::new();
    out.append(c.read_name.as_str());
    out.append(" ");
    match c.orientation {
        Orientation::Left => out.append("L"),
        Orientation::Right => out.append("R"),
    }
    out.append(" ");
    append_i32(&mut out, c.alignment_score);
    out.append(" ");
    append_i32(&mut out, c.secondary_score);
    out.append(" ");
    out.append(c.cigar.as_str());
    assert(out@ =~= call_line(c@));
    out
}

/// The calls that a sequence of record lines gives, in input order.
pub open spec fn calls_of(lines: Seq<Seq<char>>, threshold: int, multiplier: int) -> Seq<CallView>
    decreases lines.len(),
{
    if lines.len() == 0 {
        Seq::empty()
    } else {
        let rest = calls_of(lines.drop_last(), threshold, multiplier);
        match verdict(lines.last(), threshold, multiplier) {
            Verdict::Call(c) => rest.push(c),
            _ => rest,
        }
    }
}

/// The positions of the malformed record lines, in increasing order.
pub open spec fn malformed_of(lines: Seq<Seq<char>>, threshold: int, multiplier: int) -> Seq<
    int,
>
    decreases lines.len(),
{
    if lines.len() == 0 {
        Seq::empty()
    } else {
        let rest = malformed_of(lines.drop_last(), threshold, multiplier);
        match verdict(lines.last(), threshold, multiplier) {
            Verdict::Malformed => rest.push(lines.len() - 1),
            _ => rest,
        }
    }
}

pub open spec fn call_views(v: Seq<ReadSupportCall>) -> Seq<CallView> {
    v.map_values(|c: ReadSupportCall| c@)
}

pub open spec fn index_views(v: Seq<usize>) -> Seq<int> {
    v.map_values(|i: usize| i as int)
}

/// What classifying a stream of records gives: the calls, and the positions
/// of the records that could not be read.
pub struct ClassifierReport {
    pub calls: Vec<ReadSupportCall>,
    pub malformed: Vec<usize>,
}

/// Classifies each record line in turn. A malformed record is set aside by
/// position; the lines after it are classified as usual.
pub fn classify_records(lines: &Vec<String>, policy: &ScoringPolicy) -> (r: ClassifierReport)
    ensures
        call_views(r.calls@) == calls_of(
            lines.deep_view(),
            policy.min_alignment_score as int,
            policy.dominance_multiplier as int,
        ),
        index_views(r.malformed@) == malformed_of(
            lines.deep_view(),
            policy.min_alignment_score as int,
            policy.dominance_multiplier as int,
        ),
        r.calls.len() <= lines.len(),
{
    let ghost t = policy.min_alignment_score as int;
    let ghost m = policy.dominance_multiplier as int;
    let mut calls: Vec<ReadSupportCall> = Vec::new();
    let mut malformed: Vec<usize> = Vec::new();
    let mut i: usize = 0;
    while i < lines.len()
        invariant
            i <= lines.len(),
            t == policy.min_alignment_score as int,
            m == policy.dominance_multiplier as int,
            call_views(calls@) == calls_of(lines.deep_view().take(i as int), t, m),
            index_views(malformed@) == malformed_of(lines.deep_view().take(i as int), t, m),
        decreases lines.len() - i,
    {
        let ghost prefix = lines.deep_view().take(i + 1);
        assert(prefix.drop_last() =~= lines.deep_view().take(i as int));
        assert(prefix.last() == lines[i as int]@);
        let ghost old_calls = calls@;
        let ghost old_bad = malformed@;
        match classify_record(lines[i].as_str(), policy) {
            Classification::Call(c) => {
                calls.push(c);
                assert(call_views(calls@) =~= call_views(old_calls).push(c@));
            },
            Classification::NoCall => {},
            Classification::Malformed => {
                malformed.push(i);
                assert(index_views(malformed@) =~= index_views(old_bad).push(i as int));
            },
        }
        i = i + 1;
    }
    assert(lines.deep_view().take(i as int) =~= lines.deep_view());
    proof {
        lemma_calls_bounded(lines.deep_view(), t, m);
    }
    ClassifierReport { calls, malformed }
}

/// Formats each call as its breakpoint line, in order.
pub fn render_calls(calls: &Vec<ReadSupportCall>) -> (r: Vec<String>)
    ensures
        r.deep_view() == call_views(calls@).map_values(|c: CallView| call_line(c)),
{
    let mut out: Vec<String> = Vec::new();
    let mut i: usize = 0;
    while i < calls.len()
        invariant
            i <= calls.len(),
            out.deep_view() == call_views(calls@).take(i as int).map_values(
                |c: CallView| call_line(c),
            ),
        decreases calls.len() - i,
    {
        let ghost before = out.deep_view();
        let line = format_call(&calls[i]);
        out.push(line);
        assert(out.deep_view() =~= before.push(line@));
        assert(call_views(calls@)[i as int] == calls@[i as int]@);
        assert(out.deep_view() =~= call_views(calls@).take(i + 1).map_values(
            |c: CallView| call_line(c),
        ));
        i = i + 1;
    }
    assert(call_views(calls@).take(i as int) =~= call_views(calls@));
    out
}

/// The breakpoint lines of a stream of alignment records under `policy`,
/// with the positions of the malformed records.
pub fn call_type(records: &Vec<String>, policy: &ScoringPolicy) -> (r: (Vec<String>, Vec<usize>))
    ensures
        r.0.deep_view() == calls_of(
            records.deep_view(),
            policy.min_alignment_score as int,
            policy.dominance_multiplier as int,
        ).map_values(|c: CallView| call_line(c)),
        index_views(r.1@) == malformed_of(
            records.deep_view(),
            policy.min_alignment_score as int,
            policy.dominance_multiplier as int,
        ),
{
    let report = classify_records(records, policy);
    let lines = render_calls(&report.calls);
    (lines, report.malformed)
}

/// A placed record with an `AS` score of at least 30 that is at least twice
/// its `XS` score (0 when absent), whose flag mod 256 is at least 128, is a
/// left-flanking call with those scores.
pub proof fn lemma_high_flag_dominant_is_left(line: Seq<char>, flag: int, a: int, x: int)
    requires
        !unplaced(fields(line)),
        score_tags(fields(line)).0 is Some,
        i32_literal(score_tags(fields(line)).0->0) == Some(a),
        i32_literal(fields(line)[1]) == Some(flag),
        secondary_value(score_tags(fields(line)).1) == Some(x),
        flag % 256 >= 128,
        a >= 30,
        a >= 2 * x,
    ensures
        verdict(line, 30, 2) matches Verdict::Call(c) && c.orientation == Orientation::Left
            && c.alignment_score == a && c.secondary_score == x,
{
}

/// The same record with its flag mod 256 below 128 is a right-flanking call.
pub proof fn lemma_low_flag_dominant_is_right(line: Seq<char>, flag: int, a: int, x: int)
    requires
        !unplaced(fields(line)),
        score_tags(fields(line)).0 is Some,
        i32_literal(score_tags(fields(line)).0->0) == Some(a),
        i32_literal(fields(line)[1]) == Some(flag),
        secondary_value(score_tags(fields(line)).1) == Some(x),
        flag % 256 < 128,
        a >= 30,
        a >= 2 * x,
    ensures
        verdict(line, 30, 2) matches Verdict::Call(c) && c.orientation == Orientation::Right
            && c.alignment_score == a && c.secondary_score == x,
{
}

/// A record without an `AS` score gives no call.
pub proof fn lemma_missing_score_gives_no_call(line: Seq<char>, threshold: int, multiplier: int)
    requires
        score_tags(fields(line)).0 is None,
    ensures
        verdict(line, threshold, multiplier) == Verdict::NoCall,
{
}

/// Classification never gives more calls than there are records.
pub proof fn lemma_calls_bounded(lines: Seq<Seq<char>>, threshold: int, multiplier: int)
    ensures
        calls_of(lines, threshold, multiplier).len() <= lines.len(),
    decreases lines.len(),
{
    if lines.len() > 0 {
        lemma_calls_bounded(lines.drop_last(), threshold, multiplier);
    }
}

/// A score below the threshold gives no call, whatever the flag and `XS`.
pub proof fn lemma_low_score_gives_no_call(line: Seq<char>, a: int, threshold: int, multiplier: int)
    requires
        score_tags(fields(line)).0 is Some,
        i32_literal(score_tags(fields(line)).0->0) == Some(a),
        a < threshold,
    ensures
        !(verdict(line, threshold, multiplier) is Call),
{
}

} // verus!
