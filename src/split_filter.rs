//! Filtering of the soft-clipped read stream: four-line groups whose header
//! carries the split marker are kept or dropped by the index in the header.
use vstd::prelude::*;
use vstd::string::*;
use crate::numeric::{i32_literal, parse_i32_in};
use crate::text::{has_prefix, pieces, starts_with, third_piece, trim, trim_bounds};

verus! {

/// Number of lines in one read group: header, sequence, separator, quality.
pub const GROUP_LINES: usize = 4;

pub open spec fn split_marker() -> Seq<char> {
    seq!['@', 's', 'o', 'f', 't']
}

/// The index that a marker header carries: its third `|`-separated piece,
/// trimmed and read as an `i32`; 0 where that piece is missing or unreadable.
pub open spec fn marker_index(header: Seq<char>) -> int {
    let p = pieces(header, '|');
    if p.len() >= 3 {
        match i32_literal(trim(p[2])) {
            Some(v) => v,
            None => 0,
        }
    } else {
        0
    }
}

/// Whether a group with this header stays: groups without the marker always
/// stay; marker groups stay when their index mod 4 is at least 2.
pub open spec fn keeps_group(header: Seq<char>) -> bool {
    !starts_with(header, split_marker()) || marker_index(header) % 4 >= 2
}

/// The lines that stay, group by group in order; a short last group is
/// treated as a group.
pub open spec fn filter_groups(lines: Seq<Seq<char>>) -> Seq<Seq<char>>
    decreases lines.len(),
{
    if lines.len() == 0 {
        Seq::empty()
    } else {
        let k: int = if lines.len() < 4 {
            lines.len() as int
        } else {
            4
        };
        let rest = filter_groups(lines.skip(k));
        if keeps_group(lines[0]) {
            lines.take(k) + rest
        } else {
            rest
        }
    }
}

/// The index carried by a marker header.
pub fn header_index(header: &str) -> (r: i32)
    ensures
        r as int == marker_index(header@),
{
    proof {
        crate::text::lemma_pieces_nonempty(header@, '|');
    }
    match third_piece(header, '|') {
        None => 0,
        Some((a, b)) => {
            let (c, d) = trim_bounds(header, a, b);
            match parse_i32_in(header, c, d) {
                Some(v) => v,
                None => 0,
            }
        },
    }
}

/// Whether the group that starts with this header stays.
pub fn keep_group(header: &str) -> (r: bool)
    ensures
        r == keeps_group(header@),
{
    proof {
        reveal_strlit("@soft");
        assert("@soft"@ =~= split_marker());
    }
    if !has_prefix(header, "@soft") {
        return true;
    }
    let v = header_index(header);
    let low = match v.checked_rem_euclid(4) {
        Some(m) => m,
        None => 0,
    };
    low >= 2
}

/// The soft-clipped read stream with the unsupported split groups taken out;
/// the lines that stay are unchanged and in their order.
pub fn filter_split_reads(lines: &Vec<String>) -> (r: Vec<String>)
    ensures
        r.deep_view() == filter_groups(lines.deep_view()),
{
    let n = lines.len();
    let ghost all = lines.deep_view();
    let mut out: Vec<String> = Vec::new();
    let mut k: usize = 0;
    assert(all.skip(0) =~= all);
    while k < n
        invariant
            n == lines.len(),
            all == lines.deep_view(),
            k <= n,
            out.deep_view() + filter_groups(all.skip(k as int)) == filter_groups(all),
        decreases n - k,
    {
        let ghost tail = all.skip(k as int);
        let end = if n - k < GROUP_LINES {
            n
        } else {
            k + GROUP_LINES
        };
        assert(tail.skip(end - k) =~= all.skip(end as int));
        assert(tail.take(end - k) =~= all.subrange(k as int, end as int));
        assert(tail[0] == lines[k as int]@);
        if keep_group(lines[k].as_str()) {
            let ghost start_out = out.deep_view();
            let mut j = k;
            while j < end
                invariant
                    k <= j <= end <= n,
                    n == lines.len(),
                    all == lines.deep_view(),
                    out.deep_view() == start_out + all.subrange(k as int, j as int),
                decreases end - j,
            {
                let ghost before = out.deep_view();
                out.push(lines[j].clone());
                assert(out.deep_view() =~= before.push(all[j as int]));
                assert(all.subrange(k as int, j + 1) =~= all.subrange(k as int, j as int).push(
                    all[j as int],
                ));
                j = j + 1;
            }
        }
        k = end;
    }
    assert(all.skip(n as int) =~= Seq::<Seq<char>>::empty());
    assert(out.deep_view() =~= filter_groups(all));
    out
}

/// A marker group of four lines is kept whole and unchanged when its index
/// mod 4 is at least 2, and dropped whole otherwise; the lines after it are
/// filtered on their own.
pub proof fn lemma_marker_group_kept_or_dropped(group: Seq<Seq<char>>, rest: Seq<Seq<char>>)
    requires
        group.len() == 4,
        starts_with(group[0], split_marker()),
    ensures
        marker_index(group[0]) % 4 >= 2 ==> filter_groups(group + rest) == group + filter_groups(
            rest,
        ),
        marker_index(group[0]) % 4 < 2 ==> filter_groups(group + rest) == filter_groups(rest),
{
    let all = group + rest;
    assert(all.skip(4) =~= rest);
    assert(all.take(4) =~= group);
    assert(all[0] == group[0]);
}

} // verus!
