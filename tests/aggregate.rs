use ervcaller::aggregate::{aggregate, append_source, BreakpointSource, PendingSource};

fn lines(v: &[&str]) -> Vec<String> {
    v.iter().map(|s| s.to_string()).collect()
}

#[test]
fn appending_in_turn_concatenates() {
    let a = lines(&["r1 L 40 10 50M", "r2 R 35 0 20S30M"]);
    let b = lines(&["r3 L 31 1 50M"]);
    let mut unified = Vec::new();
    append_source(&mut unified, &a);
    append_source(&mut unified, &b);
    assert_eq!(unified, lines(&["r1 L 40 10 50M", "r2 R 35 0 20S30M", "r3 L 31 1 50M"]));
}

#[test]
fn appending_keeps_existing_lines() {
    let mut unified = lines(&["old"]);
    append_source(&mut unified, &Vec::new());
    assert_eq!(unified, lines(&["old"]));
    append_source(&mut unified, &lines(&["new"]));
    assert_eq!(unified, lines(&["old", "new"]));
}

#[test]
fn split_reads_come_before_discordant_pairs() {
    let sources = vec![
        PendingSource { source: BreakpointSource::DiscordantPair, lines: lines(&["d1", "d2"]) },
        PendingSource { source: BreakpointSource::SplitRead, lines: lines(&["s1"]) },
        PendingSource { source: BreakpointSource::DiscordantPair, lines: lines(&["d3"]) },
        PendingSource { source: BreakpointSource::SplitRead, lines: lines(&["s2"]) },
    ];
    let mut unified = lines(&["x"]);
    aggregate(&mut unified, &sources);
    assert_eq!(unified, lines(&["x", "s1", "s2", "d1", "d2", "d3"]));
}
