//! Merging of per-source breakpoint evidence into one per-sample set.
use vstd::prelude::*;

verus! {

/// Where a batch of breakpoint lines came from.
#[derive(Clone, Copy, Debug, PartialEq, Eq, Structural)]
pub enum BreakpointSource {
    SplitRead,
    DiscordantPair,
}

/// A batch of breakpoint lines that waits to be folded into the sample's set.
#[derive(Debug)]
pub struct PendingSource {
    pub source: BreakpointSource,
    pub lines: Vec<String>,
}

/// The unified set after appending `source`: its lines after the old ones.
pub open spec fn appended(unified: Seq<Seq<char>>, source: Seq<Seq<char>>) -> Seq<Seq<char>> {
    unified + source
}

/// The lines of the sources of one kind, source after source, in order.
pub open spec fn lines_of_kind(sources: Seq<PendingSource>, kind: BreakpointSource) -> Seq<
    Seq<char>,
>
    decreases sources.len(),
{
    if sources.len() == 0 {
        Seq::empty()
    } else {
        let rest = lines_of_kind(sources.drop_last(), kind);
        if sources.last().source == kind {
            rest + sources.last().lines.deep_view()
        } else {
            rest
        }
    }
}

/// Appends the lines of `source` to the unified set, unchanged and in order.
pub fn append_source(unified: &mut Vec<String>, source: &Vec<String>)
    ensures
        final(unified).deep_view() == appended(old(unified).deep_view(), source.deep_view()),
{
    let ghost start = unified.deep_view();
    let mut i: usize = 0;
    while i < source.len()
        invariant
            i <= source.len(),
            unified.deep_view() == start + source.deep_view().take(i as int),
        decreases source.len() - i,
    {
        let ghost before = unified.deep_view();
        unified.push(source[i].clone());
        assert(unified.deep_view() =~= before.push(source.deep_view()[i as int]));
        assert(source.deep_view().take(i + 1) =~= source.deep_view().take(i as int).push(
            source.deep_view()[i as int],
        ));
        i = i + 1;
    }
    assert(source.deep_view().take(i as int) =~= source.deep_view());
}

fn append_kind(unified: &mut Vec<String>, sources: &Vec<PendingSource>, kind: BreakpointSource)
    ensures
        final(unified).deep_view() == old(unified).deep_view() + lines_of_kind(sources@, kind),
{
    let ghost start = unified.deep_view();
    let mut i: usize = 0;
    while i < sources.len()
        invariant
            i <= sources.len(),
            unified.deep_view() == start + lines_of_kind(sources@.take(i as int), kind),
        decreases sources.len() - i,
    {
        assert(sources@.take(i + 1).drop_last() =~= sources@.take(i as int));
        if sources[i].source == kind {
            append_source(unified, &sources[i].lines);
        }
        i = i + 1;
        assert(unified.deep_view() =~= start + lines_of_kind(sources@.take(i as int), kind));
    }
    assert(sources@.take(i as int) =~= sources@);
}

/// Folds the pending sources into the unified set: all split-read lines
/// first, then all discordant-pair lines, each kind in the order given.
/// Nothing is removed or altered; the caller hands each source in once.
pub fn aggregate(unified: &mut Vec<String>, sources: &Vec<PendingSource>)
    ensures
        final(unified).deep_view() == old(unified).deep_view() + lines_of_kind(
            sources@,
            BreakpointSource::SplitRead,
        ) + lines_of_kind(sources@, BreakpointSource::DiscordantPair),
{
    append_kind(unified, sources, BreakpointSource::SplitRead);
    append_kind(unified, sources, BreakpointSource::DiscordantPair);
}

/// Appending source `a` and then source `b` gives the old lines, then the
/// lines of `a`, then those of `b`, none of them altered.
pub proof fn lemma_append_in_turn(
    unified: Seq<Seq<char>>,
    a: Seq<Seq<char>>,
    b: Seq<Seq<char>>,
)
    ensures
        appended(appended(unified, a), b) == appended(unified, a + b),
        appended(appended(Seq::empty(), a), b) == a + b,
        appended(appended(unified, a), b).subrange(
            unified.len() as int,
            (unified.len() + a.len()) as int,
        ) == a,
        appended(appended(unified, a), b).skip((unified.len() + a.len()) as int) == b,
{
    assert(appended(appended(unified, a), b) =~= appended(unified, a + b));
    assert(appended(appended(Seq::empty(), a), b) =~= a + b);
    assert(appended(appended(unified, a), b).subrange(
        unified.len() as int,
        (unified.len() + a.len()) as int,
    ) =~= a);
    assert(appended(appended(unified, a), b).skip((unified.len() + a.len()) as int) =~= b);
}

} // verus!
