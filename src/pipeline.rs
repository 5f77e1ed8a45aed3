//! Run options, the choice of input path, and the order of the pipeline's
//! stages and extraction steps.
use vstd::prelude::*;
use vstd::string::*;
use crate::text::pieces;

verus! {

/// The run options, as given on the command line before defaults are filled in.
/// Insert sizes are floating-point values and are held by the caller.
#[derive(Clone, Debug)]
pub struct GetOptions {
    pub input_sample_id: String,
    pub file_suffix: String,
    pub human_reference_genome: String,
    pub te_reference_genome: String,
    pub input_directory: String,
    pub output_directory: String,
    pub number_of_reads: Option<u32>,
    pub data_type: String,
    pub sequencing_type: String,
    pub read_len: Option<u32>,
    pub threads: Option<u32>,
    pub split: Option<u32>,
    pub multiple_bam: bool,
    pub bwa_mem: bool,
    pub genotype: bool,
}

/// `given` where it is not empty, else `fallback`.
pub open spec fn or_text(given: Seq<char>, fallback: Seq<char>) -> Seq<char> {
    if given.len() == 0 {
        fallback
    } else {
        given
    }
}

pub open spec fn or_number(given: Option<u32>, fallback: u32) -> Option<u32> {
    match given {
        Some(v) => Some(v),
        None => Some(fallback),
    }
}

/// A directory option after defaults: the working directory where the option
/// is empty and the working directory is known.
pub open spec fn or_directory(given: Seq<char>, current_dir: Option<Seq<char>>) -> Seq<char> {
    if given.len() == 0 {
        match current_dir {
            Some(d) => d,
            None => given,
        }
    } else {
        given
    }
}

pub open spec fn opt_text(o: Option<String>) -> Option<Seq<char>> {
    match o {
        Some(s) => Some(s@),
        None => None,
    }
}

fn text_or(given: &String, fallback: &str) -> (r: String)
    ensures
        r@ == or_text(given@, fallback@),
{
    if given.unicode_len() == 0 {
        fallback.to_owned()
    } else {
        given.clone()
    }
}

fn directory_or(given: &String, current_dir: &Option<String>) -> (r: String)
    ensures
        r@ == or_directory(given@, opt_text(*current_dir)),
{
    if given.unicode_len() == 0 {
        match current_dir {
            Some(d) => d.clone(),
            None => given.clone(),
        }
    } else {
        given.clone()
    }
}

impl GetOptions {
    /// Fills in the defaults: suffix `.bam`, read length 100, split 20,
    /// one thread, 3 reads, data type `WGS`, `paired-end` sequencing, and the
    /// working directory for empty input and output directories.
    pub fn normalize(&mut self, current_dir: Option<String>)
        ensures
            final(self).input_sample_id == old(self).input_sample_id,
            final(self).file_suffix@ == or_text(old(self).file_suffix@, ".bam"@),
            final(self).human_reference_genome == old(self).human_reference_genome,
            final(self).te_reference_genome == old(self).te_reference_genome,
            final(self).input_directory@ == or_directory(
                old(self).input_directory@,
                opt_text(current_dir),
            ),
            final(self).output_directory@ == or_directory(
                old(self).output_directory@,
                opt_text(current_dir),
            ),
            final(self).number_of_reads == or_number(old(self).number_of_reads, 3),
            final(self).data_type@ == or_text(old(self).data_type@, "WGS"@),
            final(self).sequencing_type@ == or_text(old(self).sequencing_type@, "paired-end"@),
            final(self).read_len == or_number(old(self).read_len, 100),
            final(self).threads == or_number(old(self).threads, 1),
            final(self).split == or_number(old(self).split, 20),
            final(self).multiple_bam == old(self).multiple_bam,
            final(self).bwa_mem == old(self).bwa_mem,
            final(self).genotype == old(self).genotype,
    {
        self.file_suffix = text_or(&self.file_suffix, ".bam");
        if self.read_len.is_none() {
            self.read_len = Some(100);
        }
        if self.split.is_none() {
            self.split = Some(20);
        }
        if self.threads.is_none() {
            self.threads = Some(1);
        }
        self.input_directory = directory_or(&self.input_directory, &current_dir);
        self.output_directory = directory_or(&self.output_directory, &current_dir);
        if self.number_of_reads.is_none() {
            self.number_of_reads = Some(3);
        }
        self.data_type = text_or(&self.data_type, "WGS");
        self.sequencing_type = text_or(&self.sequencing_type, "paired-end");
    }
}

pub open spec fn is_ascii_upper(c: char) -> bool {
    'A' <= c && c <= 'Z'
}

/// Two characters that are equal once ASCII capitals are made small.
pub open spec fn same_ignoring_ascii_case(x: char, y: char) -> bool {
    x == y || (is_ascii_upper(x) && (x as u32) + 32 == (y as u32)) || (is_ascii_upper(y) && (
    y as u32) + 32 == (x as u32))
}

/// Two texts that are equal once ASCII capitals are made small.
pub open spec fn equal_ignoring_ascii_case(a: Seq<char>, b: Seq<char>) -> bool {
    a.len() == b.len() && forall|i: int|
        0 <= i < a.len() ==> same_ignoring_ascii_case(#[trigger] a[i], b[i])
}

fn lower_code(c: char) -> (r: u32)
    ensures
        r as int == if is_ascii_upper(c) {
            (c as u32) + 32
        } else {
            c as u32 as int
        },
{
    let v = c as u32;
    if 65 <= v && v <= 90 {
        v + 32
    } else {
        v
    }
}

/// Whether `a` and `b` are equal once ASCII capitals are made small.
pub fn eq_ignore_ascii_case(a: &str, b: &str) -> (r: bool)
    ensures
        r == equal_ignoring_ascii_case(a@, b@),
{
    let n = a.unicode_len();
    if n != b.unicode_len() {
        return false;
    }
    let mut i: usize = 0;
    while i < n
        invariant
            n == a@.len(),
            n == b@.len(),
            i <= n,
            forall|j: int| 0 <= j < i ==> same_ignoring_ascii_case(#[trigger] a@[j], b@[j]),
        decreases n - i,
    {
        let x = a.get_char(i);
        let y = b.get_char(i);
        if x != y && lower_code(x) != lower_code(y) {
            assert(!same_ignoring_ascii_case(a@[i as int], b@[i as int])) by {
                if is_ascii_upper(x) {
                    assert((x as u32) + 32 >= 97);
                }
                if is_ascii_upper(y) {
                    assert((y as u32) + 32 >= 97);
                }
            }
            return false;
        }
        proof {
            if x != y {
                if !is_ascii_upper(x) && !is_ascii_upper(y) {
                    assert(x as u32 == y as u32);
                }
            }
        }
        i = i + 1;
    }
    true
}

/// Sequencing of the reads: pairs of mates, or single reads.
#[derive(Clone, Copy, Debug, PartialEq, Eq, Structural)]
pub enum SequencingMode {
    PairedEnd,
    SingleEnd,
}

/// The sequencing mode that an option text names, in any ASCII case.
pub open spec fn mode_named(s: Seq<char>) -> Option<SequencingMode> {
    if equal_ignoring_ascii_case(s, "paired-end"@) {
        Some(SequencingMode::PairedEnd)
    } else if equal_ignoring_ascii_case(s, "single-end"@) {
        Some(SequencingMode::SingleEnd)
    } else {
        None
    }
}

impl SequencingMode {
    /// Reads `paired-end` or `single-end`, in any ASCII case.
    pub fn from_text(s: &str) -> (r: Option<SequencingMode>)
        ensures
            r == mode_named(s@),
    {
        if eq_ignore_ascii_case(s, "paired-end") {
            Some(SequencingMode::PairedEnd)
        } else if eq_ignore_ascii_case(s, "single-end") {
            Some(SequencingMode::SingleEnd)
        } else {
            None
        }
    }
}

} // verus!

verus! {

/// Whether `needle` occurs somewhere in `hay`.
pub open spec fn occurs_in(needle: Seq<char>, hay: Seq<char>) -> bool {
    exists|i: int|
        0 <= i && i + needle.len() <= hay.len() && #[trigger] hay.subrange(i, i + needle.len())
            == needle
}

pub open spec fn is_small_letter(c: char) -> bool {
    'a' <= c && c <= 'z'
}

/// A pattern made of non-empty words of small letters joined by `|`.
pub open spec fn is_word_alternation(p: Seq<char>) -> bool {
    forall|k: int|
        0 <= k < pieces(p, '|').len() ==> (#[trigger] pieces(p, '|')[k]).len() > 0 && forall|
            j: int,
        | 0 <= j < pieces(p, '|')[k].len() ==> is_small_letter(pieces(p, '|')[k][j])
}

/// Whether one of the words of an alternation occurs in `hay`.
pub open spec fn alternation_found(p: Seq<char>, hay: Seq<char>) -> bool {
    exists|k: int| 0 <= k < pieces(p, '|').len() && occurs_in(#[trigger] pieces(p, '|')[k], hay)
}

/// Longest pattern handed to the regex engine; far below the size at which
/// compilation fails on the engine's size limit.
pub const MAX_PATTERN_LEN: usize = 16;

/// Relies on `regex::Regex::new` and `regex::Regex::is_match`: a short pattern
/// of plain words joined by `|` compiles, and the regex matches a haystack
/// exactly when one of the words occurs in it.
#[verifier::external_body]
fn regex_alternation_matches(pattern: &str, haystack: &str) -> (r: bool)
    requires
        is_word_alternation(pattern@),
        pattern@.len() <= MAX_PATTERN_LEN,
    ensures
        r == alternation_found(pattern@, haystack@),
{
    match regex::Regex::new(pattern) {
        Ok(re) => re.is_match(haystack),
        Err(_) => false,
    }
}

/// A suffix of read files in FASTQ form: it holds `fq` or `fastq`.
pub open spec fn is_fastq_suffix(s: Seq<char>) -> bool {
    occurs_in(seq!['f', 'q'], s) || occurs_in(seq!['f', 'a', 's', 't', 'q'], s)
}

/// A suffix of alignment files: it holds `bam` or `sam`.
pub open spec fn is_alignment_suffix(s: Seq<char>) -> bool {
    occurs_in(seq!['b', 'a', 'm'], s) || occurs_in(seq!['s', 'a', 'm'], s)
}

proof fn lemma_two_word_pattern(p: Seq<char>, w1: Seq<char>, w2: Seq<char>)
    requires
        w1.len() > 0,
        w2.len() > 0,
        forall|j: int| 0 <= j < w1.len() ==> is_small_letter(#[trigger] w1[j]),
        forall|j: int| 0 <= j < w2.len() ==> is_small_letter(#[trigger] w2[j]),
        p == w1 + seq!['|'] + w2,
    ensures
        pieces(p, '|') == seq![w1, w2],
        is_word_alternation(p),
        forall|hay: Seq<char>|
            alternation_found(p, hay) == (occurs_in(w1, hay) || occurs_in(w2, hay)),
{
    lemma_word_pieces(w1);
    assert((w1 + seq!['|']).drop_last() =~= w1);
    assert(pieces(w1 + seq!['|'], '|') =~= seq![w1, Seq::empty()]);
    lemma_word_tail_pieces(w1 + seq!['|'], w2, w1);
    assert(pieces(p, '|') =~= seq![w1, w2]);
}

proof fn lemma_word_pieces(w: Seq<char>)
    requires
        forall|j: int| 0 <= j < w.len() ==> is_small_letter(#[trigger] w[j]),
    ensures
        pieces(w, '|') == seq![w],
    decreases w.len(),
{
    if w.len() == 0 {
        assert(w =~= Seq::<char>::empty());
        assert(pieces(w, '|') =~= seq![w]);
    } else {
        let d = w.drop_last();
        assert forall|j: int| 0 <= j < d.len() implies is_small_letter(#[trigger] d[j]) by {
            assert(d[j] == w[j]);
        }
        lemma_word_pieces(d);
        assert(is_small_letter(w[w.len() - 1]));
        assert(d.push(w.last()) =~= w);
        assert(w.drop_last() == d);
        let p = pieces(d, '|');
        assert(p.update(p.len() - 1, p.last().push(w.last())) =~= seq![w]);
        assert(pieces(w, '|') =~= seq![w]);
    }
}

proof fn lemma_word_tail_pieces(head: Seq<char>, w: Seq<char>, first: Seq<char>)
    requires
        forall|j: int| 0 <= j < w.len() ==> is_small_letter(#[trigger] w[j]),
        pieces(head, '|') == seq![first, Seq::<char>::empty()],
    ensures
        pieces(head + w, '|') == seq![first, w],
    decreases w.len(),
{
    if w.len() == 0 {
        assert(w =~= Seq::<char>::empty());
        assert(head + w =~= head);
        assert(seq![first, w] =~= seq![first, Seq::<char>::empty()]);
    } else {
        let d = w.drop_last();
        assert forall|j: int| 0 <= j < d.len() implies is_small_letter(#[trigger] d[j]) by {
            assert(d[j] == w[j]);
        }
        lemma_word_tail_pieces(head, d, first);
        assert((head + w).drop_last() =~= head + d);
        assert(is_small_letter(w[w.len() - 1]));
        assert(d.push(w.last()) =~= w);
        assert(pieces(head + w, '|') =~= seq![first, w]);
    }
}

/// Whether a file suffix names reads in FASTQ form.
pub fn fastq_suffix(suffix: &str) -> (r: bool)
    ensures
        r == is_fastq_suffix(suffix@),
{
    proof {
        reveal_strlit("fq|fastq");
        assert("fq|fastq"@ =~= seq!['f', 'q'] + seq!['|'] + seq!['f', 'a', 's', 't', 'q']);
        lemma_two_word_pattern(
            "fq|fastq"@,
            seq!['f', 'q'],
            seq!['f', 'a', 's', 't', 'q'],
        );
    }
    regex_alternation_matches("fq|fastq", suffix)
}

/// Whether a file suffix names alignments.
pub fn alignment_suffix(suffix: &str) -> (r: bool)
    ensures
        r == is_alignment_suffix(suffix@),
{
    proof {
        reveal_strlit("bam|sam");
        assert("bam|sam"@ =~= seq!['b', 'a', 'm'] + seq!['|'] + seq!['s', 'a', 'm']);
        lemma_two_word_pattern("bam|sam"@, seq!['b', 'a', 'm'], seq!['s', 'a', 'm']);
    }
    regex_alternation_matches("bam|sam", suffix)
}

} // verus!

verus! {

/// Which files of the sample were found on disk.
#[derive(Clone, Copy, Debug, PartialEq, Eq, Structural)]
pub struct InputProbe {
    /// Both `<dir><sample>_1.<suffix>` and `<dir><sample>_2.<suffix>` exist.
    pub paired_files_exist: bool,
    /// `<dir><sample>.<suffix>` exists.
    pub single_file_exists: bool,
    /// `<dir><sample>.<suffix>.bai` exists.
    pub index_exists: bool,
}

/// The extraction path that the input calls for.
#[derive(Clone, Copy, Debug, PartialEq, Eq, Structural)]
pub enum InputPath {
    FastqPaired,
    FastqSingle,
    BamPaired,
    BamSingle,
    MultiBam,
}

/// A failed precondition: the run stops before any stage.
#[derive(Clone, Copy, Debug, PartialEq, Eq, Structural)]
pub enum SetupError {
    /// No input matches the sample, suffix and mode.
    NoInputFound,
    /// Genotyping was asked for, and the alignment file has no index.
    MissingIndex,
}

/// An alignment path: fails when genotyping is asked for without an index.
pub open spec fn indexed_path(path: InputPath, probe: InputProbe, genotype: bool) -> Result<
    InputPath,
    SetupError,
> {
    if genotype && !probe.index_exists {
        Err(SetupError::MissingIndex)
    } else {
        Ok(path)
    }
}

/// The decision table over the files found, the mode, the suffix and the
/// multi-BAM option; the first row that fits decides.
pub open spec fn input_path(
    probe: InputProbe,
    mode: Option<SequencingMode>,
    suffix: Seq<char>,
    multiple_bam: bool,
    genotype: bool,
) -> Result<InputPath, SetupError> {
    if probe.paired_files_exist && mode == Some(SequencingMode::PairedEnd) && is_fastq_suffix(
        suffix,
    ) {
        Ok(InputPath::FastqPaired)
    } else if probe.single_file_exists && mode == Some(SequencingMode::SingleEnd)
        && is_fastq_suffix(suffix) {
        Ok(InputPath::FastqSingle)
    } else if probe.single_file_exists && mode == Some(SequencingMode::PairedEnd)
        && is_alignment_suffix(suffix) {
        indexed_path(InputPath::BamPaired, probe, genotype)
    } else if probe.single_file_exists && mode == Some(SequencingMode::SingleEnd)
        && is_alignment_suffix(suffix) {
        indexed_path(InputPath::BamSingle, probe, genotype)
    } else if probe.single_file_exists && multiple_bam {
        Ok(InputPath::MultiBam)
    } else {
        Err(SetupError::NoInputFound)
    }
}

/// Chooses the extraction path, or the failed precondition that stops the run.
pub fn select_input_path(
    probe: InputProbe,
    mode: Option<SequencingMode>,
    suffix: &str,
    multiple_bam: bool,
    genotype: bool,
) -> (r: Result<InputPath, SetupError>)
    ensures
        r == input_path(probe, mode, suffix@, multiple_bam, genotype),
{
    let fastq = fastq_suffix(suffix);
    let alignment = alignment_suffix(suffix);
    let paired = mode == Some(SequencingMode::PairedEnd);
    let single = mode == Some(SequencingMode::SingleEnd);
    if probe.paired_files_exist && paired && fastq {
        Ok(InputPath::FastqPaired)
    } else if probe.single_file_exists && single && fastq {
        Ok(InputPath::FastqSingle)
    } else if probe.single_file_exists && (paired || single) && alignment {
        if genotype && !probe.index_exists {
            Err(SetupError::MissingIndex)
        } else if paired {
            Ok(InputPath::BamPaired)
        } else {
            Ok(InputPath::BamSingle)
        }
    } else if probe.single_file_exists && multiple_bam {
        Ok(InputPath::MultiBam)
    } else {
        Err(SetupError::NoInputFound)
    }
}

/// The stages of one run.
#[derive(Clone, Copy, Debug, PartialEq, Eq, Structural)]
pub enum PipelineStage {
    AwaitingInputClassification,
    Extracting(InputPath),
    ExtractionDone,
    ClassificationDone,
    Aggregated,
    Terminal,
    Failed(SetupError),
}

/// What ends a stage: the input decision, or the end of the stage's steps,
/// whether or not each outside tool succeeded.
#[derive(Clone, Copy, Debug, PartialEq, Eq, Structural)]
pub enum StageEvent {
    InputAccepted(InputPath),
    InputRejected(SetupError),
    StepsFinished,
}

/// The stage that follows `stage` on `event`; an event that does not fit the
/// stage leaves it as it is, and `Terminal` and `Failed` are final.
pub open spec fn stage_after(stage: PipelineStage, event: StageEvent) -> PipelineStage {
    match (stage, event) {
        (PipelineStage::AwaitingInputClassification, StageEvent::InputAccepted(p)) =>
            PipelineStage::Extracting(p),
        (PipelineStage::AwaitingInputClassification, StageEvent::InputRejected(e)) =>
            PipelineStage::Failed(e),
        (PipelineStage::Extracting(_), StageEvent::StepsFinished) => PipelineStage::ExtractionDone,
        (PipelineStage::ExtractionDone, StageEvent::StepsFinished) =>
            PipelineStage::ClassificationDone,
        (PipelineStage::ClassificationDone, StageEvent::StepsFinished) =>
            PipelineStage::Aggregated,
        (PipelineStage::Aggregated, StageEvent::StepsFinished) => PipelineStage::Terminal,
        _ => stage,
    }
}

/// Moves the run on by one event.
pub fn next_stage(stage: PipelineStage, event: StageEvent) -> (r: PipelineStage)
    ensures
        r == stage_after(stage, event),
{
    match (stage, event) {
        (PipelineStage::AwaitingInputClassification, StageEvent::InputAccepted(p)) =>
            PipelineStage::Extracting(p),
        (PipelineStage::AwaitingInputClassification, StageEvent::InputRejected(e)) =>
            PipelineStage::Failed(e),
        (PipelineStage::Extracting(_), StageEvent::StepsFinished) => PipelineStage::ExtractionDone,
        (PipelineStage::ExtractionDone, StageEvent::StepsFinished) =>
            PipelineStage::ClassificationDone,
        (PipelineStage::ClassificationDone, StageEvent::StepsFinished) =>
            PipelineStage::Aggregated,
        (PipelineStage::Aggregated, StageEvent::StepsFinished) => PipelineStage::Terminal,
        _ => stage,
    }
}

} // verus!
