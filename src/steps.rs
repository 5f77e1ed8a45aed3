//! The outside-tool steps that extract candidate reads for a sample, in the
//! order in which they run.
use vstd::prelude::*;
use vstd::string::*;
use crate::aggregate::BreakpointSource;
use crate::pipeline::{
    GetOptions,
    SequencingMode,
    eq_ignore_ascii_case,
    equal_ignoring_ascii_case,
    opt_text,
};

verus! {

/// One step performed by an outside tool.
#[derive(Clone, Debug)]
pub enum ToolStep {
    /// Convert the sample's alignments back to reads.
    ConvertBamToFastq { sample: String },
    /// Align the sample's reads, stored with `suffix`, to the human genome.
    AlignToHuman { sample: String, suffix: String },
    /// Rename `from` to `to` where `from` exists.
    RenameIfPresent { from: String, to: String },
    /// Decompress `source` into `target`, after its contents where `append`.
    Decompress { source: String, target: String, append: bool },
    /// Move `from` to `to`.
    MoveFile { from: String, to: String },
    /// Align `reads` (with their `mates`, if any) to the TE references,
    /// keeping alignments that score at least `min_score`.
    AlignToTe { reads: String, mates: Option<String>, min_score: u32, output: String },
    /// Create `path` if it is missing.
    CreateEmpty { path: String },
    /// Turn the soft-clipped reads' TE alignments into split-read breakpoints.
    TransferSoftClips { alignments: String, output: String },
    /// Write the records of an alignment file as text.
    ExtractAlignments { input: String, output: String },
    /// Classify the records of `alignments` and write the calls to `output`.
    ClassifyReads { alignments: String, output: String },
    /// Call discordant-pair breakpoints from the classified reads.
    CallBreakpoints {
        types: String,
        positions: String,
        te_alignments: String,
        min_score: u32,
        output_prefix: String,
    },
    /// Fold `source` into the sample's unified breakpoint set, then remove it.
    AppendBreakpoints { source: String, kind: BreakpointSource },
    /// Write the filtered reads of the sample.
    FilterFastq { sample: String },
}

/// What a [`ToolStep`] holds, as mathematical values.
pub enum StepView {
    ConvertBamToFastq { sample: Seq<char> },
    AlignToHuman { sample: Seq<char>, suffix: Seq<char> },
    RenameIfPresent { from: Seq<char>, to: Seq<char> },
    Decompress { source: Seq<char>, target: Seq<char>, append: bool },
    MoveFile { from: Seq<char>, to: Seq<char> },
    AlignToTe { reads: Seq<char>, mates: Option<Seq<char>>, min_score: u32, output: Seq<char> },
    CreateEmpty { path: Seq<char> },
    TransferSoftClips { alignments: Seq<char>, output: Seq<char> },
    ExtractAlignments { input: Seq<char>, output: Seq<char> },
    ClassifyReads { alignments: Seq<char>, output: Seq<char> },
    CallBreakpoints {
        types: Seq<char>,
        positions: Seq<char>,
        te_alignments: Seq<char>,
        min_score: u32,
        output_prefix: Seq<char>,
    },
    AppendBreakpoints { source: Seq<char>, kind: BreakpointSource },
    FilterFastq { sample: Seq<char> },
}

impl View for ToolStep {
    type V = StepView;

    open spec fn view(&self) -> StepView {
        match self {
            ToolStep::ConvertBamToFastq { sample } => StepView::ConvertBamToFastq {
                sample: sample@,
            },
            ToolStep::AlignToHuman { sample, suffix } => StepView::AlignToHuman {
                sample: sample@,
                suffix: suffix@,
            },
            ToolStep::RenameIfPresent { from, to } => StepView::RenameIfPresent {
                from: from@,
                to: to@,
            },
            ToolStep::Decompress { source, target, append } => StepView::Decompress {
                source: source@,
                target: target@,
                append: *append,
            },
            ToolStep::MoveFile { from, to } => StepView::MoveFile { from: from@, to: to@ },
            ToolStep::AlignToTe { reads, mates, min_score, output } => StepView::AlignToTe {
                reads: reads@,
                mates: opt_text(*mates),
                min_score: *min_score,
                output: output@,
            },
            ToolStep::CreateEmpty { path } => StepView::CreateEmpty { path: path@ },
            ToolStep::TransferSoftClips { alignments, output } => StepView::TransferSoftClips {
                alignments: alignments@,
                output: output@,
            },
            ToolStep::ExtractAlignments { input, output } => StepView::ExtractAlignments {
                input: input@,
                output: output@,
            },
            ToolStep::ClassifyReads { alignments, output } => StepView::ClassifyReads {
                alignments: alignments@,
                output: output@,
            },
            ToolStep::CallBreakpoints {
                types,
                positions,
                te_alignments,
                min_score,
                output_prefix,
            } => StepView::CallBreakpoints {
                types: types@,
                positions: positions@,
                te_alignments: te_alignments@,
                min_score: *min_score,
                output_prefix: output_prefix@,
            },
            ToolStep::AppendBreakpoints { source, kind } => StepView::AppendBreakpoints {
                source: source@,
                kind: *kind,
            },
            ToolStep::FilterFastq { sample } => StepView::FilterFastq { sample: sample@ },
        }
    }
}

pub open spec fn step_views(v: Seq<ToolStep>) -> Seq<StepView> {
    v.map_values(|s: ToolStep| s@)
}

fn joined(a: &str, b: &str) -> (r: String)
    ensures
        r@ == a@ + b@,
{
    let mut s = a.to_owned();
    s.append(b);
    s
}

/// The step that aligns the reads of `sample`, stored with `suffix`, to the
/// human genome.
pub fn align_to_hg(sample: &str, suffix: &str) -> (r: ToolStep)
    ensures
        r@ == (StepView::AlignToHuman { sample: sample@, suffix: suffix@ }),
{
    ToolStep::AlignToHuman { sample: sample.to_owned(), suffix: suffix.to_owned() }
}

/// The step that converts the alignments of `sample` back to reads.
pub fn convert_bamtofastq(sample: &str) -> (r: ToolStep)
    ensures
        r@ == (StepView::ConvertBamToFastq { sample: sample@ }),
{
    ToolStep::ConvertBamToFastq { sample: sample.to_owned() }
}

fn move_step(id: &str, from: &str, to: &str) -> (r: ToolStep)
    ensures
        r@ == (StepView::MoveFile { from: id@ + from@, to: id@ + to@ }),
{
    ToolStep::MoveFile { from: joined(id, from), to: joined(id, to) }
}

fn rename_step(id: &str, from: &str, to: &str) -> (r: ToolStep)
    ensures
        r@ == (StepView::RenameIfPresent { from: id@ + from@, to: id@ + to@ }),
{
    ToolStep::RenameIfPresent { from: joined(id, from), to: joined(id, to) }
}

fn decompress_step(id: &str, source: &str, target: &str, append: bool) -> (r: ToolStep)
    ensures
        r@ == (StepView::Decompress { source: id@ + source@, target: id@ + target@, append }),
{
    ToolStep::Decompress { source: joined(id, source), target: joined(id, target), append }
}

/// The steps that turn alignments back into reads and realign them.
pub open spec fn bam_steps(id: Seq<char>, bwa_mem: bool) -> Seq<StepView> {
    let h1 = id + "_h1"@;
    seq![StepView::ConvertBamToFastq { sample: id }] + if !bwa_mem {
        seq![
            StepView::AlignToHuman { sample: h1, suffix: ".1fq"@ },
            StepView::ConvertBamToFastq { sample: h1 },
            StepView::RenameIfPresent { from: id + "_h1_sm.bam"@, to: id + "_sm.bam"@ },
            StepView::RenameIfPresent { from: id + "_h1_su.bam"@, to: id + "_su.bam"@ },
        ]
    } else {
        Seq::empty()
    }
}

/// The steps that gather the soft-clipped reads.
pub open spec fn soft_clip_steps(id: Seq<char>, from_alignments: bool, bwa_mem: bool) -> Seq<
    StepView,
> {
    seq![
        StepView::Decompress {
            source: id + "_soft.fastq.gz"@,
            target: id + "_1sf.fastq"@,
            append: false,
        },
    ] + if from_alignments && !bwa_mem {
        seq![
            StepView::Decompress {
                source: id + "_h1_soft.fastq.gz"@,
                target: id + "_1sf.fastq"@,
                append: true,
            },
        ]
    } else {
        Seq::empty()
    }
}

/// The steps that put the discordant reads under their final names.
pub open spec fn read_move_steps(id: Seq<char>, from_alignments: bool, paired: bool, bwa_mem: bool) -> Seq<StepView> {
    if paired {
        if from_alignments && !bwa_mem {
            seq![
                StepView::MoveFile { from: id + "_h1_h1_1.1fq"@, to: id + "_1.1fq"@ },
                StepView::MoveFile { from: id + "_h1_h1_2.1fq"@, to: id + "_2.1fq"@ },
            ]
        } else {
            seq![
                StepView::MoveFile { from: id + "_h1_1.1fq"@, to: id + "_1.1fq"@ },
                StepView::MoveFile { from: id + "_h1_2.1fq"@, to: id + "_2.1fq"@ },
            ]
        }
    } else if !from_alignments {
        Seq::empty()
    } else if !bwa_mem {
        seq![StepView::MoveFile { from: id + "_h1_h1.1fq"@, to: id + ".1fq"@ }]
    } else {
        seq![StepView::MoveFile { from: id + "_h1.1fq"@, to: id + ".1fq"@ }]
    }
}

/// Whether the input is read as alignments: the suffix is `bam` in any ASCII
/// case, or a list of alignment files was given.
pub open spec fn reads_alignments(o: GetOptions) -> bool {
    equal_ignoring_ascii_case(o.file_suffix@, "bam"@) || o.multiple_bam
}

/// The extraction steps of a run, in order.
pub open spec fn extraction_steps(o: GetOptions) -> Seq<StepView> {
    let id = o.input_sample_id@;
    let mode = crate::pipeline::mode_named(o.sequencing_type@);
    let paired = mode == Some(SequencingMode::PairedEnd);
    let soft = o.split is Some || mode == Some(SequencingMode::SingleEnd);
    let from_alignments = reads_alignments(o);
    (if from_alignments {
        bam_steps(id, o.bwa_mem)
    } else {
        seq![
            StepView::AlignToHuman { sample: id, suffix: o.file_suffix@ },
            StepView::ConvertBamToFastq { sample: id },
        ]
    }) + (if soft {
        soft_clip_steps(id, from_alignments, o.bwa_mem)
    } else {
        Seq::empty()
    }) + read_move_steps(id, from_alignments, paired, o.bwa_mem)
}

fn push_step(steps: &mut Vec<ToolStep>, s: ToolStep)
    ensures
        step_views(final(steps)@) == step_views(old(steps)@).push(s@),
{
    steps.push(s);
    assert(step_views(final(steps)@) =~= step_views(old(steps)@).push(s@));
}

/// The steps that extract the candidate reads of a run, in the order in
/// which they run.
pub fn extraction_plan(o: &GetOptions) -> (r: Vec<ToolStep>)
    ensures
        step_views(r@) == extraction_steps(*o),
{
    let id = o.input_sample_id.as_str();
    let mode = SequencingMode::from_text(o.sequencing_type.as_str());
    let paired = mode == Some(SequencingMode::PairedEnd);
    let soft = o.split.is_some() || mode == Some(SequencingMode::SingleEnd);
    let from_alignments = eq_ignore_ascii_case(o.file_suffix.as_str(), "bam") || o.multiple_bam;
    let mut steps: Vec<ToolStep> = Vec::new();
    let ghost first: Seq<StepView>;
    if from_alignments {
        push_step(&mut steps, convert_bamtofastq(id));
        if !o.bwa_mem {
            let h1 = joined(id, "_h1");
            push_step(&mut steps, align_to_hg(h1.as_str(), ".1fq"));
            push_step(&mut steps, convert_bamtofastq(h1.as_str()));
            push_step(&mut steps, rename_step(id, "_h1_sm.bam", "_sm.bam"));
            push_step(&mut steps, rename_step(id, "_h1_su.bam", "_su.bam"));
        }
        proof {
            first = bam_steps(id@, o.bwa_mem);
            assert(step_views(steps@) =~= first);
        }
    } else {
        push_step(&mut steps, align_to_hg(id, o.file_suffix.as_str()));
        push_step(&mut steps, convert_bamtofastq(id));
        proof {
            first = seq![
                StepView::AlignToHuman { sample: id@, suffix: o.file_suffix@ },
                StepView::ConvertBamToFastq { sample: id@ },
            ];
            assert(step_views(steps@) =~= first);
        }
    }
    let ghost second: Seq<StepView> = if soft {
        soft_clip_steps(id@, from_alignments, o.bwa_mem)
    } else {
        Seq::empty()
    };
    if soft {
        push_step(&mut steps, decompress_step(id, "_soft.fastq.gz", "_1sf.fastq", false));
        if from_alignments && !o.bwa_mem {
            push_step(&mut steps, decompress_step(id, "_h1_soft.fastq.gz", "_1sf.fastq", true));
        }
    }
    assert(step_views(steps@) =~= first + second);
    let ghost third = read_move_steps(id@, from_alignments, paired, o.bwa_mem);
    if paired {
        if from_alignments && !o.bwa_mem {
            push_step(&mut steps, move_step(id, "_h1_h1_1.1fq", "_1.1fq"));
            push_step(&mut steps, move_step(id, "_h1_h1_2.1fq", "_2.1fq"));
        } else {
            push_step(&mut steps, move_step(id, "_h1_1.1fq", "_1.1fq"));
            push_step(&mut steps, move_step(id, "_h1_2.1fq", "_2.1fq"));
        }
    } else if from_alignments {
        if !o.bwa_mem {
            push_step(&mut steps, move_step(id, "_h1_h1.1fq", ".1fq"));
        } else {
            push_step(&mut steps, move_step(id, "_h1.1fq", ".1fq"));
        }
    }
    assert(step_views(steps@) =~= first + second + third);
    steps
}

} // verus!

verus! {

/// Least score of a discordant read's TE alignment.
pub const PAIR_MIN_SCORE: u32 = 30;

/// Least score of a soft-clipped fragment's TE alignment.
pub const SOFT_CLIP_MIN_SCORE: u32 = 20;

/// The steps that find the split-read breakpoints.
pub open spec fn split_read_steps(id: Seq<char>) -> Seq<StepView> {
    seq![
        StepView::AlignToTe {
            reads: id + "_1sf.fastq"@,
            mates: None,
            min_score: 20,
            output: id + "_vsoft.sam"@,
        },
        StepView::TransferSoftClips {
            alignments: id + "_vsoft.sam"@,
            output: id + "_vsoft_breakpoint"@,
        },
        StepView::AppendBreakpoints {
            source: id + "_vsoft_breakpoint"@,
            kind: BreakpointSource::SplitRead,
        },
    ]
}

/// The steps that find the discordant-pair breakpoints.
pub open spec fn discordant_steps(id: Seq<char>) -> Seq<StepView> {
    seq![
        StepView::ExtractAlignments { input: id + "_sm.bam"@, output: id + "_sm.sam"@ },
        StepView::ClassifyReads { alignments: id + "_sm.sam"@, output: id + ".type"@ },
        StepView::CallBreakpoints {
            types: id + ".type"@,
            positions: id + "_sm.sam"@,
            te_alignments: id + "_vsu.sam"@,
            min_score: 30,
            output_prefix: id,
        },
        StepView::AppendBreakpoints {
            source: id + "_breakpoint"@,
            kind: BreakpointSource::DiscordantPair,
        },
    ]
}

/// The detection steps of a run, in order: the discordant reads aligned to
/// the TE references (paired-end only), the split-read breakpoints (single-end,
/// or paired-end with a split length), then the discordant-pair breakpoints
/// (paired-end only), so that split-read breakpoints are folded in first.
pub open spec fn detection_steps(o: GetOptions) -> Seq<StepView> {
    let id = o.input_sample_id@;
    let mode = crate::pipeline::mode_named(o.sequencing_type@);
    let paired = mode == Some(SequencingMode::PairedEnd);
    let single = mode == Some(SequencingMode::SingleEnd);
    (if paired {
        seq![
            StepView::AlignToTe {
                reads: id + "_1.1fq"@,
                mates: Some(id + "_2.1fq"@),
                min_score: 30,
                output: id + "_vsu.sam"@,
            },
        ]
    } else {
        seq![StepView::CreateEmpty { path: id + "_vsu.sam"@ }]
    }) + seq![StepView::CreateEmpty { path: id + "_all_breakpoint"@ }] + (if single || (paired
        && o.split is Some) {
        split_read_steps(id)
    } else {
        Seq::empty()
    }) + (if paired {
        discordant_steps(id)
    } else {
        Seq::empty()
    }) + seq![StepView::FilterFastq { sample: id }]
}

/// The steps that detect breakpoints once the reads are extracted, in the
/// order in which they run.
pub fn detection_plan(o: &GetOptions) -> (r: Vec<ToolStep>)
    ensures
        step_views(r@) == detection_steps(*o),
{
    let id = o.input_sample_id.as_str();
    let mode = SequencingMode::from_text(o.sequencing_type.as_str());
    let paired = mode == Some(SequencingMode::PairedEnd);
    let single = mode == Some(SequencingMode::SingleEnd);
    let mut steps: Vec<ToolStep> = Vec::new();
    if paired {
        push_step(
            &mut steps,
            ToolStep::AlignToTe {
                reads: joined(id, "_1.1fq"),
                mates: Some(joined(id, "_2.1fq")),
                min_score: PAIR_MIN_SCORE,
                output: joined(id, "_vsu.sam"),
            },
        );
    } else {
        push_step(&mut steps, ToolStep::CreateEmpty { path: joined(id, "_vsu.sam") });
    }
    push_step(&mut steps, ToolStep::CreateEmpty { path: joined(id, "_all_breakpoint") });
    let ghost first = step_views(steps@);
    if single || (paired && o.split.is_some()) {
        push_step(
            &mut steps,
            ToolStep::AlignToTe {
                reads: joined(id, "_1sf.fastq"),
                mates: None,
                min_score: SOFT_CLIP_MIN_SCORE,
                output: joined(id, "_vsoft.sam"),
            },
        );
        push_step(
            &mut steps,
            ToolStep::TransferSoftClips {
                alignments: joined(id, "_vsoft.sam"),
                output: joined(id, "_vsoft_breakpoint"),
            },
        );
        push_step(
            &mut steps,
            ToolStep::AppendBreakpoints {
                source: joined(id, "_vsoft_breakpoint"),
                kind: BreakpointSource::SplitRead,
            },
        );
        assert(step_views(steps@) =~= first + split_read_steps(id@));
    }
    let ghost second = step_views(steps@);
    if paired {
        push_step(
            &mut steps,
            ToolStep::ExtractAlignments { input: joined(id, "_sm.bam"), output: joined(id, "_sm.sam") },
        );
        push_step(
            &mut steps,
            ToolStep::ClassifyReads { alignments: joined(id, "_sm.sam"), output: joined(id, ".type") },
        );
        push_step(
            &mut steps,
            ToolStep::CallBreakpoints {
                types: joined(id, ".type"),
                positions: joined(id, "_sm.sam"),
                te_alignments: joined(id, "_vsu.sam"),
                min_score: PAIR_MIN_SCORE,
                output_prefix: id.to_owned(),
            },
        );
        push_step(
            &mut steps,
            ToolStep::AppendBreakpoints {
                source: joined(id, "_breakpoint"),
                kind: BreakpointSource::DiscordantPair,
            },
        );
        assert(step_views(steps@) =~= second + discordant_steps(id@));
    }
    push_step(&mut steps, ToolStep::FilterFastq { sample: id.to_owned() });
    assert(step_views(steps@) =~= detection_steps(*o));
    steps
}

} // verus!
