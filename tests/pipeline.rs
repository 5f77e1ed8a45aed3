use ervcaller::aggregate::BreakpointSource;
use ervcaller::pipeline::{
    alignment_suffix, eq_ignore_ascii_case, fastq_suffix, next_stage, select_input_path,
    GetOptions, InputPath, InputProbe, PipelineStage, SequencingMode, SetupError, StageEvent,
};
use ervcaller::steps::{align_to_hg, convert_bamtofastq, detection_plan, extraction_plan, ToolStep};

fn options() -> GetOptions {
    GetOptions {
        input_sample_id: "S1".to_string(),
        file_suffix: String::new(),
        human_reference_genome: "hg38.fa".to_string(),
        te_reference_genome: "TE.fa".to_string(),
        input_directory: String::new(),
        output_directory: "/out".to_string(),
        number_of_reads: None,
        data_type: String::new(),
        sequencing_type: String::new(),
        read_len: None,
        threads: Some(8),
        split: None,
        multiple_bam: false,
        bwa_mem: false,
        genotype: false,
    }
}

fn probe(paired: bool, single: bool, index: bool) -> InputProbe {
    InputProbe { paired_files_exist: paired, single_file_exists: single, index_exists: index }
}

#[test]
fn normalize_fills_defaults() {
    let mut o = options();
    o.normalize(Some("/work".to_string()));
    assert_eq!(o.file_suffix, ".bam");
    assert_eq!(o.read_len, Some(100));
    assert_eq!(o.split, Some(20));
    assert_eq!(o.threads, Some(8));
    assert_eq!(o.number_of_reads, Some(3));
    assert_eq!(o.data_type, "WGS");
    assert_eq!(o.sequencing_type, "paired-end");
    assert_eq!(o.input_directory, "/work");
    assert_eq!(o.output_directory, "/out");
    assert_eq!(o.input_sample_id, "S1");
}

#[test]
fn normalize_without_working_directory_leaves_it_empty() {
    let mut o = options();
    o.normalize(None);
    assert_eq!(o.input_directory, "");
}

#[test]
fn ascii_case_is_ignored() {
    assert!(eq_ignore_ascii_case("Single-End", "single-end"));
    assert!(eq_ignore_ascii_case("BAM", "bam"));
    assert!(!eq_ignore_ascii_case("bam", "bams"));
    assert!(!eq_ignore_ascii_case("[", "{"));
    assert_eq!(SequencingMode::from_text("PAIRED-END"), Some(SequencingMode::PairedEnd));
    assert_eq!(SequencingMode::from_text("single-end"), Some(SequencingMode::SingleEnd));
    assert_eq!(SequencingMode::from_text("paired"), None);
}

#[test]
fn suffix_patterns() {
    assert!(fastq_suffix("fastq.gz"));
    assert!(fastq_suffix("fq"));
    assert!(!fastq_suffix("bam"));
    assert!(alignment_suffix(".bam"));
    assert!(alignment_suffix("sam"));
    assert!(!alignment_suffix("cram"));
    assert!(!alignment_suffix("BAM"));
}

#[test]
fn paired_fastq_input() {
    let r = select_input_path(probe(true, false, false), Some(SequencingMode::PairedEnd), "fq", false, false);
    assert_eq!(r, Ok(InputPath::FastqPaired));
}

#[test]
fn single_fastq_input() {
    let r = select_input_path(probe(false, true, false), Some(SequencingMode::SingleEnd), "fastq", false, true);
    assert_eq!(r, Ok(InputPath::FastqSingle));
}

#[test]
fn bam_inputs() {
    let paired = select_input_path(probe(false, true, false), Some(SequencingMode::PairedEnd), "bam", false, false);
    assert_eq!(paired, Ok(InputPath::BamPaired));
    let single = select_input_path(probe(false, true, true), Some(SequencingMode::SingleEnd), "sam", false, true);
    assert_eq!(single, Ok(InputPath::BamSingle));
}

#[test]
fn genotyping_needs_an_index() {
    let r = select_input_path(probe(false, true, false), Some(SequencingMode::PairedEnd), "bam", false, true);
    assert_eq!(r, Err(SetupError::MissingIndex));
}

#[test]
fn multi_bam_list() {
    let r = select_input_path(probe(false, true, false), None, "list", true, true);
    assert_eq!(r, Ok(InputPath::MultiBam));
}

#[test]
fn nothing_found() {
    let none = select_input_path(probe(false, false, true), Some(SequencingMode::PairedEnd), "bam", true, false);
    assert_eq!(none, Err(SetupError::NoInputFound));
    let cram = select_input_path(probe(true, true, true), Some(SequencingMode::PairedEnd), "cram", false, false);
    assert_eq!(cram, Err(SetupError::NoInputFound));
}

#[test]
fn stages_in_order() {
    let s0 = PipelineStage::AwaitingInputClassification;
    let s1 = next_stage(s0, StageEvent::InputAccepted(InputPath::BamPaired));
    assert_eq!(s1, PipelineStage::Extracting(InputPath::BamPaired));
    let s2 = next_stage(s1, StageEvent::StepsFinished);
    assert_eq!(s2, PipelineStage::ExtractionDone);
    let s3 = next_stage(s2, StageEvent::StepsFinished);
    assert_eq!(s3, PipelineStage::ClassificationDone);
    let s4 = next_stage(s3, StageEvent::StepsFinished);
    assert_eq!(s4, PipelineStage::Aggregated);
    let s5 = next_stage(s4, StageEvent::StepsFinished);
    assert_eq!(s5, PipelineStage::Terminal);
    assert_eq!(next_stage(s5, StageEvent::StepsFinished), PipelineStage::Terminal);
}

#[test]
fn rejected_input_is_final() {
    let f = next_stage(PipelineStage::AwaitingInputClassification, StageEvent::InputRejected(SetupError::MissingIndex));
    assert_eq!(f, PipelineStage::Failed(SetupError::MissingIndex));
    assert_eq!(next_stage(f, StageEvent::StepsFinished), f);
    assert_eq!(next_stage(PipelineStage::ExtractionDone, StageEvent::InputAccepted(InputPath::MultiBam)), PipelineStage::ExtractionDone);
}

#[test]
fn step_builders() {
    assert!(matches!(align_to_hg("S1_h1", ".1fq"), ToolStep::AlignToHuman { sample, suffix } if sample == "S1_h1" && suffix == ".1fq"));
    assert!(matches!(convert_bamtofastq("S1"), ToolStep::ConvertBamToFastq { sample } if sample == "S1"));
}

#[test]
fn extraction_from_alignments() {
    let mut o = options();
    o.file_suffix = "BAM".to_string();
    o.sequencing_type = "paired-end".to_string();
    o.split = Some(20);
    let steps = extraction_plan(&o);
    assert_eq!(steps.len(), 9);
    assert!(matches!(&steps[0], ToolStep::ConvertBamToFastq { sample } if sample == "S1"));
    assert!(matches!(&steps[1], ToolStep::AlignToHuman { sample, suffix } if sample == "S1_h1" && suffix == ".1fq"));
    assert!(matches!(&steps[3], ToolStep::RenameIfPresent { from, to } if from == "S1_h1_sm.bam" && to == "S1_sm.bam"));
    assert!(matches!(&steps[6], ToolStep::Decompress { source, target, append: true } if source == "S1_h1_soft.fastq.gz" && target == "S1_1sf.fastq"));
    assert!(matches!(&steps[8], ToolStep::MoveFile { from, to } if from == "S1_h1_h1_2.1fq" && to == "S1_2.1fq"));
}

#[test]
fn extraction_from_reads() {
    let mut o = options();
    o.file_suffix = "fq".to_string();
    o.sequencing_type = "single-end".to_string();
    let steps = extraction_plan(&o);
    assert_eq!(steps.len(), 3);
    assert!(matches!(&steps[0], ToolStep::AlignToHuman { sample, suffix } if sample == "S1" && suffix == "fq"));
    assert!(matches!(&steps[2], ToolStep::Decompress { source, append: false, .. } if source == "S1_soft.fastq.gz"));
}

#[test]
fn detection_for_paired_reads() {
    let mut o = options();
    o.sequencing_type = "paired-end".to_string();
    o.split = Some(20);
    let steps = detection_plan(&o);
    assert_eq!(steps.len(), 10);
    assert!(matches!(&steps[0], ToolStep::AlignToTe { mates: Some(m), min_score: 30, .. } if m == "S1_2.1fq"));
    assert!(matches!(&steps[3], ToolStep::TransferSoftClips { .. }));
    assert!(matches!(&steps[4], ToolStep::AppendBreakpoints { kind: BreakpointSource::SplitRead, .. }));
    assert!(matches!(&steps[6], ToolStep::ClassifyReads { alignments, output } if alignments == "S1_sm.sam" && output == "S1.type"));
    assert!(matches!(&steps[8], ToolStep::AppendBreakpoints { source, kind: BreakpointSource::DiscordantPair } if source == "S1_breakpoint"));
    assert!(matches!(&steps[9], ToolStep::FilterFastq { sample } if sample == "S1"));
}

#[test]
fn detection_for_single_reads() {
    let mut o = options();
    o.sequencing_type = "single-end".to_string();
    let steps = detection_plan(&o);
    assert_eq!(steps.len(), 6);
    assert!(matches!(&steps[0], ToolStep::CreateEmpty { path } if path == "S1_vsu.sam"));
    assert!(matches!(&steps[2], ToolStep::AlignToTe { mates: None, min_score: 20, .. }));
}
