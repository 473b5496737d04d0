//! Command-line arguments.
//!
//! The application hands in the arguments as text, each with the single-precision number
//! it reads as, together with the settings of the environment.
use vstd::prelude::*;
use vstd::string::{StrSliceExecFns, StringExecFns};

use crate::cache::KvPageSize;
use crate::float::F32;
use crate::generation::sampler::{SamplingConfig, SamplingError};
use crate::model::profile::DecodeProfileMode;
use crate::text::text_eq;

verus! {

/// One command-line argument.
#[derive(Debug)]
pub struct Argument {
    pub text: String,
    /// The single-precision number that the text reads as, if it does.
    pub single: Option<F32>,
}

pub struct ArgumentView {
    pub text: Seq<char>,
    pub single: Option<F32>,
}

impl View for Argument {
    type V = ArgumentView;

    open spec fn view(&self) -> ArgumentView {
        ArgumentView { text: self.text@, single: self.single }
    }
}

pub open spec fn argument_views(args: Seq<Argument>) -> Seq<ArgumentView> {
    Seq::new(args.len(), |i: int| args[i]@)
}

/// Settings that the environment gives before the arguments are read.
#[derive(Debug)]
pub struct Environment {
    pub fp8_policy: Option<String>,
    pub speculative_draft: Option<String>,
    pub fused_rms_fp8: Option<String>,
    pub fused_swiglu_fp8: Option<String>,
    pub metadata_scratch: Option<String>,
}

/// Options whose value is kept as text.
#[derive(Clone, Copy, Debug, PartialEq, Eq, Structural)]
pub enum TextOption {
    Model,
    Prompt,
    Serve,
    CalibrateFp8,
    BenchmarkFp8,
    BenchmarkBatchedFp8,
    BenchmarkServing,
    BenchmarkHardware,
    BenchmarkLoad,
    EvaluateFp8,
    BenchmarkOutput,
    EvaluationOutput,
    Fp8EvalCorpus,
    CalibrationOutput,
    Fp8Policy,
    ProfileOutput,
    HardwareProfile,
}

/// Options whose value is a count.
#[derive(Clone, Copy, Debug, PartialEq, Eq, Structural)]
pub enum CountOption {
    BenchmarkPairs,
    CalibrationMaxSequences,
    CalibrationMaxTokens,
    Fp8EvalSequences,
    Fp8EvalMaxTokens,
    MaxNewTokens,
    Device,
    TopK,
    ProfileWarmupSteps,
    ProfileSteps,
    SpeculativeDraft,
}

/// Options whose value is a single-precision number.
#[derive(Clone, Copy, Debug, PartialEq, Eq, Structural)]
pub enum SingleOption {
    Temperature,
    RepetitionPenalty,
}

/// Options without a value.
#[derive(Clone, Copy, Debug, PartialEq, Eq, Structural)]
pub enum FlagOption {
    NoFp8Policy,
    FusedRmsFp8,
    NoFusedRmsFp8,
    FusedSwigluFp8,
    NoFusedSwigluFp8,
    MetadataScratch,
    NoMetadataScratch,
}

/// Everything an argument can ask for.
#[derive(Clone, Copy, Debug, PartialEq, Eq, Structural)]
pub enum CliOption {
    Text(TextOption),
    Count(CountOption),
    Single(SingleOption),
    Seed,
    PageSize,
    ProfileDecode,
    Flag(FlagOption),
    Help,
}

/// The option that a text names.
pub open spec fn option_named(text: Seq<char>) -> Option<CliOption> {
    if text == "--model"@ {
        Some(CliOption::Text(TextOption::Model))
    } else if text == "--prompt"@ {
        Some(CliOption::Text(TextOption::Prompt))
    } else if text == "--serve"@ {
        Some(CliOption::Text(TextOption::Serve))
    } else if text == "--calibrate-fp8"@ {
        Some(CliOption::Text(TextOption::CalibrateFp8))
    } else if text == "--benchmark-fp8"@ {
        Some(CliOption::Text(TextOption::BenchmarkFp8))
    } else if text == "--benchmark-batched-fp8"@ {
        Some(CliOption::Text(TextOption::BenchmarkBatchedFp8))
    } else if text == "--benchmark-serving"@ {
        Some(CliOption::Text(TextOption::BenchmarkServing))
    } else if text == "--benchmark-hardware"@ {
        Some(CliOption::Text(TextOption::BenchmarkHardware))
    } else if text == "--benchmark-load"@ {
        Some(CliOption::Text(TextOption::BenchmarkLoad))
    } else if text == "--evaluate-fp8"@ {
        Some(CliOption::Text(TextOption::EvaluateFp8))
    } else if text == "--benchmark-output"@ {
        Some(CliOption::Text(TextOption::BenchmarkOutput))
    } else if text == "--evaluation-output"@ {
        Some(CliOption::Text(TextOption::EvaluationOutput))
    } else if text == "--fp8-eval-corpus"@ {
        Some(CliOption::Text(TextOption::Fp8EvalCorpus))
    } else if text == "--calibration-output"@ {
        Some(CliOption::Text(TextOption::CalibrationOutput))
    } else if text == "--fp8-policy"@ {
        Some(CliOption::Text(TextOption::Fp8Policy))
    } else if text == "--profile-output"@ {
        Some(CliOption::Text(TextOption::ProfileOutput))
    } else if text == "--hardware-profile"@ {
        Some(CliOption::Text(TextOption::HardwareProfile))
    } else if text == "--benchmark-pairs"@ {
        Some(CliOption::Count(CountOption::BenchmarkPairs))
    } else if text == "--calibration-max-sequences"@ {
        Some(CliOption::Count(CountOption::CalibrationMaxSequences))
    } else if text == "--calibration-max-tokens"@ {
        Some(CliOption::Count(CountOption::CalibrationMaxTokens))
    } else if text == "--fp8-eval-sequences"@ {
        Some(CliOption::Count(CountOption::Fp8EvalSequences))
    } else if text == "--fp8-eval-max-tokens"@ {
        Some(CliOption::Count(CountOption::Fp8EvalMaxTokens))
    } else if text == "--max-new-tokens"@ {
        Some(CliOption::Count(CountOption::MaxNewTokens))
    } else if text == "--device"@ {
        Some(CliOption::Count(CountOption::Device))
    } else if text == "--top-k"@ {
        Some(CliOption::Count(CountOption::TopK))
    } else if text == "--profile-warmup-steps"@ {
        Some(CliOption::Count(CountOption::ProfileWarmupSteps))
    } else if text == "--profile-steps"@ {
        Some(CliOption::Count(CountOption::ProfileSteps))
    } else if text == "--speculative-draft"@ {
        Some(CliOption::Count(CountOption::SpeculativeDraft))
    } else if text == "--temperature"@ {
        Some(CliOption::Single(SingleOption::Temperature))
    } else if text == "--repetition-penalty"@ {
        Some(CliOption::Single(SingleOption::RepetitionPenalty))
    } else if text == "--seed"@ {
        Some(CliOption::Seed)
    } else if text == "--page-size"@ {
        Some(CliOption::PageSize)
    } else if text == "--profile-decode"@ {
        Some(CliOption::ProfileDecode)
    } else if text == "--no-fp8-policy"@ {
        Some(CliOption::Flag(FlagOption::NoFp8Policy))
    } else if text == "--bf16"@ {
        Some(CliOption::Flag(FlagOption::NoFp8Policy))
    } else if text == "--fused-rms-fp8"@ {
        Some(CliOption::Flag(FlagOption::FusedRmsFp8))
    } else if text == "--no-fused-rms-fp8"@ {
        Some(CliOption::Flag(FlagOption::NoFusedRmsFp8))
    } else if text == "--fused-swiglu-fp8"@ {
        Some(CliOption::Flag(FlagOption::FusedSwigluFp8))
    } else if text == "--no-fused-swiglu-fp8"@ {
        Some(CliOption::Flag(FlagOption::NoFusedSwigluFp8))
    } else if text == "--metadata-scratch"@ {
        Some(CliOption::Flag(FlagOption::MetadataScratch))
    } else if text == "--no-metadata-scratch"@ {
        Some(CliOption::Flag(FlagOption::NoMetadataScratch))
    } else if text == "-h"@ {
        Some(CliOption::Help)
    } else if text == "--help"@ {
        Some(CliOption::Help)
    } else {
        None
    }
}

/// Reads the name of an option.
pub fn find_option(text: &str) -> (r: Option<CliOption>)
    ensures
        r == option_named(text@),
{
    if text_eq(text, "--model") {
        Some(CliOption::Text(TextOption::Model))
    } else if text_eq(text, "--prompt") {
        Some(CliOption::Text(TextOption::Prompt))
    } else if text_eq(text, "--serve") {
        Some(CliOption::Text(TextOption::Serve))
    } else if text_eq(text, "--calibrate-fp8") {
        Some(CliOption::Text(TextOption::CalibrateFp8))
    } else if text_eq(text, "--benchmark-fp8") {
        Some(CliOption::Text(TextOption::BenchmarkFp8))
    } else if text_eq(text, "--benchmark-batched-fp8") {
        Some(CliOption::Text(TextOption::BenchmarkBatchedFp8))
    } else if text_eq(text, "--benchmark-serving") {
        Some(CliOption::Text(TextOption::BenchmarkServing))
    } else if text_eq(text, "--benchmark-hardware") {
        Some(CliOption::Text(TextOption::BenchmarkHardware))
    } else if text_eq(text, "--benchmark-load") {
        Some(CliOption::Text(TextOption::BenchmarkLoad))
    } else if text_eq(text, "--evaluate-fp8") {
        Some(CliOption::Text(TextOption::EvaluateFp8))
    } else if text_eq(text, "--benchmark-output") {
        Some(CliOption::Text(TextOption::BenchmarkOutput))
    } else if text_eq(text, "--evaluation-output") {
        Some(CliOption::Text(TextOption::EvaluationOutput))
    } else if text_eq(text, "--fp8-eval-corpus") {
        Some(CliOption::Text(TextOption::Fp8EvalCorpus))
    } else if text_eq(text, "--calibration-output") {
        Some(CliOption::Text(TextOption::CalibrationOutput))
    } else if text_eq(text, "--fp8-policy") {
        Some(CliOption::Text(TextOption::Fp8Policy))
    } else if text_eq(text, "--profile-output") {
        Some(CliOption::Text(TextOption::ProfileOutput))
    } else if text_eq(text, "--hardware-profile") {
        Some(CliOption::Text(TextOption::HardwareProfile))
    } else if text_eq(text, "--benchmark-pairs") {
        Some(CliOption::Count(CountOption::BenchmarkPairs))
    } else if text_eq(text, "--calibration-max-sequences") {
        Some(CliOption::Count(CountOption::CalibrationMaxSequences))
    } else if text_eq(text, "--calibration-max-tokens") {
        Some(CliOption::Count(CountOption::CalibrationMaxTokens))
    } else if text_eq(text, "--fp8-eval-sequences") {
        Some(CliOption::Count(CountOption::Fp8EvalSequences))
    } else if text_eq(text, "--fp8-eval-max-tokens") {
        Some(CliOption::Count(CountOption::Fp8EvalMaxTokens))
    } else if text_eq(text, "--max-new-tokens") {
        Some(CliOption::Count(CountOption::MaxNewTokens))
    } else if text_eq(text, "--device") {
        Some(CliOption::Count(CountOption::Device))
    } else if text_eq(text, "--top-k") {
        Some(CliOption::Count(CountOption::TopK))
    } else if text_eq(text, "--profile-warmup-steps") {
        Some(CliOption::Count(CountOption::ProfileWarmupSteps))
    } else if text_eq(text, "--profile-steps") {
        Some(CliOption::Count(CountOption::ProfileSteps))
    } else if text_eq(text, "--speculative-draft") {
        Some(CliOption::Count(CountOption::SpeculativeDraft))
    } else if text_eq(text, "--temperature") {
        Some(CliOption::Single(SingleOption::Temperature))
    } else if text_eq(text, "--repetition-penalty") {
        Some(CliOption::Single(SingleOption::RepetitionPenalty))
    } else if text_eq(text, "--seed") {
        Some(CliOption::Seed)
    } else if text_eq(text, "--page-size") {
        Some(CliOption::PageSize)
    } else if text_eq(text, "--profile-decode") {
        Some(CliOption::ProfileDecode)
    } else if text_eq(text, "--no-fp8-policy") {
        Some(CliOption::Flag(FlagOption::NoFp8Policy))
    } else if text_eq(text, "--bf16") {
        Some(CliOption::Flag(FlagOption::NoFp8Policy))
    } else if text_eq(text, "--fused-rms-fp8") {
        Some(CliOption::Flag(FlagOption::FusedRmsFp8))
    } else if text_eq(text, "--no-fused-rms-fp8") {
        Some(CliOption::Flag(FlagOption::NoFusedRmsFp8))
    } else if text_eq(text, "--fused-swiglu-fp8") {
        Some(CliOption::Flag(FlagOption::FusedSwigluFp8))
    } else if text_eq(text, "--no-fused-swiglu-fp8") {
        Some(CliOption::Flag(FlagOption::NoFusedSwigluFp8))
    } else if text_eq(text, "--metadata-scratch") {
        Some(CliOption::Flag(FlagOption::MetadataScratch))
    } else if text_eq(text, "--no-metadata-scratch") {
        Some(CliOption::Flag(FlagOption::NoMetadataScratch))
    } else if text_eq(text, "-h") {
        Some(CliOption::Help)
    } else if text_eq(text, "--help") {
        Some(CliOption::Help)
    } else {
        None
    }
}

impl CliOption {
    /// The spelling used in messages.
    pub open spec fn spelling(self) -> Seq<char> {
        match self {
            CliOption::Text(TextOption::Model) => "--model"@,
            CliOption::Text(TextOption::Prompt) => "--prompt"@,
            CliOption::Text(TextOption::Serve) => "--serve"@,
            CliOption::Text(TextOption::CalibrateFp8) => "--calibrate-fp8"@,
            CliOption::Text(TextOption::BenchmarkFp8) => "--benchmark-fp8"@,
            CliOption::Text(TextOption::BenchmarkBatchedFp8) => "--benchmark-batched-fp8"@,
            CliOption::Text(TextOption::BenchmarkServing) => "--benchmark-serving"@,
            CliOption::Text(TextOption::BenchmarkHardware) => "--benchmark-hardware"@,
            CliOption::Text(TextOption::BenchmarkLoad) => "--benchmark-load"@,
            CliOption::Text(TextOption::EvaluateFp8) => "--evaluate-fp8"@,
            CliOption::Text(TextOption::BenchmarkOutput) => "--benchmark-output"@,
            CliOption::Text(TextOption::EvaluationOutput) => "--evaluation-output"@,
            CliOption::Text(TextOption::Fp8EvalCorpus) => "--fp8-eval-corpus"@,
            CliOption::Text(TextOption::CalibrationOutput) => "--calibration-output"@,
            CliOption::Text(TextOption::Fp8Policy) => "--fp8-policy"@,
            CliOption::Text(TextOption::ProfileOutput) => "--profile-output"@,
            CliOption::Text(TextOption::HardwareProfile) => "--hardware-profile"@,
            CliOption::Count(CountOption::BenchmarkPairs) => "--benchmark-pairs"@,
            CliOption::Count(CountOption::CalibrationMaxSequences) => "--calibration-max-sequences"@,
            CliOption::Count(CountOption::CalibrationMaxTokens) => "--calibration-max-tokens"@,
            CliOption::Count(CountOption::Fp8EvalSequences) => "--fp8-eval-sequences"@,
            CliOption::Count(CountOption::Fp8EvalMaxTokens) => "--fp8-eval-max-tokens"@,
            CliOption::Count(CountOption::MaxNewTokens) => "--max-new-tokens"@,
            CliOption::Count(CountOption::Device) => "--device"@,
            CliOption::Count(CountOption::TopK) => "--top-k"@,
            CliOption::Count(CountOption::ProfileWarmupSteps) => "--profile-warmup-steps"@,
            CliOption::Count(CountOption::ProfileSteps) => "--profile-steps"@,
            CliOption::Count(CountOption::SpeculativeDraft) => "--speculative-draft"@,
            CliOption::Single(SingleOption::Temperature) => "--temperature"@,
            CliOption::Single(SingleOption::RepetitionPenalty) => "--repetition-penalty"@,
            CliOption::Seed => "--seed"@,
            CliOption::PageSize => "--page-size"@,
            CliOption::ProfileDecode => "--profile-decode"@,
            CliOption::Flag(FlagOption::NoFp8Policy) => "--no-fp8-policy"@,
            CliOption::Flag(FlagOption::FusedRmsFp8) => "--fused-rms-fp8"@,
            CliOption::Flag(FlagOption::NoFusedRmsFp8) => "--no-fused-rms-fp8"@,
            CliOption::Flag(FlagOption::FusedSwigluFp8) => "--fused-swiglu-fp8"@,
            CliOption::Flag(FlagOption::NoFusedSwigluFp8) => "--no-fused-swiglu-fp8"@,
            CliOption::Flag(FlagOption::MetadataScratch) => "--metadata-scratch"@,
            CliOption::Flag(FlagOption::NoMetadataScratch) => "--no-metadata-scratch"@,
            CliOption::Help => "-h"@,
        }
    }

    pub fn name(self) -> (r: &'static str)
        ensures
            r@ == self.spelling(),
    {
        match self {
            CliOption::Text(TextOption::Model) => "--model",
            CliOption::Text(TextOption::Prompt) => "--prompt",
            CliOption::Text(TextOption::Serve) => "--serve",
            CliOption::Text(TextOption::CalibrateFp8) => "--calibrate-fp8",
            CliOption::Text(TextOption::BenchmarkFp8) => "--benchmark-fp8",
            CliOption::Text(TextOption::BenchmarkBatchedFp8) => "--benchmark-batched-fp8",
            CliOption::Text(TextOption::BenchmarkServing) => "--benchmark-serving",
            CliOption::Text(TextOption::BenchmarkHardware) => "--benchmark-hardware",
            CliOption::Text(TextOption::BenchmarkLoad) => "--benchmark-load",
            CliOption::Text(TextOption::EvaluateFp8) => "--evaluate-fp8",
            CliOption::Text(TextOption::BenchmarkOutput) => "--benchmark-output",
            CliOption::Text(TextOption::EvaluationOutput) => "--evaluation-output",
            CliOption::Text(TextOption::Fp8EvalCorpus) => "--fp8-eval-corpus",
            CliOption::Text(TextOption::CalibrationOutput) => "--calibration-output",
            CliOption::Text(TextOption::Fp8Policy) => "--fp8-policy",
            CliOption::Text(TextOption::ProfileOutput) => "--profile-output",
            CliOption::Text(TextOption::HardwareProfile) => "--hardware-profile",
            CliOption::Count(CountOption::BenchmarkPairs) => "--benchmark-pairs",
            CliOption::Count(CountOption::CalibrationMaxSequences) => "--calibration-max-sequences",
            CliOption::Count(CountOption::CalibrationMaxTokens) => "--calibration-max-tokens",
            CliOption::Count(CountOption::Fp8EvalSequences) => "--fp8-eval-sequences",
            CliOption::Count(CountOption::Fp8EvalMaxTokens) => "--fp8-eval-max-tokens",
            CliOption::Count(CountOption::MaxNewTokens) => "--max-new-tokens",
            CliOption::Count(CountOption::Device) => "--device",
            CliOption::Count(CountOption::TopK) => "--top-k",
            CliOption::Count(CountOption::ProfileWarmupSteps) => "--profile-warmup-steps",
            CliOption::Count(CountOption::ProfileSteps) => "--profile-steps",
            CliOption::Count(CountOption::SpeculativeDraft) => "--speculative-draft",
            CliOption::Single(SingleOption::Temperature) => "--temperature",
            CliOption::Single(SingleOption::RepetitionPenalty) => "--repetition-penalty",
            CliOption::Seed => "--seed",
            CliOption::PageSize => "--page-size",
            CliOption::ProfileDecode => "--profile-decode",
            CliOption::Flag(FlagOption::NoFp8Policy) => "--no-fp8-policy",
            CliOption::Flag(FlagOption::FusedRmsFp8) => "--fused-rms-fp8",
            CliOption::Flag(FlagOption::NoFusedRmsFp8) => "--no-fused-rms-fp8",
            CliOption::Flag(FlagOption::FusedSwigluFp8) => "--fused-swiglu-fp8",
            CliOption::Flag(FlagOption::NoFusedSwigluFp8) => "--no-fused-swiglu-fp8",
            CliOption::Flag(FlagOption::MetadataScratch) => "--metadata-scratch",
            CliOption::Flag(FlagOption::NoMetadataScratch) => "--no-metadata-scratch",
            CliOption::Help => "-h",
        }
    }
}

/// Why the arguments cannot be used. Positions are those of the offending argument.
#[derive(Clone, Copy, Debug, PartialEq, Eq, Structural)]
pub enum ArgsError {
    MissingValue { option: CliOption },
    /// The value is not a number of the option's type.
    InvalidNumber { option: CliOption },
    /// The value is a number that the option does not take.
    OutOfRange { count: CountOption },
    /// The value is none of the words that the option takes.
    NotAChoice { option: CliOption, position: usize },
    UnknownArgument { position: usize },
    /// Not exactly one run mode is asked for.
    ModeCount,
    CalibrationNeedsCorpus,
    CalibrationWithPolicy,
    BenchmarkWithPolicy,
    BatchedBenchmarkWithPolicy,
    EvaluationNeedsCorpus,
    EvaluationWithPolicy,
    Sampling { error: SamplingError },
}

/// What the program was asked to do.
#[derive(Debug)]
pub struct Args {
    pub model: String,
    pub prompt: Option<String>,
    pub serve: Option<String>,
    pub calibrate_fp8: Option<String>,
    pub benchmark_fp8: Option<String>,
    pub benchmark_batched_fp8: Option<String>,
    pub benchmark_serving: Option<String>,
    pub benchmark_hardware: Option<String>,
    pub benchmark_load: Option<String>,
    pub evaluate_fp8: Option<String>,
    pub benchmark_output: String,
    pub evaluation_output: String,
    pub fp8_eval_corpus: Option<String>,
    pub calibration_output: String,
    pub fp8_policy: Option<String>,
    pub profile_output: Option<String>,
    pub hardware_profile: Option<String>,
    pub benchmark_pairs: usize,
    pub calibration_max_sequences: usize,
    pub calibration_max_tokens: usize,
    pub fp8_eval_sequences: usize,
    pub fp8_eval_max_tokens: usize,
    pub max_new_tokens: usize,
    pub device: usize,
    pub top_k: usize,
    pub decode_profile_warmup_steps: usize,
    pub decode_profile_steps: usize,
    pub speculative_draft: usize,
    pub temperature: F32,
    pub repetition_penalty: F32,
    pub seed: u64,
    pub page_size: KvPageSize,
    pub decode_profile: DecodeProfileMode,
    /// The bf16 path was asked for explicitly.
    pub disable_fp8_policy: bool,
    pub fused_rms_fp8: bool,
    pub fused_swiglu_fp8: bool,
    pub metadata_scratch: bool,
}

/// The contents of [`Args`].
#[verifier::ext_equal]
pub struct ArgsView {
    pub model: Seq<char>,
    pub prompt: Option<Seq<char>>,
    pub serve: Option<Seq<char>>,
    pub calibrate_fp8: Option<Seq<char>>,
    pub benchmark_fp8: Option<Seq<char>>,
    pub benchmark_batched_fp8: Option<Seq<char>>,
    pub benchmark_serving: Option<Seq<char>>,
    pub benchmark_hardware: Option<Seq<char>>,
    pub benchmark_load: Option<Seq<char>>,
    pub evaluate_fp8: Option<Seq<char>>,
    pub benchmark_output: Seq<char>,
    pub evaluation_output: Seq<char>,
    pub fp8_eval_corpus: Option<Seq<char>>,
    pub calibration_output: Seq<char>,
    pub fp8_policy: Option<Seq<char>>,
    pub profile_output: Option<Seq<char>>,
    pub hardware_profile: Option<Seq<char>>,
    pub benchmark_pairs: usize,
    pub calibration_max_sequences: usize,
    pub calibration_max_tokens: usize,
    pub fp8_eval_sequences: usize,
    pub fp8_eval_max_tokens: usize,
    pub max_new_tokens: usize,
    pub device: usize,
    pub top_k: usize,
    pub decode_profile_warmup_steps: usize,
    pub decode_profile_steps: usize,
    pub speculative_draft: usize,
    pub temperature: F32,
    pub repetition_penalty: F32,
    pub seed: u64,
    pub page_size: KvPageSize,
    pub decode_profile: DecodeProfileMode,
    pub disable_fp8_policy: bool,
    pub fused_rms_fp8: bool,
    pub fused_swiglu_fp8: bool,
    pub metadata_scratch: bool,
}

pub open spec fn text_of(text: Option<String>) -> Option<Seq<char>> {
    match text {
        Some(text) => Some(text@),
        None => None,
    }
}

impl View for Args {
    type V = ArgsView;

    open spec fn view(&self) -> ArgsView {
        ArgsView {
            model: self.model@,
            prompt: text_of(self.prompt),
            serve: text_of(self.serve),
            calibrate_fp8: text_of(self.calibrate_fp8),
            benchmark_fp8: text_of(self.benchmark_fp8),
            benchmark_batched_fp8: text_of(self.benchmark_batched_fp8),
            benchmark_serving: text_of(self.benchmark_serving),
            benchmark_hardware: text_of(self.benchmark_hardware),
            benchmark_load: text_of(self.benchmark_load),
            evaluate_fp8: text_of(self.evaluate_fp8),
            benchmark_output: self.benchmark_output@,
            evaluation_output: self.evaluation_output@,
            fp8_eval_corpus: text_of(self.fp8_eval_corpus),
            calibration_output: self.calibration_output@,
            fp8_policy: text_of(self.fp8_policy),
            profile_output: text_of(self.profile_output),
            hardware_profile: text_of(self.hardware_profile),
            benchmark_pairs: self.benchmark_pairs,
            calibration_max_sequences: self.calibration_max_sequences,
            calibration_max_tokens: self.calibration_max_tokens,
            fp8_eval_sequences: self.fp8_eval_sequences,
            fp8_eval_max_tokens: self.fp8_eval_max_tokens,
            max_new_tokens: self.max_new_tokens,
            device: self.device,
            top_k: self.top_k,
            decode_profile_warmup_steps: self.decode_profile_warmup_steps,
            decode_profile_steps: self.decode_profile_steps,
            speculative_draft: self.speculative_draft,
            temperature: self.temperature,
            repetition_penalty: self.repetition_penalty,
            seed: self.seed,
            page_size: self.page_size,
            decode_profile: self.decode_profile,
            disable_fp8_policy: self.disable_fp8_policy,
            fused_rms_fp8: self.fused_rms_fp8,
            fused_swiglu_fp8: self.fused_swiglu_fp8,
            metadata_scratch: self.metadata_scratch,
        }
    }
}

pub open spec fn is_digit(c: char) -> bool {
    '0' <= c && c <= '9'
}

pub open spec fn digits_value(digits: Seq<char>) -> nat
    decreases digits.len(),
{
    if digits.len() == 0 {
        0
    } else {
        10 * digits_value(digits.drop_last()) + (digits.last() as nat - '0' as nat) as nat
    }
}

/// The text without a leading plus sign.
pub open spec fn unsigned_digits(text: Seq<char>) -> Seq<char> {
    if text.len() > 0 && text[0] == '+' {
        text.skip(1)
    } else {
        text
    }
}

/// The number that a text reads as: decimal digits, at least one, after an optional plus
/// sign.
pub open spec fn unsigned_value(text: Seq<char>) -> Option<nat> {
    let digits = unsigned_digits(text);
    if digits.len() > 0 && forall|i: int| 0 <= i < digits.len() ==> is_digit(#[trigger] digits[i]) {
        Some(digits_value(digits))
    } else {
        None
    }
}

fn digit_of(c: char) -> (r: Option<u64>)
    ensures
        match r {
            Some(d) => is_digit(c) && d == c as nat - '0' as nat,
            None => !is_digit(c),
        },
{
    let code: u32 = c as u32;
    if 48 <= code && code <= 57 {
        Some((code - 48) as u64)
    } else {
        None
    }
}

/// Reads an unsigned number of at most `limit`.
pub fn parse_unsigned(text: &str, limit: u64) -> (r: Option<u64>)
    ensures
        r == (match unsigned_value(text@) {
            Some(n) => if n <= limit {
                Some(n as u64)
            } else {
                None
            },
            None => None,
        }),
{
    let length: usize = text.unicode_len();
    let start: usize = if length > 0 && text.get_char(0) == '+' {
        1
    } else {
        0
    };
    let ghost digits = unsigned_digits(text@);
    assert(digits =~= text@.skip(start as int));
    if start == length {
        return None;
    }
    let mut value: u64 = 0;
    let mut beyond: bool = false;
    let mut index: usize = start;
    while index < length
        invariant
            start <= index <= length,
            length == text@.len(),
            digits == text@.skip(start as int),
            digits == unsigned_digits(text@),
            digits.len() == length - start,
            forall|i: int| 0 <= i < index - start ==> is_digit(#[trigger] digits[i]),
            value <= limit,
            !beyond ==> value == digits_value(digits.take(index - start)),
            beyond ==> digits_value(digits.take(index - start)) > limit,
        decreases length - index,
    {
        let digit: u64 = match digit_of(text.get_char(index)) {
            Some(digit) => digit,
            None => {
                assert(!is_digit(digits[index - start]));
                return None;
            },
        };
        proof {
            let upto = digits.take(index - start + 1);
            assert(upto.drop_last() =~= digits.take(index - start));
            assert(upto.last() == text@[index as int]);
        }
        if !beyond {
            match value.checked_mul(10) {
                Some(shifted) => match shifted.checked_add(digit) {
                    Some(next) => if next <= limit {
                        value = next;
                    } else {
                        beyond = true;
                    },
                    None => {
                        beyond = true;
                    },
                },
                None => {
                    beyond = true;
                },
            }
        }
        index = index + 1;
    }
    assert(digits.take(length - start) =~= digits);
    if beyond {
        None
    } else {
        Some(value)
    }
}

fn parse_count(text: &str) -> (r: Option<usize>)
    ensures
        r == (match unsigned_value(text@) {
            Some(n) => if n <= usize::MAX {
                Some(n as usize)
            } else {
                None
            },
            None => None,
        }),
{
    match parse_unsigned(text, usize::MAX as u64) {
        Some(n) => Some(n as usize),
        None => None,
    }
}

/// A setting is on unless it is `0` or `false`; an absent one has its default.
pub open spec fn switched_on(setting: Option<Seq<char>>, default: bool) -> bool {
    match setting {
        Some(text) => text != "0"@ && text != "false"@,
        None => default,
    }
}

fn read_switch(setting: &Option<String>, default: bool) -> (r: bool)
    ensures
        r == switched_on(text_of(*setting), default),
{
    match setting {
        Some(text) => !text_eq(text.as_str(), "0") && !text_eq(text.as_str(), "false"),
        None => default,
    }
}

/// Settings before any argument is read.
pub open spec fn defaults(environment: Environment) -> ArgsView {
    ArgsView {
        model: "models/LFM2.5-1.2B-Instruct"@,
        prompt: None,
        serve: None,
        calibrate_fp8: None,
        benchmark_fp8: None,
        benchmark_batched_fp8: None,
        benchmark_serving: None,
        benchmark_hardware: None,
        benchmark_load: None,
        evaluate_fp8: None,
        benchmark_output: "docs/fp8/e2e-benchmark.json"@,
        evaluation_output: "docs/fp8/quality-final-test.json"@,
        fp8_eval_corpus: None,
        calibration_output: "fp8-calibration.json"@,
        fp8_policy: text_of(environment.fp8_policy),
        profile_output: None,
        hardware_profile: None,
        benchmark_pairs: 25,
        calibration_max_sequences: 256,
        calibration_max_tokens: 1024,
        fp8_eval_sequences: 16,
        fp8_eval_max_tokens: 128,
        max_new_tokens: 64,
        device: 0,
        top_k: 50,
        decode_profile_warmup_steps: 4,
        decode_profile_steps: 128,
        speculative_draft: match environment.speculative_draft {
            Some(text) => match unsigned_value(text@) {
                Some(n) => if n <= usize::MAX {
                    n as usize
                } else {
                    3
                },
                None => 3,
            },
            None => 3,
        },
        temperature: F32 { bits: 0 },
        repetition_penalty: F32 { bits: 0x3f80_0000 },
        seed: 0x4c46_4d32,
        page_size: KvPageSize::P16,
        decode_profile: DecodeProfileMode::Off,
        disable_fp8_policy: false,
        fused_rms_fp8: switched_on(text_of(environment.fused_rms_fp8), true),
        fused_swiglu_fp8: switched_on(text_of(environment.fused_swiglu_fp8), true),
        metadata_scratch: switched_on(text_of(environment.metadata_scratch), false),
    }
}

fn initial(environment: Environment) -> (r: Args)
    ensures
        r@ == defaults(environment),
{
    let speculative_draft: usize = match &environment.speculative_draft {
        Some(text) => match parse_count(text.as_str()) {
            Some(n) => n,
            None => 3,
        },
        None => 3,
    };
    let fused_rms_fp8 = read_switch(&environment.fused_rms_fp8, true);
    let fused_swiglu_fp8 = read_switch(&environment.fused_swiglu_fp8, true);
    let metadata_scratch = read_switch(&environment.metadata_scratch, false);
    Args {
        model: "models/LFM2.5-1.2B-Instruct".to_owned(),
        prompt: None,
        serve: None,
        calibrate_fp8: None,
        benchmark_fp8: None,
        benchmark_batched_fp8: None,
        benchmark_serving: None,
        benchmark_hardware: None,
        benchmark_load: None,
        evaluate_fp8: None,
        benchmark_output: "docs/fp8/e2e-benchmark.json".to_owned(),
        evaluation_output: "docs/fp8/quality-final-test.json".to_owned(),
        fp8_eval_corpus: None,
        calibration_output: "fp8-calibration.json".to_owned(),
        fp8_policy: environment.fp8_policy,
        profile_output: None,
        hardware_profile: None,
        benchmark_pairs: 25,
        calibration_max_sequences: 256,
        calibration_max_tokens: 1024,
        fp8_eval_sequences: 16,
        fp8_eval_max_tokens: 128,
        max_new_tokens: 64,
        device: 0,
        top_k: 50,
        decode_profile_warmup_steps: 4,
        decode_profile_steps: 128,
        speculative_draft,
        temperature: F32 { bits: 0 },
        repetition_penalty: F32 { bits: 0x3f80_0000 },
        seed: 0x4c46_4d32,
        page_size: KvPageSize::P16,
        decode_profile: DecodeProfileMode::Off,
        disable_fp8_policy: false,
        fused_rms_fp8,
        fused_swiglu_fp8,
        metadata_scratch,
    }
}

impl CountOption {
    /// Whether the option takes the number.
    pub open spec fn allows(self, count: usize) -> bool {
        match self {
            CountOption::BenchmarkPairs => 20 <= count <= 30,
            CountOption::CalibrationMaxSequences => count > 0,
            CountOption::CalibrationMaxTokens => count > 0,
            CountOption::Fp8EvalSequences => count > 0,
            CountOption::Fp8EvalMaxTokens => count >= 64,
            CountOption::MaxNewTokens => true,
            CountOption::Device => true,
            CountOption::TopK => true,
            CountOption::ProfileWarmupSteps => true,
            CountOption::ProfileSteps => count > 0,
            CountOption::SpeculativeDraft => true,
        }
    }

    pub fn takes(self, count: usize) -> (r: bool)
        ensures
            r == self.allows(count),
    {
        match self {
            CountOption::BenchmarkPairs => 20 <= count && count <= 30,
            CountOption::CalibrationMaxSequences => count > 0,
            CountOption::CalibrationMaxTokens => count > 0,
            CountOption::Fp8EvalSequences => count > 0,
            CountOption::Fp8EvalMaxTokens => count >= 64,
            CountOption::MaxNewTokens => true,
            CountOption::Device => true,
            CountOption::TopK => true,
            CountOption::ProfileWarmupSteps => true,
            CountOption::ProfileSteps => count > 0,
            CountOption::SpeculativeDraft => true,
        }
    }
}

impl ArgsView {
    pub open spec fn with_text(self, option: TextOption, value: Seq<char>) -> ArgsView {
        match option {
            TextOption::Model => ArgsView { model: value, ..self },
            TextOption::Prompt => ArgsView { prompt: Some(value), ..self },
            TextOption::Serve => ArgsView { serve: Some(value), ..self },
            TextOption::CalibrateFp8 => ArgsView { calibrate_fp8: Some(value), ..self },
            TextOption::BenchmarkFp8 => ArgsView { benchmark_fp8: Some(value), ..self },
            TextOption::BenchmarkBatchedFp8 => ArgsView { benchmark_batched_fp8: Some(value), ..self },
            TextOption::BenchmarkServing => ArgsView { benchmark_serving: Some(value), ..self },
            TextOption::BenchmarkHardware => ArgsView { benchmark_hardware: Some(value), ..self },
            TextOption::BenchmarkLoad => ArgsView { benchmark_load: Some(value), ..self },
            TextOption::EvaluateFp8 => ArgsView { evaluate_fp8: Some(value), ..self },
            TextOption::BenchmarkOutput => ArgsView { benchmark_output: value, ..self },
            TextOption::EvaluationOutput => ArgsView { evaluation_output: value, ..self },
            TextOption::Fp8EvalCorpus => ArgsView { fp8_eval_corpus: Some(value), ..self },
            TextOption::CalibrationOutput => ArgsView { calibration_output: value, ..self },
            TextOption::Fp8Policy => ArgsView { fp8_policy: Some(value), ..self },
            TextOption::ProfileOutput => ArgsView { profile_output: Some(value), ..self },
            TextOption::HardwareProfile => ArgsView { hardware_profile: Some(value), ..self },
        }
    }

    pub open spec fn with_count(self, option: CountOption, value: usize) -> ArgsView {
        match option {
            CountOption::BenchmarkPairs => ArgsView { benchmark_pairs: value, ..self },
            CountOption::CalibrationMaxSequences => ArgsView { calibration_max_sequences: value, ..self },
            CountOption::CalibrationMaxTokens => ArgsView { calibration_max_tokens: value, ..self },
            CountOption::Fp8EvalSequences => ArgsView { fp8_eval_sequences: value, ..self },
            CountOption::Fp8EvalMaxTokens => ArgsView { fp8_eval_max_tokens: value, ..self },
            CountOption::MaxNewTokens => ArgsView { max_new_tokens: value, ..self },
            CountOption::Device => ArgsView { device: value, ..self },
            CountOption::TopK => ArgsView { top_k: value, ..self },
            CountOption::ProfileWarmupSteps => ArgsView { decode_profile_warmup_steps: value, ..self },
            CountOption::ProfileSteps => ArgsView { decode_profile_steps: value, ..self },
            CountOption::SpeculativeDraft => ArgsView { speculative_draft: value, ..self },
        }
    }

    pub open spec fn with_flag(self, option: FlagOption) -> ArgsView {
        match option {
            FlagOption::NoFp8Policy => ArgsView { disable_fp8_policy: true, fp8_policy: None, ..self },
            FlagOption::FusedRmsFp8 => ArgsView { fused_rms_fp8: true, ..self },
            FlagOption::NoFusedRmsFp8 => ArgsView { fused_rms_fp8: false, ..self },
            FlagOption::FusedSwigluFp8 => ArgsView { fused_swiglu_fp8: true, ..self },
            FlagOption::NoFusedSwigluFp8 => ArgsView { fused_swiglu_fp8: false, ..self },
            FlagOption::MetadataScratch => ArgsView { metadata_scratch: true, ..self },
            FlagOption::NoMetadataScratch => ArgsView { metadata_scratch: false, ..self },
        }
    }

    /// The settings after an option with a value has been read; `position` is that of the
    /// value.
    pub open spec fn with_value(self, option: CliOption, value: ArgumentView, position: int) -> Result<
        ArgsView,
        ArgsError,
    > {
        match option {
            CliOption::Text(text) => Ok(self.with_text(text, value.text)),
            CliOption::Count(count) => match unsigned_value(value.text) {
                Some(n) => if n > usize::MAX {
                    Err(ArgsError::InvalidNumber { option })
                } else if !count.allows(n as usize) {
                    Err(ArgsError::OutOfRange { count })
                } else {
                    Ok(self.with_count(count, n as usize))
                },
                None => Err(ArgsError::InvalidNumber { option }),
            },
            CliOption::Single(single) => match value.single {
                Some(number) => Ok(
                    match single {
                        SingleOption::Temperature => ArgsView { temperature: number, ..self },
                        SingleOption::RepetitionPenalty => ArgsView {
                            repetition_penalty: number,
                            ..self
                        },
                    },
                ),
                None => Err(ArgsError::InvalidNumber { option }),
            },
            CliOption::Seed => match unsigned_value(value.text) {
                Some(n) => if n > u64::MAX {
                    Err(ArgsError::InvalidNumber { option })
                } else {
                    Ok(ArgsView { seed: n as u64, ..self })
                },
                None => Err(ArgsError::InvalidNumber { option }),
            },
            CliOption::PageSize => if value.text == "16"@ {
                Ok(ArgsView { page_size: KvPageSize::P16, ..self })
            } else if value.text == "32"@ {
                Ok(ArgsView { page_size: KvPageSize::P32, ..self })
            } else {
                Err(ArgsError::NotAChoice { option, position: position as usize })
            },
            CliOption::ProfileDecode => if value.text == "coarse"@ {
                Ok(ArgsView { decode_profile: DecodeProfileMode::Coarse, ..self })
            } else if value.text == "detailed"@ {
                Ok(ArgsView { decode_profile: DecodeProfileMode::Detailed, ..self })
            } else {
                Err(ArgsError::NotAChoice { option, position: position as usize })
            },
            CliOption::Flag(_) => Ok(self),
            CliOption::Help => Ok(self),
        }
    }

    pub open spec fn sampling(self) -> SamplingConfig {
        SamplingConfig {
            temperature: self.temperature,
            top_k: self.top_k,
            repetition_penalty: self.repetition_penalty,
            seed: self.seed,
        }
    }

    /// How many run modes are asked for.
    pub open spec fn mode_count(self) -> int {
        present(self.prompt)
            + present(self.serve)
            + present(self.calibrate_fp8)
            + present(self.benchmark_fp8)
            + present(self.benchmark_batched_fp8)
            + present(self.benchmark_serving)
            + present(self.benchmark_hardware)
            + present(self.benchmark_load)
            + present(self.evaluate_fp8)
    }

    /// The first rule that the settings break.
    pub open spec fn broken_rule(self) -> Option<ArgsError> {
        if self.mode_count() != 1 {
            Some(ArgsError::ModeCount)
        } else if self.calibrate_fp8 is Some && self.fp8_eval_corpus is None {
            Some(ArgsError::CalibrationNeedsCorpus)
        } else if self.calibrate_fp8 is Some && self.fp8_policy is Some {
            Some(ArgsError::CalibrationWithPolicy)
        } else if self.benchmark_fp8 is Some && self.fp8_policy is Some {
            Some(ArgsError::BenchmarkWithPolicy)
        } else if self.benchmark_batched_fp8 is Some && self.fp8_policy is Some {
            Some(ArgsError::BatchedBenchmarkWithPolicy)
        } else if self.evaluate_fp8 is Some && self.fp8_eval_corpus is None {
            Some(ArgsError::EvaluationNeedsCorpus)
        } else if self.evaluate_fp8 is Some && self.fp8_policy is Some {
            Some(ArgsError::EvaluationWithPolicy)
        } else {
            match self.sampling().defect() {
                Some(error) => Some(ArgsError::Sampling { error }),
                None => None,
            }
        }
    }

    /// The settings with the checked-in policy filled in where it applies: to a server that
    /// names no policy and does not ask for bf16. Prompts run in bf16 unless they name one.
    pub open spec fn with_default_policy(self, default_policy_exists: bool) -> ArgsView {
        if default_policy_exists && !self.disable_fp8_policy && self.fp8_policy is None
            && self.serve is Some {
            ArgsView { fp8_policy: Some(DEFAULT_POLICY@), ..self }
        } else {
            self
        }
    }

    /// Every count is one that its option takes.
    pub open spec fn counts_are_allowed(self) -> bool {
        &&& 20 <= self.benchmark_pairs <= 30
        &&& self.calibration_max_sequences > 0
        &&& self.calibration_max_tokens > 0
        &&& self.fp8_eval_sequences > 0
        &&& self.fp8_eval_max_tokens >= 64
        &&& self.decode_profile_steps > 0
    }

    /// The outcome once every argument has been read.
    pub open spec fn checked(self, default_policy_exists: bool) -> Result<Option<ArgsView>, ArgsError> {
        match self.broken_rule() {
            Some(e) => Err(e),
            None => Ok(Some(self.with_default_policy(default_policy_exists))),
        }
    }
}

pub open spec fn present(setting: Option<Seq<char>>) -> int {
    if setting is Some {
        1
    } else {
        0
    }
}

/// The policy that servers use when it is checked in.
pub const DEFAULT_POLICY: &'static str = "docs/benchmarks/fp8/selected-policy.json";

/// Reads the arguments from `index` on. The outcome is the settings, or nothing if help
/// was asked for.
pub open spec fn read_arguments(
    args: Seq<ArgumentView>,
    index: int,
    settings: ArgsView,
    default_policy_exists: bool,
) -> Result<Option<ArgsView>, ArgsError>
    decreases args.len() - index,
{
    if index >= args.len() || index < 0 {
        settings.checked(default_policy_exists)
    } else {
        match option_named(args[index].text) {
            None => Err(ArgsError::UnknownArgument { position: index as usize }),
            Some(CliOption::Help) => Ok(None),
            Some(CliOption::Flag(flag)) => read_arguments(
                args,
                index + 1,
                settings.with_flag(flag),
                default_policy_exists,
            ),
            Some(option) => if index + 1 >= args.len() {
                Err(ArgsError::MissingValue { option })
            } else {
                match settings.with_value(option, args[index + 1], index + 1) {
                    Err(e) => Err(e),
                    Ok(next) => read_arguments(args, index + 2, next, default_policy_exists),
                }
            },
        }
    }
}

/// The value that follows an option.
pub fn next_value(args: &Vec<Argument>, index: usize, option: CliOption) -> (r: Result<
    &Argument,
    ArgsError,
>)
    ensures
        match r {
            Ok(value) => index < args@.len() && *value == args@[index as int],
            Err(e) => index >= args@.len() && e == (ArgsError::MissingValue { option }),
        },
{
    if index < args.len() {
        Ok(&args[index])
    } else {
        Err(ArgsError::MissingValue { option })
    }
}

impl Args {
    fn set_text(&mut self, option: TextOption, value: String)
        ensures
            final(self)@ == old(self)@.with_text(option, value@),
    {
        match option {
            TextOption::Model => {
                self.model = value;
            },
            TextOption::Prompt => {
                self.prompt = Some(value);
            },
            TextOption::Serve => {
                self.serve = Some(value);
            },
            TextOption::CalibrateFp8 => {
                self.calibrate_fp8 = Some(value);
            },
            TextOption::BenchmarkFp8 => {
                self.benchmark_fp8 = Some(value);
            },
            TextOption::BenchmarkBatchedFp8 => {
                self.benchmark_batched_fp8 = Some(value);
            },
            TextOption::BenchmarkServing => {
                self.benchmark_serving = Some(value);
            },
            TextOption::BenchmarkHardware => {
                self.benchmark_hardware = Some(value);
            },
            TextOption::BenchmarkLoad => {
                self.benchmark_load = Some(value);
            },
            TextOption::EvaluateFp8 => {
                self.evaluate_fp8 = Some(value);
            },
            TextOption::BenchmarkOutput => {
                self.benchmark_output = value;
            },
            TextOption::EvaluationOutput => {
                self.evaluation_output = value;
            },
            TextOption::Fp8EvalCorpus => {
                self.fp8_eval_corpus = Some(value);
            },
            TextOption::CalibrationOutput => {
                self.calibration_output = value;
            },
            TextOption::Fp8Policy => {
                self.fp8_policy = Some(value);
            },
            TextOption::ProfileOutput => {
                self.profile_output = Some(value);
            },
            TextOption::HardwareProfile => {
                self.hardware_profile = Some(value);
            },
        }
    }

    fn set_count(&mut self, option: CountOption, value: usize)
        ensures
            final(self)@ == old(self)@.with_count(option, value),
    {
        match option {
            CountOption::BenchmarkPairs => {
                self.benchmark_pairs = value;
            },
            CountOption::CalibrationMaxSequences => {
                self.calibration_max_sequences = value;
            },
            CountOption::CalibrationMaxTokens => {
                self.calibration_max_tokens = value;
            },
            CountOption::Fp8EvalSequences => {
                self.fp8_eval_sequences = value;
            },
            CountOption::Fp8EvalMaxTokens => {
                self.fp8_eval_max_tokens = value;
            },
            CountOption::MaxNewTokens => {
                self.max_new_tokens = value;
            },
            CountOption::Device => {
                self.device = value;
            },
            CountOption::TopK => {
                self.top_k = value;
            },
            CountOption::ProfileWarmupSteps => {
                self.decode_profile_warmup_steps = value;
            },
            CountOption::ProfileSteps => {
                self.decode_profile_steps = value;
            },
            CountOption::SpeculativeDraft => {
                self.speculative_draft = value;
            },
        }
    }

    fn set_flag(&mut self, option: FlagOption)
        ensures
            final(self)@ == old(self)@.with_flag(option),
    {
        match option {
            FlagOption::NoFp8Policy => {
                self.disable_fp8_policy = true;
                self.fp8_policy = None;
            },
            FlagOption::FusedRmsFp8 => {
                self.fused_rms_fp8 = true;
            },
            FlagOption::NoFusedRmsFp8 => {
                self.fused_rms_fp8 = false;
            },
            FlagOption::FusedSwigluFp8 => {
                self.fused_swiglu_fp8 = true;
            },
            FlagOption::NoFusedSwigluFp8 => {
                self.fused_swiglu_fp8 = false;
            },
            FlagOption::MetadataScratch => {
                self.metadata_scratch = true;
            },
            FlagOption::NoMetadataScratch => {
                self.metadata_scratch = false;
            },
        }
    }

    fn set_value(&mut self, option: CliOption, value: &Argument, position: usize) -> (r: Result<
        (),
        ArgsError,
    >)
        ensures
            match r {
                Ok(()) => old(self)@.with_value(option, value@, position as int) == Ok::<
                    ArgsView,
                    ArgsError,
                >(final(self)@),
                Err(e) => old(self)@.with_value(option, value@, position as int) == Err::<
                    ArgsView,
                    ArgsError,
                >(e),
            },
    {
        match option {
            CliOption::Text(text) => {
                self.set_text(text, value.text.clone());
            },
            CliOption::Count(count) => {
                match parse_count(value.text.as_str()) {
                    Some(n) => {
                        if !count.takes(n) {
                            return Err(ArgsError::OutOfRange { count });
                        }
                        self.set_count(count, n);
                    },
                    None => {
                        return Err(ArgsError::InvalidNumber { option });
                    },
                }
            },
            CliOption::Single(single) => {
                match value.single {
                    Some(number) => match single {
                        SingleOption::Temperature => {
                            self.temperature = number;
                        },
                        SingleOption::RepetitionPenalty => {
                            self.repetition_penalty = number;
                        },
                    },
                    None => {
                        return Err(ArgsError::InvalidNumber { option });
                    },
                }
            },
            CliOption::Seed => {
                match parse_unsigned(value.text.as_str(), u64::MAX) {
                    Some(n) => {
                        self.seed = n;
                    },
                    None => {
                        return Err(ArgsError::InvalidNumber { option });
                    },
                }
            },
            CliOption::PageSize => {
                if text_eq(value.text.as_str(), "16") {
                    self.page_size = KvPageSize::P16;
                } else if text_eq(value.text.as_str(), "32") {
                    self.page_size = KvPageSize::P32;
                } else {
                    return Err(ArgsError::NotAChoice { option, position });
                }
            },
            CliOption::ProfileDecode => {
                if text_eq(value.text.as_str(), "coarse") {
                    self.decode_profile = DecodeProfileMode::Coarse;
                } else if text_eq(value.text.as_str(), "detailed") {
                    self.decode_profile = DecodeProfileMode::Detailed;
                } else {
                    return Err(ArgsError::NotAChoice { option, position });
                }
            },
            CliOption::Flag(_) => {},
            CliOption::Help => {},
        }
        Ok(())
    }

    fn mode_total(&self) -> (r: usize)
        ensures
            r == self@.mode_count(),
    {
        let mut total: usize = 0;
        if self.prompt.is_some() {
            total = total + 1;
        }
        if self.serve.is_some() {
            total = total + 1;
        }
        if self.calibrate_fp8.is_some() {
            total = total + 1;
        }
        if self.benchmark_fp8.is_some() {
            total = total + 1;
        }
        if self.benchmark_batched_fp8.is_some() {
            total = total + 1;
        }
        if self.benchmark_serving.is_some() {
            total = total + 1;
        }
        if self.benchmark_hardware.is_some() {
            total = total + 1;
        }
        if self.benchmark_load.is_some() {
            total = total + 1;
        }
        if self.evaluate_fp8.is_some() {
            total = total + 1;
        }
        total
    }

    /// How tokens are sampled.
    pub fn sampling(&self) -> (r: SamplingConfig)
        ensures
            r == self@.sampling(),
    {
        SamplingConfig {
            temperature: self.temperature,
            top_k: self.top_k,
            repetition_penalty: self.repetition_penalty,
            seed: self.seed,
        }
    }

    fn check(&mut self, default_policy_exists: bool) -> (r: Result<(), ArgsError>)
        ensures
            match r {
                Ok(()) => old(self)@.broken_rule() is None && final(self)@ == old(
                    self,
                )@.with_default_policy(default_policy_exists),
                Err(e) => old(self)@.broken_rule() == Some(e),
            },
    {
        if self.mode_total() != 1 {
            return Err(ArgsError::ModeCount);
        }
        if self.calibrate_fp8.is_some() && self.fp8_eval_corpus.is_none() {
            return Err(ArgsError::CalibrationNeedsCorpus);
        }
        if self.calibrate_fp8.is_some() && self.fp8_policy.is_some() {
            return Err(ArgsError::CalibrationWithPolicy);
        }
        if self.benchmark_fp8.is_some() && self.fp8_policy.is_some() {
            return Err(ArgsError::BenchmarkWithPolicy);
        }
        if self.benchmark_batched_fp8.is_some() && self.fp8_policy.is_some() {
            return Err(ArgsError::BatchedBenchmarkWithPolicy);
        }
        if self.evaluate_fp8.is_some() && self.fp8_eval_corpus.is_none() {
            return Err(ArgsError::EvaluationNeedsCorpus);
        }
        if self.evaluate_fp8.is_some() && self.fp8_policy.is_some() {
            return Err(ArgsError::EvaluationWithPolicy);
        }
        if default_policy_exists && !self.disable_fp8_policy && self.fp8_policy.is_none()
            && self.serve.is_some() {
            self.fp8_policy = Some(DEFAULT_POLICY.to_owned());
        }
        match self.sampling().validate() {
            Ok(_) => Ok(()),
            Err(error) => Err(ArgsError::Sampling { error }),
        }
    }

    /// Reads all arguments behind the program's name. The outcome is the settings, or
    /// nothing if help was asked for.
    pub fn parse(environment: Environment, args: &Vec<Argument>, default_policy_exists: bool) -> (r: Result<
        Option<Args>,
        ArgsError,
    >)
        ensures
            ({
                let outcome = read_arguments(
                    argument_views(args@),
                    0,
                    defaults(environment),
                    default_policy_exists,
                );
                match r {
                    Ok(Some(settings)) => outcome == Ok::<Option<ArgsView>, ArgsError>(
                        Some(settings@),
                    ),
                    Ok(None) => outcome == Ok::<Option<ArgsView>, ArgsError>(None),
                    Err(e) => outcome == Err::<Option<ArgsView>, ArgsError>(e),
                }
            }),
    {
        let ghost views = argument_views(args@);
        let ghost start = defaults(environment);
        let mut settings = initial(environment);
        let mut index: usize = 0;
        while index < args.len()
            invariant
                index <= args@.len(),
                views == argument_views(args@),
                start == defaults(environment),
                read_arguments(views, 0, start, default_policy_exists) == read_arguments(
                    views,
                    index as int,
                    settings@,
                    default_policy_exists,
                ),
            decreases args@.len() - index,
        {
            assert(views[index as int] == args@[index as int]@);
            match find_option(args[index].text.as_str()) {
                None => {
                    return Err(ArgsError::UnknownArgument { position: index });
                },
                Some(CliOption::Help) => {
                    return Ok(None);
                },
                Some(CliOption::Flag(flag)) => {
                    settings.set_flag(flag);
                    index = index + 1;
                },
                Some(option) => {
                    let value = match next_value(args, index + 1, option) {
                        Ok(value) => value,
                        Err(e) => {
                            return Err(e);
                        },
                    };
                    assert(views[index + 1] == value@);
                    match settings.set_value(option, value, index + 1) {
                        Ok(()) => {},
                        Err(e) => {
                            return Err(e);
                        },
                    }
                    index = index + 2;
                },
            }
        }
        match settings.check(default_policy_exists) {
            Ok(()) => Ok(Some(settings)),
            Err(e) => Err(e),
        }
    }
}

/// What the program runs.
#[derive(Clone, Copy, Debug, PartialEq, Eq, Structural)]
pub enum RunMode {
    BenchmarkFp8,
    BenchmarkBatchedFp8,
    BenchmarkServing,
    BenchmarkHardware,
    BenchmarkLoad,
    EvaluateFp8,
    CalibrateFp8,
    Serve,
    Prompt,
}

/// The run mode needs a hardware profile that was not named.
#[derive(Clone, Copy, Debug, PartialEq, Eq, Structural)]
pub struct MissingHardwareProfile {
    pub mode: RunMode,
}

impl ArgsView {
    /// The mode that the settings ask for.
    pub open spec fn mode(self) -> RunMode {
        if self.benchmark_fp8 is Some {
            RunMode::BenchmarkFp8
        } else if self.benchmark_batched_fp8 is Some {
            RunMode::BenchmarkBatchedFp8
        } else if self.benchmark_serving is Some {
            RunMode::BenchmarkServing
        } else if self.benchmark_hardware is Some {
            RunMode::BenchmarkHardware
        } else if self.benchmark_load is Some {
            RunMode::BenchmarkLoad
        } else if self.evaluate_fp8 is Some {
            RunMode::EvaluateFp8
        } else if self.calibrate_fp8 is Some {
            RunMode::CalibrateFp8
        } else if self.serve is Some {
            RunMode::Serve
        } else {
            RunMode::Prompt
        }
    }
}

impl Args {
    /// The mode to run, which for load benchmarks and servers needs a hardware profile.
    pub fn run_mode(&self) -> (r: Result<RunMode, MissingHardwareProfile>)
        ensures
            ({
                let mode = self@.mode();
                let needs_profile = mode == RunMode::BenchmarkLoad || mode == RunMode::Serve;
                r == (if needs_profile && self@.hardware_profile is None {
                    Err::<RunMode, MissingHardwareProfile>(MissingHardwareProfile { mode })
                } else {
                    Ok::<RunMode, MissingHardwareProfile>(mode)
                })
            }),
    {
        let mode = if self.benchmark_fp8.is_some() {
            RunMode::BenchmarkFp8
        } else if self.benchmark_batched_fp8.is_some() {
            RunMode::BenchmarkBatchedFp8
        } else if self.benchmark_serving.is_some() {
            RunMode::BenchmarkServing
        } else if self.benchmark_hardware.is_some() {
            RunMode::BenchmarkHardware
        } else if self.benchmark_load.is_some() {
            RunMode::BenchmarkLoad
        } else if self.evaluate_fp8.is_some() {
            RunMode::EvaluateFp8
        } else if self.calibrate_fp8.is_some() {
            RunMode::CalibrateFp8
        } else if self.serve.is_some() {
            RunMode::Serve
        } else {
            RunMode::Prompt
        };
        if (mode == RunMode::BenchmarkLoad || mode == RunMode::Serve)
            && self.hardware_profile.is_none() {
            return Err(MissingHardwareProfile { mode });
        }
        Ok(mode)
    }
}

/// The help text.
pub const USAGE: &'static str = "Usage:\n  llm-inference --prompt TEXT [OPTIONS]\n  llm-inference --serve ADDRESS --hardware-profile PATH [OPTIONS]\n  llm-inference --calibrate-fp8 CORPUS --fp8-eval-corpus CORPUS [OPTIONS]\n  llm-inference --evaluate-fp8 POLICY --fp8-eval-corpus CORPUS [OPTIONS]\n  llm-inference --benchmark-fp8 POLICY [OPTIONS]\n  llm-inference --benchmark-batched-fp8 POLICY [OPTIONS]\n  llm-inference --benchmark-serving OUTPUT.json [OPTIONS]\n  llm-inference --benchmark-hardware OUTPUT.json [OPTIONS]\n  llm-inference --benchmark-load OUTPUT.json --hardware-profile PATH [OPTIONS]\n\nOptions:\n  --model PATH\n  --max-new-tokens N\n  --speculative-draft N\n  --fused-rms-fp8\n  --no-fused-rms-fp8\n  --fused-swiglu-fp8\n  --no-fused-swiglu-fp8\n  --metadata-scratch\n  --no-metadata-scratch\n  --device N\n  --page-size 16|32\n  --hardware-profile PATH\n  --fp8-policy PATH\n  --no-fp8-policy / --bf16\n  --benchmark-output PATH\n  --benchmark-pairs 20..30\n  --evaluation-output PATH\n  --profile-decode coarse|detailed\n  --profile-warmup-steps N\n  --profile-steps N\n  --profile-output PATH\n  --temperature FLOAT\n  --top-k N\n  --repetition-penalty FLOAT\n  --seed N\n  --calibration-output PATH\n  --calibration-max-sequences N\n  --calibration-max-tokens N\n  --fp8-eval-corpus PATH\n  --fp8-eval-sequences N\n  --fp8-eval-max-tokens N";

pub fn usage() -> (r: &'static str)
    ensures
        r@ == USAGE@,
{
    USAGE
}

impl ArgsError {
    /// What the user is told.
    pub open spec fn text(self, args: Seq<ArgumentView>) -> Seq<char> {
        match self {
            ArgsError::MissingValue { option } => option.spelling() + " requires a value"@,
            ArgsError::InvalidNumber { option } => "invalid "@ + option.spelling(),
            ArgsError::OutOfRange { count } => CliOption::Count(count).spelling() + (match count {
                CountOption::BenchmarkPairs => " must be in [20, 30]"@,
                CountOption::Fp8EvalMaxTokens => " must be at least 64"@,
                _ => " must be positive"@,
            }),
            ArgsError::NotAChoice { option, position } => option.spelling() + (
            if option == CliOption::PageSize {
                " must be 16 or 32, got "@
            } else {
                " must be coarse or detailed, got "@
            }) + args[position as int].text,
            ArgsError::UnknownArgument { position } => "unknown argument "@
                + args[position as int].text + "\n\n"@ + USAGE@,
            ArgsError::ModeCount => "specify exactly one run mode, including --benchmark-serving\n\n"@
                + USAGE@,
            ArgsError::CalibrationNeedsCorpus => "--calibrate-fp8 requires a disjoint --fp8-eval-corpus"@,
            ArgsError::CalibrationWithPolicy => "calibration must use the BF16 reference path without --fp8-policy"@,
            ArgsError::BenchmarkWithPolicy => "--benchmark-fp8 already specifies the policy; do not also use --fp8-policy"@,
            ArgsError::BatchedBenchmarkWithPolicy => "--benchmark-batched-fp8 already specifies the policy; do not also use --fp8-policy"@,
            ArgsError::EvaluationNeedsCorpus => "--evaluate-fp8 requires --fp8-eval-corpus"@,
            ArgsError::EvaluationWithPolicy => "--evaluate-fp8 already specifies the policy; do not also use --fp8-policy"@,
            ArgsError::Sampling { error } => error.text(),
        }
    }

    /// The argument that the message quotes exists.
    pub open spec fn positioned(self, args: int) -> bool {
        match self {
            ArgsError::NotAChoice { position, .. } => position < args,
            ArgsError::UnknownArgument { position } => position < args,
            _ => true,
        }
    }

    /// The message for the user, on the arguments that the error came from.
    pub fn message(self, args: &Vec<Argument>) -> (r: String)
        requires
            self.positioned(args@.len() as int),
        ensures
            r@ == self.text(argument_views(args@)),
    {
        match self {
            ArgsError::MissingValue { option } => {
                option.name().to_owned().concat(" requires a value")
            },
            ArgsError::InvalidNumber { option } => "invalid ".to_owned().concat(option.name()),
            ArgsError::OutOfRange { count } => {
                let name = CliOption::Count(count).name().to_owned();
                match count {
                    CountOption::BenchmarkPairs => name.concat(" must be in [20, 30]"),
                    CountOption::Fp8EvalMaxTokens => name.concat(" must be at least 64"),
                    _ => name.concat(" must be positive"),
                }
            },
            ArgsError::NotAChoice { option, position } => {
                let name = option.name().to_owned();
                let stem = if option == CliOption::PageSize {
                    name.concat(" must be 16 or 32, got ")
                } else {
                    name.concat(" must be coarse or detailed, got ")
                };
                stem.concat(args[position].text.as_str())
            },
            ArgsError::UnknownArgument { position } => {
                let stem = "unknown argument ".to_owned().concat(args[position].text.as_str());
                stem.concat("\n\n").concat(USAGE)
            },
            ArgsError::ModeCount => {
                "specify exactly one run mode, including --benchmark-serving\n\n".to_owned().concat(
                    USAGE,
                )
            },
            ArgsError::CalibrationNeedsCorpus => {
                "--calibrate-fp8 requires a disjoint --fp8-eval-corpus".to_owned()
            },
            ArgsError::CalibrationWithPolicy => {
                "calibration must use the BF16 reference path without --fp8-policy".to_owned()
            },
            ArgsError::BenchmarkWithPolicy => {
                "--benchmark-fp8 already specifies the policy; do not also use --fp8-policy".to_owned()
            },
            ArgsError::BatchedBenchmarkWithPolicy => {
                "--benchmark-batched-fp8 already specifies the policy; do not also use --fp8-policy".to_owned()
            },
            ArgsError::EvaluationNeedsCorpus => {
                "--evaluate-fp8 requires --fp8-eval-corpus".to_owned()
            },
            ArgsError::EvaluationWithPolicy => {
                "--evaluate-fp8 already specifies the policy; do not also use --fp8-policy".to_owned()
            },
            ArgsError::Sampling { error } => error.message(),
        }
    }
}

/// Every error that reading produces quotes an argument that exists.
pub proof fn errors_quote_real_arguments(
    args: Seq<ArgumentView>,
    index: int,
    settings: ArgsView,
    default_policy_exists: bool,
)
    requires
        0 <= index,
        args.len() <= usize::MAX,
    ensures
        read_arguments(args, index, settings, default_policy_exists) matches Err(e)
            ==> e.positioned(args.len() as int),
    decreases args.len() - index,
{
    if index < args.len() {
        match option_named(args[index].text) {
            Some(CliOption::Flag(flag)) => {
                errors_quote_real_arguments(
                    args,
                    index + 1,
                    settings.with_flag(flag),
                    default_policy_exists,
                );
            },
            Some(option) => {
                if option != CliOption::Help && index + 1 < args.len() {
                    if let Ok(next) = settings.with_value(option, args[index + 1], index + 1) {
                        errors_quote_real_arguments(args, index + 2, next, default_policy_exists);
                    }
                }
            },
            None => {},
        }
    }
}

/// Accepted settings ask for exactly one run mode, sample with a usable configuration, keep
/// every count in its range, and never combine a policy with a mode that brings its own or
/// must run without one.
pub proof fn accepted_settings_obey_the_rules(
    args: Seq<ArgumentView>,
    index: int,
    settings: ArgsView,
    default_policy_exists: bool,
)
    ensures
        read_arguments(args, index, settings, default_policy_exists) matches Ok(Some(accepted)) ==> {
            &&& accepted.mode_count() == 1
            &&& accepted.sampling().defect() is None
            &&& accepted.fp8_policy is Some ==> accepted.calibrate_fp8 is None
                && accepted.benchmark_fp8 is None && accepted.benchmark_batched_fp8 is None
                && accepted.evaluate_fp8 is None
            &&& accepted.calibrate_fp8 is Some || accepted.evaluate_fp8 is Some
                ==> accepted.fp8_eval_corpus is Some
            &&& settings.counts_are_allowed() ==> accepted.counts_are_allowed()
        },
    decreases args.len() - index,
{
    if 0 <= index < args.len() {
        match option_named(args[index].text) {
            Some(CliOption::Flag(flag)) => {
                accepted_settings_obey_the_rules(
                    args,
                    index + 1,
                    settings.with_flag(flag),
                    default_policy_exists,
                );
            },
            Some(option) => {
                if option != CliOption::Help && index + 1 < args.len() {
                    if let Ok(next) = settings.with_value(option, args[index + 1], index + 1) {
                        accepted_settings_obey_the_rules(
                            args,
                            index + 2,
                            next,
                            default_policy_exists,
                        );
                    }
                }
            },
            None => {},
        }
    }
}

/// Whatever the arguments and the environment are, accepted counts are in their ranges.
pub proof fn accepted_counts_are_allowed(
    environment: Environment,
    args: Seq<ArgumentView>,
    default_policy_exists: bool,
)
    ensures
        read_arguments(args, 0, defaults(environment), default_policy_exists) matches Ok(
            Some(accepted),
        ) ==> accepted.counts_are_allowed(),
{
    accepted_settings_obey_the_rules(args, 0, defaults(environment), default_policy_exists);
}

/// Only servers detect the checked-in policy: any other mode runs with the policy that it
/// names, and in bf16 if it names none, whether or not that policy is there.
pub proof fn only_servers_detect_the_policy(
    args: Seq<ArgumentView>,
    index: int,
    settings: ArgsView,
)
    ensures
        read_arguments(args, index, settings, true) matches Ok(Some(accepted)) ==> {
            accepted.serve is None ==> read_arguments(args, index, settings, false)
                == read_arguments(args, index, settings, true)
        },
    decreases args.len() - index,
{
    if 0 <= index < args.len() {
        match option_named(args[index].text) {
            Some(CliOption::Flag(flag)) => {
                only_servers_detect_the_policy(args, index + 1, settings.with_flag(flag));
            },
            Some(option) => {
                if option != CliOption::Help && index + 1 < args.len() {
                    if let Ok(next) = settings.with_value(option, args[index + 1], index + 1) {
                        only_servers_detect_the_policy(args, index + 2, next);
                    }
                }
            },
            None => {},
        }
    }
}

/// A later occurrence of an option overrides an earlier one.
pub proof fn later_text_overrides_earlier(settings: ArgsView, option: TextOption, a: Seq<char>, b: Seq<char>)
    ensures
        settings.with_text(option, a).with_text(option, b) == settings.with_text(option, b),
{
}

} // verus!
