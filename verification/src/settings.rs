//! What each argument does to the settings, and what becomes of them.
use vstd::prelude::*;

use crate::args::{
    argument_views, next_value, parse_unsigned, read_arguments, Args, ArgsError, ArgsView, Argument,
    ArgumentView, CliOption, CountOption, Environment, FlagOption, MissingHardwareProfile, RunMode,
    SingleOption, TextOption,
};
use crate::cache::KvPageSize;
use crate::generation::sampler::{SamplingConfig, SamplingError};
use crate::model::profile::DecodeProfileMode;

verus! {

/// A number that tells the names of options apart.
spec fn mark(text: Seq<char>) -> int {
    if text.len() < 3 {
        text.len() as int
    } else {
        text.len() + 100 * (text[2] as int) + 100_000 * (text.last() as int)
    }
}

proof fn lemma_marks_a()
    ensures
        mark("--model"@) == 10810907,
        mark("--prompt"@) == 11611208,
        mark("--serve"@) == 10111507,
        mark("--calibrate-fp8"@) == 5609915,
        mark("--benchmark-fp8"@) == 5609815,
        mark("--benchmark-batched-fp8"@) == 5609823,
        mark("--benchmark-serving"@) == 10309819,
        mark("--benchmark-hardware"@) == 10109820,
        mark("--benchmark-load"@) == 10009816,
        mark("--evaluate-fp8"@) == 5610114,
        mark("--benchmark-output"@) == 11609818,
{
    reveal_strlit("--model");
    reveal_strlit("--prompt");
    reveal_strlit("--serve");
    reveal_strlit("--calibrate-fp8");
    reveal_strlit("--benchmark-fp8");
    reveal_strlit("--benchmark-batched-fp8");
    reveal_strlit("--benchmark-serving");
    reveal_strlit("--benchmark-hardware");
    reveal_strlit("--benchmark-load");
    reveal_strlit("--evaluate-fp8");
    reveal_strlit("--benchmark-output");
}

proof fn lemma_marks_b()
    ensures
        mark("--evaluation-output"@) == 11610119,
        mark("--fp8-eval-corpus"@) == 11510217,
        mark("--calibration-output"@) == 11609920,
        mark("--fp8-policy"@) == 12110212,
        mark("--profile-output"@) == 11611216,
        mark("--hardware-profile"@) == 10110418,
        mark("--benchmark-pairs"@) == 11509817,
        mark("--calibration-max-sequences"@) == 11509927,
        mark("--calibration-max-tokens"@) == 11509924,
        mark("--fp8-eval-sequences"@) == 11510220,
        mark("--fp8-eval-max-tokens"@) == 11510221,
{
    reveal_strlit("--evaluation-output");
    reveal_strlit("--fp8-eval-corpus");
    reveal_strlit("--calibration-output");
    reveal_strlit("--fp8-policy");
    reveal_strlit("--profile-output");
    reveal_strlit("--hardware-profile");
    reveal_strlit("--benchmark-pairs");
    reveal_strlit("--calibration-max-sequences");
    reveal_strlit("--calibration-max-tokens");
    reveal_strlit("--fp8-eval-sequences");
    reveal_strlit("--fp8-eval-max-tokens");
}

proof fn lemma_marks_c()
    ensures
        mark("--max-new-tokens"@) == 11510916,
        mark("--device"@) == 10110008,
        mark("--top-k"@) == 10711607,
        mark("--profile-warmup-steps"@) == 11511222,
        mark("--profile-steps"@) == 11511215,
        mark("--speculative-draft"@) == 11611519,
        mark("--temperature"@) == 10111613,
        mark("--repetition-penalty"@) == 12111420,
        mark("--seed"@) == 10011506,
        mark("--page-size"@) == 10111211,
        mark("--profile-decode"@) == 10111216,
{
    reveal_strlit("--max-new-tokens");
    reveal_strlit("--device");
    reveal_strlit("--top-k");
    reveal_strlit("--profile-warmup-steps");
    reveal_strlit("--profile-steps");
    reveal_strlit("--speculative-draft");
    reveal_strlit("--temperature");
    reveal_strlit("--repetition-penalty");
    reveal_strlit("--seed");
    reveal_strlit("--page-size");
    reveal_strlit("--profile-decode");
}

proof fn lemma_marks_d()
    ensures
        mark("--no-fp8-policy"@) == 12111015,
        mark("--bf16"@) == 5409806,
        mark("--fused-rms-fp8"@) == 5610215,
        mark("--no-fused-rms-fp8"@) == 5611018,
        mark("--fused-swiglu-fp8"@) == 5610218,
        mark("--no-fused-swiglu-fp8"@) == 5611021,
        mark("--metadata-scratch"@) == 10410918,
        mark("--no-metadata-scratch"@) == 10411021,
        mark("-h"@) == 2,
        mark("--help"@) == 11210406,
{
    reveal_strlit("--no-fp8-policy");
    reveal_strlit("--bf16");
    reveal_strlit("--fused-rms-fp8");
    reveal_strlit("--no-fused-rms-fp8");
    reveal_strlit("--fused-swiglu-fp8");
    reveal_strlit("--no-fused-swiglu-fp8");
    reveal_strlit("--metadata-scratch");
    reveal_strlit("--no-metadata-scratch");
    reveal_strlit("-h");
    reveal_strlit("--help");
}

proof fn lemma_marks()
    ensures
        mark("--model"@) == 10810907,
        mark("--prompt"@) == 11611208,
        mark("--serve"@) == 10111507,
        mark("--calibrate-fp8"@) == 5609915,
        mark("--benchmark-fp8"@) == 5609815,
        mark("--benchmark-batched-fp8"@) == 5609823,
        mark("--benchmark-serving"@) == 10309819,
        mark("--benchmark-hardware"@) == 10109820,
        mark("--benchmark-load"@) == 10009816,
        mark("--evaluate-fp8"@) == 5610114,
        mark("--benchmark-output"@) == 11609818,
        mark("--evaluation-output"@) == 11610119,
        mark("--fp8-eval-corpus"@) == 11510217,
        mark("--calibration-output"@) == 11609920,
        mark("--fp8-policy"@) == 12110212,
        mark("--profile-output"@) == 11611216,
        mark("--hardware-profile"@) == 10110418,
        mark("--benchmark-pairs"@) == 11509817,
        mark("--calibration-max-sequences"@) == 11509927,
        mark("--calibration-max-tokens"@) == 11509924,
        mark("--fp8-eval-sequences"@) == 11510220,
        mark("--fp8-eval-max-tokens"@) == 11510221,
        mark("--max-new-tokens"@) == 11510916,
        mark("--device"@) == 10110008,
        mark("--top-k"@) == 10711607,
        mark("--profile-warmup-steps"@) == 11511222,
        mark("--profile-steps"@) == 11511215,
        mark("--speculative-draft"@) == 11611519,
        mark("--temperature"@) == 10111613,
        mark("--repetition-penalty"@) == 12111420,
        mark("--seed"@) == 10011506,
        mark("--page-size"@) == 10111211,
        mark("--profile-decode"@) == 10111216,
        mark("--no-fp8-policy"@) == 12111015,
        mark("--bf16"@) == 5409806,
        mark("--fused-rms-fp8"@) == 5610215,
        mark("--no-fused-rms-fp8"@) == 5611018,
        mark("--fused-swiglu-fp8"@) == 5610218,
        mark("--no-fused-swiglu-fp8"@) == 5611021,
        mark("--metadata-scratch"@) == 10410918,
        mark("--no-metadata-scratch"@) == 10411021,
        mark("-h"@) == 2,
        mark("--help"@) == 11210406,
{
    lemma_marks_a();
    lemma_marks_b();
    lemma_marks_c();
    lemma_marks_d();
}

/// Each option goes by its own name, and by no other; bf16 has two, and so has help.
pub proof fn options_go_by_their_names(text: &str, r: Option<CliOption>)
    requires
        call_ensures(crate::args::find_option, (text,), r),
    ensures
        r == Some(CliOption::Text(TextOption::Model)) <==> text@ == "--model"@,
        r == Some(CliOption::Text(TextOption::Prompt)) <==> text@ == "--prompt"@,
        r == Some(CliOption::Text(TextOption::Serve)) <==> text@ == "--serve"@,
        r == Some(CliOption::Text(TextOption::CalibrateFp8)) <==> text@ == "--calibrate-fp8"@,
        r == Some(CliOption::Text(TextOption::BenchmarkFp8)) <==> text@ == "--benchmark-fp8"@,
        r == Some(CliOption::Text(TextOption::BenchmarkBatchedFp8)) <==> text@ == "--benchmark-batched-fp8"@,
        r == Some(CliOption::Text(TextOption::BenchmarkServing)) <==> text@ == "--benchmark-serving"@,
        r == Some(CliOption::Text(TextOption::BenchmarkHardware)) <==> text@ == "--benchmark-hardware"@,
        r == Some(CliOption::Text(TextOption::BenchmarkLoad)) <==> text@ == "--benchmark-load"@,
        r == Some(CliOption::Text(TextOption::EvaluateFp8)) <==> text@ == "--evaluate-fp8"@,
        r == Some(CliOption::Text(TextOption::BenchmarkOutput)) <==> text@ == "--benchmark-output"@,
        r == Some(CliOption::Text(TextOption::EvaluationOutput)) <==> text@ == "--evaluation-output"@,
        r == Some(CliOption::Text(TextOption::Fp8EvalCorpus)) <==> text@ == "--fp8-eval-corpus"@,
        r == Some(CliOption::Text(TextOption::CalibrationOutput)) <==> text@ == "--calibration-output"@,
        r == Some(CliOption::Text(TextOption::Fp8Policy)) <==> text@ == "--fp8-policy"@,
        r == Some(CliOption::Text(TextOption::ProfileOutput)) <==> text@ == "--profile-output"@,
        r == Some(CliOption::Text(TextOption::HardwareProfile)) <==> text@ == "--hardware-profile"@,
        r == Some(CliOption::Count(CountOption::BenchmarkPairs)) <==> text@ == "--benchmark-pairs"@,
        r == Some(CliOption::Count(CountOption::CalibrationMaxSequences)) <==> text@ == "--calibration-max-sequences"@,
        r == Some(CliOption::Count(CountOption::CalibrationMaxTokens)) <==> text@ == "--calibration-max-tokens"@,
        r == Some(CliOption::Count(CountOption::Fp8EvalSequences)) <==> text@ == "--fp8-eval-sequences"@,
        r == Some(CliOption::Count(CountOption::Fp8EvalMaxTokens)) <==> text@ == "--fp8-eval-max-tokens"@,
        r == Some(CliOption::Count(CountOption::MaxNewTokens)) <==> text@ == "--max-new-tokens"@,
        r == Some(CliOption::Count(CountOption::Device)) <==> text@ == "--device"@,
        r == Some(CliOption::Count(CountOption::TopK)) <==> text@ == "--top-k"@,
        r == Some(CliOption::Count(CountOption::ProfileWarmupSteps)) <==> text@ == "--profile-warmup-steps"@,
        r == Some(CliOption::Count(CountOption::ProfileSteps)) <==> text@ == "--profile-steps"@,
        r == Some(CliOption::Count(CountOption::SpeculativeDraft)) <==> text@ == "--speculative-draft"@,
        r == Some(CliOption::Single(SingleOption::Temperature)) <==> text@ == "--temperature"@,
        r == Some(CliOption::Single(SingleOption::RepetitionPenalty)) <==> text@ == "--repetition-penalty"@,
        r == Some(CliOption::Seed) <==> text@ == "--seed"@,
        r == Some(CliOption::PageSize) <==> text@ == "--page-size"@,
        r == Some(CliOption::ProfileDecode) <==> text@ == "--profile-decode"@,
        r == Some(CliOption::Flag(FlagOption::NoFp8Policy)) <==> text@ == "--no-fp8-policy"@ || text@ == "--bf16"@,
        r == Some(CliOption::Flag(FlagOption::FusedRmsFp8)) <==> text@ == "--fused-rms-fp8"@,
        r == Some(CliOption::Flag(FlagOption::NoFusedRmsFp8)) <==> text@ == "--no-fused-rms-fp8"@,
        r == Some(CliOption::Flag(FlagOption::FusedSwigluFp8)) <==> text@ == "--fused-swiglu-fp8"@,
        r == Some(CliOption::Flag(FlagOption::NoFusedSwigluFp8)) <==> text@ == "--no-fused-swiglu-fp8"@,
        r == Some(CliOption::Flag(FlagOption::MetadataScratch)) <==> text@ == "--metadata-scratch"@,
        r == Some(CliOption::Flag(FlagOption::NoMetadataScratch)) <==> text@ == "--no-metadata-scratch"@,
        r == Some(CliOption::Help) <==> text@ == "-h"@ || text@ == "--help"@,
{
    lemma_marks();
}

/// Messages name an option as it is written.
pub proof fn messages_name_options_as_written(option: CliOption, r: &'static str)
    requires
        call_ensures(CliOption::name, (option,), r),
    ensures
        option == (CliOption::Text(TextOption::Model)) ==> r@ == "--model"@,
        option == (CliOption::Text(TextOption::Prompt)) ==> r@ == "--prompt"@,
        option == (CliOption::Text(TextOption::Serve)) ==> r@ == "--serve"@,
        option == (CliOption::Text(TextOption::CalibrateFp8)) ==> r@ == "--calibrate-fp8"@,
        option == (CliOption::Text(TextOption::BenchmarkFp8)) ==> r@ == "--benchmark-fp8"@,
        option == (CliOption::Text(TextOption::BenchmarkBatchedFp8)) ==> r@ == "--benchmark-batched-fp8"@,
        option == (CliOption::Text(TextOption::BenchmarkServing)) ==> r@ == "--benchmark-serving"@,
        option == (CliOption::Text(TextOption::BenchmarkHardware)) ==> r@ == "--benchmark-hardware"@,
        option == (CliOption::Text(TextOption::BenchmarkLoad)) ==> r@ == "--benchmark-load"@,
        option == (CliOption::Text(TextOption::EvaluateFp8)) ==> r@ == "--evaluate-fp8"@,
        option == (CliOption::Text(TextOption::BenchmarkOutput)) ==> r@ == "--benchmark-output"@,
        option == (CliOption::Text(TextOption::EvaluationOutput)) ==> r@ == "--evaluation-output"@,
        option == (CliOption::Text(TextOption::Fp8EvalCorpus)) ==> r@ == "--fp8-eval-corpus"@,
        option == (CliOption::Text(TextOption::CalibrationOutput)) ==> r@ == "--calibration-output"@,
        option == (CliOption::Text(TextOption::Fp8Policy)) ==> r@ == "--fp8-policy"@,
        option == (CliOption::Text(TextOption::ProfileOutput)) ==> r@ == "--profile-output"@,
        option == (CliOption::Text(TextOption::HardwareProfile)) ==> r@ == "--hardware-profile"@,
        option == (CliOption::Count(CountOption::BenchmarkPairs)) ==> r@ == "--benchmark-pairs"@,
        option == (CliOption::Count(CountOption::CalibrationMaxSequences)) ==> r@ == "--calibration-max-sequences"@,
        option == (CliOption::Count(CountOption::CalibrationMaxTokens)) ==> r@ == "--calibration-max-tokens"@,
        option == (CliOption::Count(CountOption::Fp8EvalSequences)) ==> r@ == "--fp8-eval-sequences"@,
        option == (CliOption::Count(CountOption::Fp8EvalMaxTokens)) ==> r@ == "--fp8-eval-max-tokens"@,
        option == (CliOption::Count(CountOption::MaxNewTokens)) ==> r@ == "--max-new-tokens"@,
        option == (CliOption::Count(CountOption::Device)) ==> r@ == "--device"@,
        option == (CliOption::Count(CountOption::TopK)) ==> r@ == "--top-k"@,
        option == (CliOption::Count(CountOption::ProfileWarmupSteps)) ==> r@ == "--profile-warmup-steps"@,
        option == (CliOption::Count(CountOption::ProfileSteps)) ==> r@ == "--profile-steps"@,
        option == (CliOption::Count(CountOption::SpeculativeDraft)) ==> r@ == "--speculative-draft"@,
        option == (CliOption::Single(SingleOption::Temperature)) ==> r@ == "--temperature"@,
        option == (CliOption::Single(SingleOption::RepetitionPenalty)) ==> r@ == "--repetition-penalty"@,
        option == (CliOption::Seed) ==> r@ == "--seed"@,
        option == (CliOption::PageSize) ==> r@ == "--page-size"@,
        option == (CliOption::ProfileDecode) ==> r@ == "--profile-decode"@,
        option == (CliOption::Flag(FlagOption::NoFp8Policy)) ==> r@ == "--no-fp8-policy"@,
        option == (CliOption::Flag(FlagOption::FusedRmsFp8)) ==> r@ == "--fused-rms-fp8"@,
        option == (CliOption::Flag(FlagOption::NoFusedRmsFp8)) ==> r@ == "--no-fused-rms-fp8"@,
        option == (CliOption::Flag(FlagOption::FusedSwigluFp8)) ==> r@ == "--fused-swiglu-fp8"@,
        option == (CliOption::Flag(FlagOption::NoFusedSwigluFp8)) ==> r@ == "--no-fused-swiglu-fp8"@,
        option == (CliOption::Flag(FlagOption::MetadataScratch)) ==> r@ == "--metadata-scratch"@,
        option == (CliOption::Flag(FlagOption::NoMetadataScratch)) ==> r@ == "--no-metadata-scratch"@,
        option == (CliOption::Help) ==> r@ == "-h"@,
{
}

/// A text goes to the setting that its option names and to no other, and reading goes on
/// behind it.
pub proof fn texts_reach_the_setting_they_name(
    args: Seq<ArgumentView>,
    index: int,
    settings: ArgsView,
    policy: bool,
)
    requires
        0 <= index < args.len() - 1,
    ensures
        ({
            let name = args[index].text;
            let value = args[index + 1].text;
            let after = read_arguments(args, index, settings, policy);
            &&& name == "--model"@ ==> after == read_arguments(
                args,
                index + 2,
                (ArgsView { model: value, ..settings }),
                policy,
            )
            &&& name == "--prompt"@ ==> after == read_arguments(
                args,
                index + 2,
                (ArgsView { prompt: Some(value), ..settings }),
                policy,
            )
            &&& name == "--serve"@ ==> after == read_arguments(
                args,
                index + 2,
                (ArgsView { serve: Some(value), ..settings }),
                policy,
            )
            &&& name == "--calibrate-fp8"@ ==> after == read_arguments(
                args,
                index + 2,
                (ArgsView { calibrate_fp8: Some(value), ..settings }),
                policy,
            )
            &&& name == "--benchmark-fp8"@ ==> after == read_arguments(
                args,
                index + 2,
                (ArgsView { benchmark_fp8: Some(value), ..settings }),
                policy,
            )
            &&& name == "--benchmark-batched-fp8"@ ==> after == read_arguments(
                args,
                index + 2,
                (ArgsView { benchmark_batched_fp8: Some(value), ..settings }),
                policy,
            )
            &&& name == "--benchmark-serving"@ ==> after == read_arguments(
                args,
                index + 2,
                (ArgsView { benchmark_serving: Some(value), ..settings }),
                policy,
            )
            &&& name == "--benchmark-hardware"@ ==> after == read_arguments(
                args,
                index + 2,
                (ArgsView { benchmark_hardware: Some(value), ..settings }),
                policy,
            )
            &&& name == "--benchmark-load"@ ==> after == read_arguments(
                args,
                index + 2,
                (ArgsView { benchmark_load: Some(value), ..settings }),
                policy,
            )
        }),
{
    lemma_marks();
}

/// The rest of the texts.
pub proof fn more_texts_reach_the_setting_they_name(
    args: Seq<ArgumentView>,
    index: int,
    settings: ArgsView,
    policy: bool,
)
    requires
        0 <= index < args.len() - 1,
    ensures
        ({
            let name = args[index].text;
            let value = args[index + 1].text;
            let after = read_arguments(args, index, settings, policy);
            &&& name == "--evaluate-fp8"@ ==> after == read_arguments(
                args,
                index + 2,
                (ArgsView { evaluate_fp8: Some(value), ..settings }),
                policy,
            )
            &&& name == "--benchmark-output"@ ==> after == read_arguments(
                args,
                index + 2,
                (ArgsView { benchmark_output: value, ..settings }),
                policy,
            )
            &&& name == "--evaluation-output"@ ==> after == read_arguments(
                args,
                index + 2,
                (ArgsView { evaluation_output: value, ..settings }),
                policy,
            )
            &&& name == "--fp8-eval-corpus"@ ==> after == read_arguments(
                args,
                index + 2,
                (ArgsView { fp8_eval_corpus: Some(value), ..settings }),
                policy,
            )
            &&& name == "--calibration-output"@ ==> after == read_arguments(
                args,
                index + 2,
                (ArgsView { calibration_output: value, ..settings }),
                policy,
            )
            &&& name == "--fp8-policy"@ ==> after == read_arguments(
                args,
                index + 2,
                (ArgsView { fp8_policy: Some(value), ..settings }),
                policy,
            )
            &&& name == "--profile-output"@ ==> after == read_arguments(
                args,
                index + 2,
                (ArgsView { profile_output: Some(value), ..settings }),
                policy,
            )
            &&& name == "--hardware-profile"@ ==> after == read_arguments(
                args,
                index + 2,
                (ArgsView { hardware_profile: Some(value), ..settings }),
                policy,
            )
        }),
{
    lemma_marks();
}

/// A number goes to the setting that its option names and to no other. Numbers outside the
/// range of the option end the reading.
pub proof fn numbers_reach_the_setting_they_name(
    args: Seq<ArgumentView>,
    index: int,
    settings: ArgsView,
    policy: bool,
    value: &str,
    n: usize,
)
    requires
        0 <= index < args.len() - 1,
        value@ == args[index + 1].text,
        call_ensures(parse_unsigned, (value, usize::MAX as u64), Some(n as u64)),
    ensures
        ({
            let name = args[index].text;
            let after = read_arguments(args, index, settings, policy);
            &&& name == "--benchmark-pairs"@ ==> after == (if 20 <= n <= 30 {
                read_arguments(
                args,
                index + 2,
                (ArgsView { benchmark_pairs: n, ..settings }),
                policy,
            )
            } else {
                Err(ArgsError::OutOfRange { count: CountOption::BenchmarkPairs })
            })
            &&& name == "--calibration-max-sequences"@ ==> after == (if n > 0 {
                read_arguments(
                args,
                index + 2,
                (ArgsView { calibration_max_sequences: n, ..settings }),
                policy,
            )
            } else {
                Err(ArgsError::OutOfRange { count: CountOption::CalibrationMaxSequences })
            })
            &&& name == "--calibration-max-tokens"@ ==> after == (if n > 0 {
                read_arguments(
                args,
                index + 2,
                (ArgsView { calibration_max_tokens: n, ..settings }),
                policy,
            )
            } else {
                Err(ArgsError::OutOfRange { count: CountOption::CalibrationMaxTokens })
            })
            &&& name == "--fp8-eval-sequences"@ ==> after == (if n > 0 {
                read_arguments(
                args,
                index + 2,
                (ArgsView { fp8_eval_sequences: n, ..settings }),
                policy,
            )
            } else {
                Err(ArgsError::OutOfRange { count: CountOption::Fp8EvalSequences })
            })
            &&& name == "--fp8-eval-max-tokens"@ ==> after == (if n >= 64 {
                read_arguments(
                args,
                index + 2,
                (ArgsView { fp8_eval_max_tokens: n, ..settings }),
                policy,
            )
            } else {
                Err(ArgsError::OutOfRange { count: CountOption::Fp8EvalMaxTokens })
            })
            &&& name == "--max-new-tokens"@ ==> after == read_arguments(
                args,
                index + 2,
                (ArgsView { max_new_tokens: n, ..settings }),
                policy,
            )
            &&& name == "--device"@ ==> after == read_arguments(
                args,
                index + 2,
                (ArgsView { device: n, ..settings }),
                policy,
            )
            &&& name == "--top-k"@ ==> after == read_arguments(
                args,
                index + 2,
                (ArgsView { top_k: n, ..settings }),
                policy,
            )
            &&& name == "--profile-warmup-steps"@ ==> after == read_arguments(
                args,
                index + 2,
                (ArgsView { decode_profile_warmup_steps: n, ..settings }),
                policy,
            )
            &&& name == "--profile-steps"@ ==> after == (if n > 0 {
                read_arguments(
                args,
                index + 2,
                (ArgsView { decode_profile_steps: n, ..settings }),
                policy,
            )
            } else {
                Err(ArgsError::OutOfRange { count: CountOption::ProfileSteps })
            })
            &&& name == "--speculative-draft"@ ==> after == read_arguments(
                args,
                index + 2,
                (ArgsView { speculative_draft: n, ..settings }),
                policy,
            )
        }),
{
    lemma_marks();
}

/// What is no number, or none that fits, ends the reading at an option that takes one.
pub proof fn only_numbers_are_counted(
    args: Seq<ArgumentView>,
    index: int,
    settings: ArgsView,
    policy: bool,
    value: &str,
)
    requires
        0 <= index < args.len() - 1,
        value@ == args[index + 1].text,
        call_ensures(parse_unsigned, (value, usize::MAX as u64), None),
    ensures
        ({
            let name = args[index].text;
            let after = read_arguments(args, index, settings, policy);
            &&& name == "--max-new-tokens"@ ==> after == Err::<Option<ArgsView>, ArgsError>(
                ArgsError::InvalidNumber { option: CliOption::Count(CountOption::MaxNewTokens) },
            )
            &&& name == "--benchmark-pairs"@ ==> after == Err::<Option<ArgsView>, ArgsError>(
                ArgsError::InvalidNumber { option: CliOption::Count(CountOption::BenchmarkPairs) },
            )
            &&& name == "--device"@ ==> after == Err::<Option<ArgsView>, ArgsError>(
                ArgsError::InvalidNumber { option: CliOption::Count(CountOption::Device) },
            )
            &&& name == "--top-k"@ ==> after == Err::<Option<ArgsView>, ArgsError>(
                ArgsError::InvalidNumber { option: CliOption::Count(CountOption::TopK) },
            )
            &&& name == "--speculative-draft"@ ==> after == Err::<Option<ArgsView>, ArgsError>(
                ArgsError::InvalidNumber {
                    option: CliOption::Count(CountOption::SpeculativeDraft),
                },
            )
        }),
{
    lemma_marks();
}

/// Temperature and penalty take the number that the text reads as, the seed takes a whole
/// number, and page size and profile take one of two words.
pub proof fn other_values_reach_the_setting_they_name(
    args: Seq<ArgumentView>,
    index: int,
    settings: ArgsView,
    policy: bool,
)
    requires
        0 <= index < args.len() - 1,
    ensures
        ({
            let name = args[index].text;
            let value = args[index + 1];
            let after = read_arguments(args, index, settings, policy);
            &&& name == "--temperature"@ && value.single is Some ==> after == read_arguments(
                args,
                index + 2,
                (ArgsView { temperature: value.single->0, ..settings }),
                policy,
            )
            &&& name == "--repetition-penalty"@ && value.single is Some ==> after
                == read_arguments(
                args,
                index + 2,
                (ArgsView { repetition_penalty: value.single->0, ..settings }),
                policy,
            )
            &&& (name == "--temperature"@ || name == "--repetition-penalty"@) && value.single
                is None ==> after is Err && after->Err_0 is InvalidNumber
            &&& name == "--page-size"@ ==> {
                &&& value.text == "16"@ ==> after == read_arguments(
                    args,
                    index + 2,
                    (ArgsView { page_size: KvPageSize::P16, ..settings }),
                    policy,
                )
                &&& value.text == "32"@ ==> after == read_arguments(
                    args,
                    index + 2,
                    (ArgsView { page_size: KvPageSize::P32, ..settings }),
                    policy,
                )
                &&& value.text != "16"@ && value.text != "32"@ ==> after is Err && after->Err_0
                    == (ArgsError::NotAChoice {
                    option: CliOption::PageSize,
                    position: (index + 1) as usize,
                })
            }
            &&& name == "--profile-decode"@ ==> {
                &&& value.text == "coarse"@ ==> after == read_arguments(
                    args,
                    index + 2,
                    (ArgsView { decode_profile: DecodeProfileMode::Coarse, ..settings }),
                    policy,
                )
                &&& value.text == "detailed"@ ==> after == read_arguments(
                    args,
                    index + 2,
                    (ArgsView { decode_profile: DecodeProfileMode::Detailed, ..settings }),
                    policy,
                )
                &&& value.text != "coarse"@ && value.text != "detailed"@ ==> after is Err
                    && after->Err_0 == (ArgsError::NotAChoice {
                    option: CliOption::ProfileDecode,
                    position: (index + 1) as usize,
                })
            }
        }),
{
    lemma_marks();
    reveal_strlit("16");
    reveal_strlit("32");
    reveal_strlit("coarse");
    reveal_strlit("detailed");
    assert("16"@[0] == '1');
    assert("32"@[0] == '3');
    assert("coarse"@[0] == 'c');
    assert("detailed"@[0] == 'd');
}

/// The seed is any whole number of 64 bits.
pub proof fn seeds_are_whole_numbers(
    args: Seq<ArgumentView>,
    index: int,
    settings: ArgsView,
    policy: bool,
    value: &str,
    r: Option<u64>,
)
    requires
        0 <= index < args.len() - 1,
        args[index].text == "--seed"@,
        value@ == args[index + 1].text,
        call_ensures(parse_unsigned, (value, u64::MAX), r),
    ensures
        read_arguments(args, index, settings, policy) == (match r {
            Some(n) => read_arguments(
                args,
                index + 2,
                (ArgsView { seed: n, ..settings }),
                policy,
            ),
            None => Err(ArgsError::InvalidNumber { option: CliOption::Seed }),
        }),
{
    lemma_marks();
}

/// Flags take no value: reading goes on with the next argument. Each switch has an opposite,
/// and asking for bf16 drops a policy that was named before.
pub proof fn flags_switch_what_they_name(
    args: Seq<ArgumentView>,
    index: int,
    settings: ArgsView,
    policy: bool,
)
    requires
        0 <= index < args.len(),
    ensures
        ({
            let name = args[index].text;
            let after = read_arguments(args, index, settings, policy);
            &&& name == "--no-fp8-policy"@ || name == "--bf16"@ ==> after == read_arguments(
                args,
                index + 1,
                (ArgsView { disable_fp8_policy: true, fp8_policy: None, ..settings }),
                policy,
            )
            &&& name == "--fused-rms-fp8"@ ==> after == read_arguments(
                args,
                index + 1,
                (ArgsView { fused_rms_fp8: true, ..settings }),
                policy,
            )
            &&& name == "--no-fused-rms-fp8"@ ==> after == read_arguments(
                args,
                index + 1,
                (ArgsView { fused_rms_fp8: false, ..settings }),
                policy,
            )
            &&& name == "--fused-swiglu-fp8"@ ==> after == read_arguments(
                args,
                index + 1,
                (ArgsView { fused_swiglu_fp8: true, ..settings }),
                policy,
            )
            &&& name == "--no-fused-swiglu-fp8"@ ==> after == read_arguments(
                args,
                index + 1,
                (ArgsView { fused_swiglu_fp8: false, ..settings }),
                policy,
            )
            &&& name == "--metadata-scratch"@ ==> after == read_arguments(
                args,
                index + 1,
                (ArgsView { metadata_scratch: true, ..settings }),
                policy,
            )
            &&& name == "--no-metadata-scratch"@ ==> after == read_arguments(
                args,
                index + 1,
                (ArgsView { metadata_scratch: false, ..settings }),
                policy,
            )
            &&& name == "--help"@ || name == "-h"@ ==> after == Ok::<Option<ArgsView>, ArgsError>(
                None,
            )
        }),
{
    lemma_marks();
}

/// How many of the settings that ask for a run are given.
pub open spec fn runs_asked_for(settings: ArgsView) -> int {
    (if settings.prompt is Some { 1int } else { 0 })
        + (if settings.serve is Some { 1int } else { 0 })
        + (if settings.calibrate_fp8 is Some { 1int } else { 0 })
        + (if settings.benchmark_fp8 is Some { 1int } else { 0 })
        + (if settings.benchmark_batched_fp8 is Some { 1int } else { 0 })
        + (if settings.benchmark_serving is Some { 1int } else { 0 })
        + (if settings.benchmark_hardware is Some { 1int } else { 0 })
        + (if settings.benchmark_load is Some { 1int } else { 0 })
        + (if settings.evaluate_fp8 is Some { 1int } else { 0 })
}

/// The settings name a policy in a run that brings its own or measures without one.
pub open spec fn policy_is_misplaced(settings: ArgsView) -> bool {
    settings.fp8_policy is Some && (settings.calibrate_fp8 is Some || settings.benchmark_fp8
        is Some || settings.benchmark_batched_fp8 is Some || settings.evaluate_fp8 is Some)
}

/// The settings ask for a run on two corpora and name one.
pub open spec fn corpus_is_missing(settings: ArgsView) -> bool {
    settings.fp8_eval_corpus is None && (settings.calibrate_fp8 is Some || settings.evaluate_fp8
        is Some)
}

/// At the end, settings are accepted exactly if they ask for one run, name no policy and lack
/// no corpus where that run does not allow it, and can be sampled with. A server that names
/// no policy and does not refuse it takes the one that is there; nothing else changes.
pub proof fn settings_are_accepted_for_one_run(
    args: Seq<ArgumentView>,
    settings: ArgsView,
    policy: bool,
    config: SamplingConfig,
    sampled: Result<SamplingConfig, SamplingError>,
)
    requires
        call_ensures(SamplingConfig::validate, (config,), sampled),
        config.temperature == settings.temperature,
        config.top_k == settings.top_k,
        config.repetition_penalty == settings.repetition_penalty,
        config.seed == settings.seed,
    ensures
        ({
            let end = read_arguments(args, args.len() as int, settings, policy);
            &&& end is Ok <==> runs_asked_for(settings) == 1 && !policy_is_misplaced(settings)
                && !corpus_is_missing(settings) && sampled is Ok
            &&& end is Ok ==> end->Ok_0 is Some
            &&& end is Ok && policy && settings.serve is Some && settings.fp8_policy is None
                && !settings.disable_fp8_policy ==> end->Ok_0->0 == (ArgsView {
                fp8_policy: Some("docs/benchmarks/fp8/selected-policy.json"@),
                ..settings
            })
            &&& end is Ok && !(policy && settings.serve is Some && settings.fp8_policy is None
                && !settings.disable_fp8_policy) ==> end->Ok_0->0 == settings
            &&& runs_asked_for(settings) != 1 <==> end == Err::<Option<ArgsView>, ArgsError>(
                ArgsError::ModeCount,
            )
            &&& end is Err && end->Err_0 is Sampling ==> sampled == Err::<
                SamplingConfig,
                SamplingError,
            >(end->Err_0->error)
        }),
{
}

/// A run of two corpora without the second, and a policy where none may stand, are each told
/// apart.
pub proof fn misplaced_settings_are_told_apart(
    args: Seq<ArgumentView>,
    settings: ArgsView,
    policy: bool,
)
    requires
        runs_asked_for(settings) == 1,
    ensures
        ({
            let end = read_arguments(args, args.len() as int, settings, policy);
            &&& settings.calibrate_fp8 is Some && settings.fp8_eval_corpus is None ==> end == Err::<
                Option<ArgsView>,
                ArgsError,
            >(ArgsError::CalibrationNeedsCorpus)
            &&& settings.calibrate_fp8 is Some && settings.fp8_eval_corpus is Some
                && settings.fp8_policy is Some ==> end == Err::<Option<ArgsView>, ArgsError>(
                ArgsError::CalibrationWithPolicy,
            )
            &&& settings.benchmark_fp8 is Some && settings.fp8_policy is Some ==> end == Err::<
                Option<ArgsView>,
                ArgsError,
            >(ArgsError::BenchmarkWithPolicy)
            &&& settings.benchmark_batched_fp8 is Some && settings.fp8_policy is Some ==> end
                == Err::<Option<ArgsView>, ArgsError>(ArgsError::BatchedBenchmarkWithPolicy)
            &&& settings.evaluate_fp8 is Some && settings.fp8_eval_corpus is None ==> end == Err::<
                Option<ArgsView>,
                ArgsError,
            >(ArgsError::EvaluationNeedsCorpus)
            &&& settings.evaluate_fp8 is Some && settings.fp8_eval_corpus is Some
                && settings.fp8_policy is Some ==> end == Err::<Option<ArgsView>, ArgsError>(
                ArgsError::EvaluationWithPolicy,
            )
        }),
{
}

/// An argument that names no option ends the reading, and so does an option at the end that
/// wants a value.
pub proof fn stray_arguments_end_the_reading(
    args: Seq<ArgumentView>,
    index: int,
    settings: ArgsView,
    policy: bool,
    text: &str,
    r: Option<CliOption>,
)
    requires
        0 <= index < args.len(),
        text@ == args[index].text,
        call_ensures(crate::args::find_option, (text,), r),
    ensures
        r is None ==> read_arguments(args, index, settings, policy) == Err::<
            Option<ArgsView>,
            ArgsError,
        >(ArgsError::UnknownArgument { position: index as usize }),
        r is Some && !(r->0 is Flag) && !(r->0 is Help) && index == args.len() - 1
            ==> read_arguments(args, index, settings, policy) == Err::<
            Option<ArgsView>,
            ArgsError,
        >(ArgsError::MissingValue { option: r->0 }),
{
}

/// A program that is given a prompt and nothing else answers with the settings it documents,
/// except where the environment says otherwise.
pub proof fn prompts_alone_take_the_documented_settings(
    environment: Environment,
    args: &Vec<Argument>,
    policy: bool,
    r: Result<Option<Args>, ArgsError>,
)
    requires
        call_ensures(Args::parse, (environment, args, policy), r),
        args@.len() == 2,
        args@[0].text@ == "--prompt"@,
    ensures
        r is Ok,
        r->Ok_0 is Some,
        ({
            let a = r->Ok_0->0@;
            &&& a.prompt == Some(args@[1].text@)
            &&& a.model == "models/LFM2.5-1.2B-Instruct"@
            &&& a.serve is None
            &&& a.calibrate_fp8 is None
            &&& a.benchmark_fp8 is None
            &&& a.benchmark_batched_fp8 is None
            &&& a.benchmark_serving is None
            &&& a.benchmark_hardware is None
            &&& a.benchmark_load is None
            &&& a.evaluate_fp8 is None
            &&& a.fp8_eval_corpus is None
            &&& a.profile_output is None
            &&& a.hardware_profile is None
            &&& a.fp8_policy is Some <==> environment.fp8_policy is Some
            &&& environment.fp8_policy is Some ==> a.fp8_policy->0 == environment.fp8_policy->0@
            &&& a.benchmark_output == "docs/fp8/e2e-benchmark.json"@
            &&& a.evaluation_output == "docs/fp8/quality-final-test.json"@
            &&& a.calibration_output == "fp8-calibration.json"@
            &&& a.benchmark_pairs == 25
            &&& a.calibration_max_sequences == 256
            &&& a.calibration_max_tokens == 1024
            &&& a.fp8_eval_sequences == 16
            &&& a.fp8_eval_max_tokens == 128
            &&& a.max_new_tokens == 64
            &&& a.device == 0
            &&& a.top_k == 50
            &&& a.decode_profile_warmup_steps == 4
            &&& a.decode_profile_steps == 128
            &&& environment.speculative_draft is None ==> a.speculative_draft == 3
            &&& a.temperature.bits == 0
            &&& a.repetition_penalty.bits == 0x3f80_0000
            &&& a.seed == 0x4c46_4d32
            &&& a.page_size == KvPageSize::P16
            &&& a.decode_profile == DecodeProfileMode::Off
            &&& !a.disable_fp8_policy
            &&& a.fused_rms_fp8 <==> !(environment.fused_rms_fp8 is Some && (
            environment.fused_rms_fp8->0@ == "0"@ || environment.fused_rms_fp8->0@ == "false"@))
            &&& a.fused_swiglu_fp8 <==> !(environment.fused_swiglu_fp8 is Some && (
            environment.fused_swiglu_fp8->0@ == "0"@ || environment.fused_swiglu_fp8->0@
                == "false"@))
            &&& a.metadata_scratch <==> environment.metadata_scratch is Some
                && environment.metadata_scratch->0@ != "0"@ && environment.metadata_scratch->0@
                != "false"@
        }),
{
    let views = argument_views(args@);
    let start = crate::args::defaults(environment);
    assert(views[0].text == "--prompt"@);
    assert(views[1].text == args@[1].text@);
    texts_reach_the_setting_they_name(views, 0, start, policy);
}

/// The environment's draft length counts if it is a number; what is none is passed over.
pub proof fn the_environment_sets_the_draft_length(
    environment: Environment,
    args: &Vec<Argument>,
    policy: bool,
    r: Result<Option<Args>, ArgsError>,
    value: &str,
    n: Option<u64>,
)
    requires
        call_ensures(Args::parse, (environment, args, policy), r),
        args@.len() == 2,
        args@[0].text@ == "--prompt"@,
        environment.speculative_draft is Some,
        value@ == environment.speculative_draft->0@,
        call_ensures(parse_unsigned, (value, usize::MAX as u64), n),
    ensures
        r is Ok && r->Ok_0 is Some,
        r->Ok_0->0@.speculative_draft == (if n is Some {
            n->0 as int
        } else {
            3
        }),
{
    let views = argument_views(args@);
    let start = crate::args::defaults(environment);
    assert(views[0].text == "--prompt"@);
    texts_reach_the_setting_they_name(views, 0, start, policy);
}

/// What contracts say of settings is what the settings hold.
pub proof fn settings_show_their_fields(args: &Args)
    ensures
        args@.model == args.model@,
        args@.prompt is Some <==> args.prompt is Some,
        args.prompt is Some ==> args@.prompt->0 == args.prompt->0@,
        args@.serve is Some <==> args.serve is Some,
        args.serve is Some ==> args@.serve->0 == args.serve->0@,
        args@.calibrate_fp8 is Some <==> args.calibrate_fp8 is Some,
        args.calibrate_fp8 is Some ==> args@.calibrate_fp8->0 == args.calibrate_fp8->0@,
        args@.benchmark_fp8 is Some <==> args.benchmark_fp8 is Some,
        args.benchmark_fp8 is Some ==> args@.benchmark_fp8->0 == args.benchmark_fp8->0@,
        args@.benchmark_batched_fp8 is Some <==> args.benchmark_batched_fp8 is Some,
        args.benchmark_batched_fp8 is Some ==> args@.benchmark_batched_fp8->0 == args.benchmark_batched_fp8->0@,
        args@.benchmark_serving is Some <==> args.benchmark_serving is Some,
        args.benchmark_serving is Some ==> args@.benchmark_serving->0 == args.benchmark_serving->0@,
        args@.benchmark_hardware is Some <==> args.benchmark_hardware is Some,
        args.benchmark_hardware is Some ==> args@.benchmark_hardware->0 == args.benchmark_hardware->0@,
        args@.benchmark_load is Some <==> args.benchmark_load is Some,
        args.benchmark_load is Some ==> args@.benchmark_load->0 == args.benchmark_load->0@,
        args@.evaluate_fp8 is Some <==> args.evaluate_fp8 is Some,
        args.evaluate_fp8 is Some ==> args@.evaluate_fp8->0 == args.evaluate_fp8->0@,
        args@.benchmark_output == args.benchmark_output@,
        args@.evaluation_output == args.evaluation_output@,
        args@.fp8_eval_corpus is Some <==> args.fp8_eval_corpus is Some,
        args.fp8_eval_corpus is Some ==> args@.fp8_eval_corpus->0 == args.fp8_eval_corpus->0@,
        args@.calibration_output == args.calibration_output@,
        args@.fp8_policy is Some <==> args.fp8_policy is Some,
        args.fp8_policy is Some ==> args@.fp8_policy->0 == args.fp8_policy->0@,
        args@.profile_output is Some <==> args.profile_output is Some,
        args.profile_output is Some ==> args@.profile_output->0 == args.profile_output->0@,
        args@.hardware_profile is Some <==> args.hardware_profile is Some,
        args.hardware_profile is Some ==> args@.hardware_profile->0 == args.hardware_profile->0@,
        args@.benchmark_pairs == args.benchmark_pairs,
        args@.calibration_max_sequences == args.calibration_max_sequences,
        args@.calibration_max_tokens == args.calibration_max_tokens,
        args@.fp8_eval_sequences == args.fp8_eval_sequences,
        args@.fp8_eval_max_tokens == args.fp8_eval_max_tokens,
        args@.max_new_tokens == args.max_new_tokens,
        args@.device == args.device,
        args@.top_k == args.top_k,
        args@.decode_profile_warmup_steps == args.decode_profile_warmup_steps,
        args@.decode_profile_steps == args.decode_profile_steps,
        args@.speculative_draft == args.speculative_draft,
        args@.temperature == args.temperature,
        args@.repetition_penalty == args.repetition_penalty,
        args@.seed == args.seed,
        args@.page_size == args.page_size,
        args@.decode_profile == args.decode_profile,
        args@.disable_fp8_policy == args.disable_fp8_policy,
        args@.fused_rms_fp8 == args.fused_rms_fp8,
        args@.fused_swiglu_fp8 == args.fused_swiglu_fp8,
        args@.metadata_scratch == args.metadata_scratch,
{
}

/// The program samples with the settings it was given.
pub proof fn sampling_uses_the_settings(args: &Args, r: SamplingConfig)
    requires
        call_ensures(Args::sampling, (args,), r),
    ensures
        r.temperature == args.temperature,
        r.top_k == args.top_k,
        r.repetition_penalty == args.repetition_penalty,
        r.seed == args.seed,
{
}

/// The run is the one asked for. Servers and load benchmarks do not start without a hardware
/// profile; everything else does.
pub proof fn the_run_asked_for_starts(args: &Args, r: Result<RunMode, MissingHardwareProfile>)
    requires
        call_ensures(Args::run_mode, (args,), r),
        runs_asked_for(args@) == 1,
    ensures
        r is Err <==> args.hardware_profile is None && (args.serve is Some || args.benchmark_load
            is Some),
        ({
            let mode = if r is Ok {
                r->Ok_0
            } else {
                r->Err_0.mode
            };
            &&& mode == RunMode::Prompt <==> args.prompt is Some
            &&& mode == RunMode::Serve <==> args.serve is Some
            &&& mode == RunMode::CalibrateFp8 <==> args.calibrate_fp8 is Some
            &&& mode == RunMode::BenchmarkFp8 <==> args.benchmark_fp8 is Some
            &&& mode == RunMode::BenchmarkBatchedFp8 <==> args.benchmark_batched_fp8 is Some
            &&& mode == RunMode::BenchmarkServing <==> args.benchmark_serving is Some
            &&& mode == RunMode::BenchmarkHardware <==> args.benchmark_hardware is Some
            &&& mode == RunMode::BenchmarkLoad <==> args.benchmark_load is Some
            &&& mode == RunMode::EvaluateFp8 <==> args.evaluate_fp8 is Some
        }),
{
}

/// A digit behind a number makes ten of each unit and adds itself.
pub proof fn digits_count_by_tens(
    text: &str,
    longer: &str,
    limit: u64,
    a: Option<u64>,
    b: Option<u64>,
    digit: char,
)
    requires
        call_ensures(parse_unsigned, (text, limit), a),
        call_ensures(parse_unsigned, (longer, limit), b),
        longer@ == text@.push(digit),
        a is Some,
    ensures
        b is Some <==> '0' <= digit <= '9' && 10 * a->0 + (digit as int - '0' as int) <= limit,
        b is Some ==> b->0 == 10 * a->0 + (digit as int - '0' as int),
{
    let short = crate::args::unsigned_digits(text@);
    let long = crate::args::unsigned_digits(longer@);
    assert(longer@[0] == text@[0]);
    assert(long =~= short.push(digit));
    assert(long.drop_last() =~= short);
    assert(long.last() == digit);
    if crate::args::is_digit(digit) {
        assert forall|i: int| 0 <= i < long.len() implies crate::args::is_digit(
            #[trigger] long[i],
        ) by {
            if i < short.len() {
                assert(long[i] == short[i]);
            }
        }
    } else {
        assert(!crate::args::is_digit(long[long.len() - 1]));
    }
}

/// One digit is the number it writes, a plus sign in front changes nothing, and an empty text
/// is no number.
pub proof fn single_digits_are_numbers(text: &str, limit: u64, r: Option<u64>, digit: char)
    requires
        call_ensures(parse_unsigned, (text, limit), r),
    ensures
        text@.len() == 0 ==> r is None,
        text@ == seq!['+'] ==> r is None,
        text@ == seq![digit] || text@ == seq!['+', digit] ==> (r is Some <==> '0' <= digit <= '9'
            && digit as int - '0' as int <= limit),
        (text@ == seq![digit] || text@ == seq!['+', digit]) && r is Some ==> r->0 == digit as int
            - '0' as int,
{
    let digits = crate::args::unsigned_digits(text@);
    if text@ == seq!['+'] {
        assert(digits.len() == 0);
    }
    if text@ == seq![digit] || text@ == seq!['+', digit] {
        if text@ == seq!['+', digit] {
            assert(digits =~= seq![digit]);
        } else if digit == '+' {
            assert(digits.len() == 0);
        } else {
            assert(digits =~= seq![digit]);
        }
        if digits == seq![digit] {
            assert(digits.drop_last() =~= Seq::<char>::empty());
            assert(digits[0] == digit);
            reveal_with_fuel(crate::args::digits_value, 2);
        }
    }
}

/// What the user is told of an argument: the option as it is written, and the argument as it
/// was given.
pub proof fn complaints_name_the_argument(
    error: ArgsError,
    args: Vec<Argument>,
    r: String,
    option: CliOption,
    name: &'static str,
)
    requires
        call_ensures(ArgsError::message, (error, &args), r),
        call_ensures(CliOption::name, (option,), name),
    ensures
        error == (ArgsError::MissingValue { option }) ==> r@ == name@ + " requires a value"@,
        error == (ArgsError::InvalidNumber { option }) ==> r@ == "invalid "@ + name@,
        error == (ArgsError::OutOfRange { count: CountOption::BenchmarkPairs }) && option
            == CliOption::Count(CountOption::BenchmarkPairs) ==> r@ == name@
            + " must be in [20, 30]"@,
        error == (ArgsError::OutOfRange { count: CountOption::Fp8EvalMaxTokens }) && option
            == CliOption::Count(CountOption::Fp8EvalMaxTokens) ==> r@ == name@
            + " must be at least 64"@,
        error == (ArgsError::OutOfRange { count: CountOption::ProfileSteps }) && option
            == CliOption::Count(CountOption::ProfileSteps) ==> r@ == name@ + " must be positive"@,
        error is NotAChoice && error->NotAChoice_option == option && error->NotAChoice_position
            < args@.len() ==> r@ == name@ + (if option == CliOption::PageSize {
            " must be 16 or 32, got "@
        } else {
            " must be coarse or detailed, got "@
        }) + args@[error->NotAChoice_position as int].text@,
        error == ArgsError::CalibrationNeedsCorpus ==> r@
            == "--calibrate-fp8 requires a disjoint --fp8-eval-corpus"@,
        error == ArgsError::CalibrationWithPolicy ==> r@
            == "calibration must use the BF16 reference path without --fp8-policy"@,
        error == ArgsError::BenchmarkWithPolicy ==> r@
            == "--benchmark-fp8 already specifies the policy; do not also use --fp8-policy"@,
        error == ArgsError::BatchedBenchmarkWithPolicy ==> r@
            == "--benchmark-batched-fp8 already specifies the policy; do not also use --fp8-policy"@,
        error == ArgsError::EvaluationNeedsCorpus ==> r@
            == "--evaluate-fp8 requires --fp8-eval-corpus"@,
        error == ArgsError::EvaluationWithPolicy ==> r@
            == "--evaluate-fp8 already specifies the policy; do not also use --fp8-policy"@,
{
    if error is NotAChoice && error->NotAChoice_position < args@.len() {
        let position = error->NotAChoice_position as int;
        assert(argument_views(args@)[position].text == args@[position].text@);
    }
}

/// Counts have their bounds: twenty to thirty pairs, at least sixty-four tokens to evaluate,
/// something to calibrate and to profile. The others may be anything.
pub proof fn counts_have_their_bounds(option: CountOption, count: usize, r: bool)
    requires
        call_ensures(CountOption::takes, (option, count), r),
    ensures
        option == CountOption::BenchmarkPairs ==> (r <==> 20 <= count && count <= 30),
        option == CountOption::Fp8EvalMaxTokens ==> (r <==> count >= 64),
        option == CountOption::CalibrationMaxSequences || option
            == CountOption::CalibrationMaxTokens || option == CountOption::Fp8EvalSequences
            || option == CountOption::ProfileSteps ==> (r <==> count != 0),
        option == CountOption::MaxNewTokens || option == CountOption::Device || option
            == CountOption::TopK || option == CountOption::ProfileWarmupSteps || option
            == CountOption::SpeculativeDraft ==> r,
{
}

/// The value of an option is the argument behind it, if there is one.
pub proof fn values_follow_their_option(
    args: Vec<Argument>,
    index: usize,
    option: CliOption,
    r: Result<&Argument, ArgsError>,
)
    requires
        call_ensures(next_value, (&args, index, option), r),
    ensures
        r is Ok <==> index < args@.len(),
        r is Ok ==> *r->Ok_0 == args@[index as int],
        r is Err ==> r->Err_0 == (ArgsError::MissingValue { option }),
{
}

/// What the user is told of sampling settings.
pub proof fn sampling_complaints_are_worded(error: SamplingError, r: String)
    requires
        call_ensures(SamplingError::message, (error,), r),
    ensures
        error == SamplingError::Temperature ==> r@
            == "temperature must be finite and non-negative"@,
        error == SamplingError::TopK ==> r@ == "top_k must be positive"@,
        error == SamplingError::RepetitionPenalty ==> r@
            == "repetition_penalty must be finite and >= 1"@,
        error == SamplingError::LogitsShape ==> r@ == "sampler expects logits [1,vocab]"@,
        error == SamplingError::EmptyLogits ==> r@ == "sampler received empty logits"@,
        error == SamplingError::Probabilities ==> r@ == "sampling probabilities are invalid"@,
{
}

} // verus!
