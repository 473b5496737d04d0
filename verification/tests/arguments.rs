//! Command-line arguments.
use lfm25_inference::args::{
    find_option, next_value, parse_unsigned, usage, Args, ArgsError, Argument, CliOption,
    CountOption, Environment, FlagOption, MissingHardwareProfile, RunMode, SingleOption,
    TextOption,
};
use lfm25_inference::cache::KvPageSize;
use lfm25_inference::float::F32;
use lfm25_inference::generation::sampler::SamplingError;
use lfm25_inference::model::profile::DecodeProfileMode;

fn environment() -> Environment {
    Environment {
        fp8_policy: None,
        speculative_draft: None,
        fused_rms_fp8: None,
        fused_swiglu_fp8: None,
        metadata_scratch: None,
    }
}

fn arguments(words: &[&str]) -> Vec<Argument> {
    words
        .iter()
        .map(|word| Argument {
            text: word.to_string(),
            single: word.parse::<f32>().ok().map(|value| F32 { bits: value.to_bits() }),
        })
        .collect()
}

fn parse(words: &[&str]) -> Result<Option<Args>, ArgsError> {
    Args::parse(environment(), &arguments(words), false)
}

fn settings(words: &[&str]) -> Args {
    parse(words).unwrap().unwrap()
}

#[test]
fn a_prompt_has_defaults() {
    let args = settings(&["--prompt", "hello"]);
    assert_eq!(args.prompt.as_deref(), Some("hello"));
    assert_eq!(args.model, "models/LFM2.5-1.2B-Instruct");
    assert_eq!(args.max_new_tokens, 64);
    assert_eq!(args.benchmark_pairs, 25);
    assert_eq!(args.page_size, KvPageSize::P16);
    assert_eq!(args.decode_profile, DecodeProfileMode::Off);
    assert_eq!(args.speculative_draft, 3);
    assert!(args.fused_rms_fp8 && args.fused_swiglu_fp8 && !args.metadata_scratch);
    assert!(args.fp8_policy.is_none());
    assert_eq!(args.run_mode(), Ok(RunMode::Prompt));
    assert_eq!(args.sampling().top_k, 50);
}

#[test]
fn later_values_override_earlier_ones() {
    let args = settings(&["--prompt", "a", "--seed", "1", "--prompt", "b", "--seed", "2"]);
    assert_eq!(args.prompt.as_deref(), Some("b"));
    assert_eq!(args.seed, 2);
}

#[test]
fn options_set_their_fields() {
    let args = settings(&[
        "--serve",
        "127.0.0.1:8080",
        "--hardware-profile",
        "hw.json",
        "--page-size",
        "32",
        "--profile-decode",
        "detailed",
        "--temperature",
        "0.5",
        "--repetition-penalty",
        "1.25",
        "--no-fused-rms-fp8",
        "--device",
        "2",
    ]);
    assert_eq!(args.run_mode(), Ok(RunMode::Serve));
    assert_eq!(args.page_size, KvPageSize::P32);
    assert_eq!(args.decode_profile, DecodeProfileMode::Detailed);
    assert_eq!(args.temperature.bits, 0.5f32.to_bits());
    assert_eq!(args.repetition_penalty.bits, 1.25f32.to_bits());
    assert!(!args.fused_rms_fp8);
    assert_eq!(args.device, 2);
}

#[test]
fn the_environment_is_read_first() {
    let surroundings = Environment {
        fp8_policy: Some("env.json".to_string()),
        speculative_draft: Some("7".to_string()),
        fused_rms_fp8: Some("0".to_string()),
        fused_swiglu_fp8: Some("false".to_string()),
        metadata_scratch: Some("1".to_string()),
    };
    let args = Args::parse(surroundings, &arguments(&["--prompt", "x"]), true).unwrap().unwrap();
    assert_eq!(args.fp8_policy.as_deref(), Some("env.json"));
    assert_eq!(args.speculative_draft, 7);
    assert!(!args.fused_rms_fp8 && !args.fused_swiglu_fp8 && args.metadata_scratch);
}

#[test]
fn only_servers_detect_the_checked_in_policy() {
    let with = |words: &[&str], exists| {
        Args::parse(environment(), &arguments(words), exists).unwrap().unwrap().fp8_policy
    };
    assert_eq!(
        with(&["--serve", "127.0.0.1:8086"], true).as_deref(),
        Some("docs/benchmarks/fp8/selected-policy.json")
    );
    assert!(with(&["--serve", "127.0.0.1:8086"], false).is_none());
    assert!(with(&["--serve", "127.0.0.1:8086", "--no-fp8-policy"], true).is_none());
    assert!(with(&["--serve", "127.0.0.1:8086", "--bf16"], true).is_none());
    assert_eq!(
        with(&["--serve", "127.0.0.1:8086", "--fp8-policy", "own.json"], true).as_deref(),
        Some("own.json")
    );
    assert!(with(&["--prompt", "x"], true).is_none());
    assert_eq!(
        with(&["--prompt", "x", "--fp8-policy", "own.json"], true).as_deref(),
        Some("own.json")
    );
    assert!(with(&["--benchmark-serving", "out.json"], true).is_none());
}

#[test]
fn prompts_run_in_bf16_by_default() {
    let words = [
        "--model",
        "models/LFM2.5-1.2B-Instruct",
        "--prompt",
        "Who are you?",
        "--max-new-tokens",
        "64",
        "--page-size",
        "16",
        "--temperature",
        "0.0",
    ];
    let args = Args::parse(environment(), &arguments(&words), true).unwrap().unwrap();
    assert_eq!(args.fp8_policy, None);
    assert_eq!(args.prompt.as_deref(), Some("Who are you?"));
    assert_eq!(args.max_new_tokens, 64);
    assert_eq!(args.page_size, KvPageSize::P16);
    assert_eq!(args.temperature, F32 { bits: 0 });
}

#[test]
fn exactly_one_mode_is_asked_for() {
    assert_eq!(parse(&[]).unwrap_err(), ArgsError::ModeCount);
    assert_eq!(
        parse(&["--prompt", "x", "--serve", "y"]).unwrap_err(),
        ArgsError::ModeCount
    );
    assert!(parse(&["--help"]).unwrap().is_none());
    assert!(parse(&["-h", "--nonsense"]).unwrap().is_none());
}

#[test]
fn modes_have_their_rules() {
    let error = |words: &[&str]| parse(words).unwrap_err();
    assert_eq!(error(&["--calibrate-fp8", "c"]), ArgsError::CalibrationNeedsCorpus);
    assert_eq!(
        error(&["--calibrate-fp8", "c", "--fp8-eval-corpus", "e", "--fp8-policy", "p"]),
        ArgsError::CalibrationWithPolicy
    );
    assert_eq!(
        error(&["--benchmark-fp8", "b", "--fp8-policy", "p"]),
        ArgsError::BenchmarkWithPolicy
    );
    assert_eq!(
        error(&["--benchmark-batched-fp8", "b", "--fp8-policy", "p"]),
        ArgsError::BatchedBenchmarkWithPolicy
    );
    assert_eq!(error(&["--evaluate-fp8", "p"]), ArgsError::EvaluationNeedsCorpus);
    assert_eq!(
        error(&["--evaluate-fp8", "p", "--fp8-eval-corpus", "e", "--fp8-policy", "p"]),
        ArgsError::EvaluationWithPolicy
    );
    assert_eq!(
        error(&["--prompt", "x", "--top-k", "0"]),
        ArgsError::Sampling { error: SamplingError::TopK }
    );
    assert_eq!(
        settings(&["--serve", "a"]).run_mode(),
        Err(MissingHardwareProfile { mode: RunMode::Serve })
    );
}

#[test]
fn values_are_checked() {
    let error = |words: &[&str]| parse(words).unwrap_err();
    assert_eq!(
        error(&["--prompt"]),
        ArgsError::MissingValue { option: CliOption::Text(TextOption::Prompt) }
    );
    assert_eq!(
        error(&["--seed", "-1"]),
        ArgsError::InvalidNumber { option: CliOption::Seed }
    );
    assert_eq!(
        error(&["--temperature", "warm"]),
        ArgsError::InvalidNumber { option: CliOption::Single(SingleOption::Temperature) }
    );
    assert_eq!(
        error(&["--benchmark-pairs", "31"]),
        ArgsError::OutOfRange { count: CountOption::BenchmarkPairs }
    );
    assert_eq!(
        error(&["--page-size", "64"]),
        ArgsError::NotAChoice { option: CliOption::PageSize, position: 1 }
    );
    assert_eq!(
        error(&["--prompt", "x", "--what"]),
        ArgsError::UnknownArgument { position: 2 }
    );
}

#[test]
fn errors_are_told_in_words() {
    let told = |words: &[&str]| parse(words).unwrap_err().message(&arguments(words));
    assert_eq!(told(&["--seed"]), "--seed requires a value");
    assert_eq!(told(&["--seed", "x"]), "invalid --seed");
    assert_eq!(told(&["--page-size", "64"]), "--page-size must be 16 or 32, got 64");
    assert_eq!(
        told(&["--profile-decode", "fine"]),
        "--profile-decode must be coarse or detailed, got fine"
    );
    assert_eq!(told(&["--benchmark-pairs", "1"]), "--benchmark-pairs must be in [20, 30]");
    assert!(told(&["--what"]).starts_with("unknown argument --what\n\n"));
    assert!(told(&[]).ends_with(usage()));
    assert_eq!(
        told(&["--prompt", "x", "--temperature", "-1"]),
        "temperature must be finite and non-negative"
    );
}

#[test]
fn options_are_found_by_name() {
    assert_eq!(find_option("--seed"), Some(CliOption::Seed));
    assert_eq!(
        find_option("--metadata-scratch"),
        Some(CliOption::Flag(FlagOption::MetadataScratch))
    );
    assert_eq!(find_option("seed"), None);
    assert_eq!(CliOption::Count(CountOption::TopK).name(), "--top-k");
    assert!(CountOption::Fp8EvalMaxTokens.takes(64) && !CountOption::Fp8EvalMaxTokens.takes(63));
}

#[test]
fn values_follow_their_options() {
    let args = arguments(&["--model", "m"]);
    let option = CliOption::Text(TextOption::Model);
    assert_eq!(next_value(&args, 1, option).unwrap().text, "m");
    assert_eq!(next_value(&args, 2, option).unwrap_err(), ArgsError::MissingValue { option });
}

#[test]
fn unsigned_numbers_are_read() {
    assert_eq!(parse_unsigned("007", 10), Some(7));
    assert_eq!(parse_unsigned("+5", 10), Some(5));
    assert_eq!(parse_unsigned("11", 10), None);
    assert_eq!(parse_unsigned("", 10), None);
    assert_eq!(parse_unsigned("+", 10), None);
    assert_eq!(parse_unsigned("1_0", 100), None);
    assert_eq!(parse_unsigned("18446744073709551615", u64::MAX), Some(u64::MAX));
    assert_eq!(parse_unsigned("18446744073709551616", u64::MAX), None);
}
