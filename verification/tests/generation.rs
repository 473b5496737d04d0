//! The generation loop.
use lfm25_inference::engine::generate::{
    prepare_generation, sequence_capacity, Generation, GenerationAction, GenerationError,
    GenerationOptions,
};
use lfm25_inference::engine::step::FinishReason;
use lfm25_inference::generation::sampler::{SamplingConfig, SamplingError};
use lfm25_inference::model::profile::{DecodeProfileMode, ProfileError};

fn run(stream: &[u32], max_new_tokens: usize, ignore_eos: bool) -> Generation {
    let mut generation = Generation::begin(vec![10, 11], max_new_tokens, 2, ignore_eos);
    for token in stream {
        if generation.take_token(*token) == GenerationAction::Done {
            break;
        }
    }
    generation
}

#[test]
fn generation_stops_at_the_end_of_text() {
    let generation = run(&[5, 6, 2, 7], 10, false);
    assert_eq!(generation.generated, vec![5, 6]);
    assert_eq!(generation.history, vec![10, 11, 5, 6]);
    assert_eq!(generation.finish_reason, FinishReason::Stop);
    assert_eq!(generation.finish_reason.name(), "stop");
}

#[test]
fn generation_stops_at_its_length() {
    let generation = run(&[5, 6, 7, 8], 3, false);
    assert_eq!(generation.generated, vec![5, 6, 7]);
    assert_eq!(generation.finish_reason.name(), "length");
    let ignoring = run(&[5, 2, 7, 8], 3, true);
    assert_eq!(ignoring.generated, vec![5, 2, 7]);
    assert!(!ignoring.is_visible(2) && ignoring.is_visible(5));
}

#[test]
fn an_immediate_end_generates_nothing() {
    let mut generation = Generation::begin(vec![1], 4, 2, false);
    assert_eq!(generation.take_token(2), GenerationAction::Done);
    assert!(generation.generated.is_empty());
    let mut going = Generation::begin(vec![1], 4, 2, false);
    assert_eq!(going.take_token(9), GenerationAction::Decode { token: 9 });
}

#[test]
fn lengths_are_checked_against_the_model() {
    assert_eq!(sequence_capacity(10, 6, 16), Ok(16));
    assert_eq!(
        sequence_capacity(10, 7, 16),
        Err(GenerationError::LengthExceedsModel { capacity: 17, limit: 16 })
    );
    assert_eq!(sequence_capacity(0, 7, 16), Err(GenerationError::EmptyPrompt));
    assert_eq!(sequence_capacity(usize::MAX, 1, 16), Err(GenerationError::LengthOverflow));
}

#[test]
fn options_are_checked_in_order() {
    let options = GenerationOptions::default();
    assert_eq!(options.max_new_tokens, 64);
    let bad = SamplingConfig { top_k: 0, ..SamplingConfig::default() };
    let mode = DecodeProfileMode::Coarse;
    let error = |max_new_tokens, sampling, mode, steps| {
        prepare_generation(GenerationOptions { max_new_tokens, sampling }, mode, 1, steps)
            .unwrap_err()
    };
    assert_eq!(error(0, bad, mode, 0), GenerationError::NoNewTokens);
    assert_eq!(error(1, bad, mode, 0), GenerationError::Sampling(SamplingError::TopK));
    assert_eq!(
        error(1, SamplingConfig::default(), mode, 0),
        GenerationError::Profile(ProfileError::NoStepsRequested)
    );
    let tools = prepare_generation(options, DecodeProfileMode::Off, 1, 0).unwrap();
    assert!(tools.recorder.is_none());
    assert!(prepare_generation(options, mode, 1, 5).unwrap().recorder.is_some());
}
