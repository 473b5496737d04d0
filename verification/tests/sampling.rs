//! Sampling configuration, candidates and the random stream.
use lfm25_inference::bf16::Bf16;
use lfm25_inference::float::{F32, F64};
use lfm25_inference::generation::sampler::{
    check_probability_total, drawn_candidate, last_maximum, raw_candidates, top_candidates,
    PenaltyStep, Sampler, SamplingConfig, SamplingError, SamplingRoute,
};

fn single(value: f32) -> F32 {
    F32 { bits: value.to_bits() }
}

fn double(value: f64) -> F64 {
    F64 { bits: value.to_bits() }
}

fn brain(value: f32) -> Bf16 {
    Bf16 { bits: half::bf16::from_f32(value).to_bits() }
}

#[test]
fn sampling_config_rejects_invalid_values() {
    assert!(
        SamplingConfig {
            temperature: single(-1.0),
            ..Default::default()
        }
        .validate()
        .is_err()
    );
    assert!(
        SamplingConfig {
            top_k: 0,
            ..Default::default()
        }
        .validate()
        .is_err()
    );
    assert!(
        SamplingConfig {
            repetition_penalty: single(0.9),
            ..Default::default()
        }
        .validate()
        .is_err()
    );
}

#[test]
fn each_invalid_setting_has_its_error() {
    let config = |temperature: f32, top_k: usize, penalty: f32| SamplingConfig {
        temperature: single(temperature),
        top_k,
        repetition_penalty: single(penalty),
        seed: 1,
    };
    assert_eq!(config(f32::NAN, 0, 0.0).validate().unwrap_err(), SamplingError::Temperature);
    assert_eq!(config(f32::INFINITY, 1, 1.0).validate().unwrap_err(), SamplingError::Temperature);
    assert_eq!(config(0.5, 0, 0.0).validate().unwrap_err(), SamplingError::TopK);
    assert_eq!(config(0.5, 3, 0.99).validate().unwrap_err(), SamplingError::RepetitionPenalty);
    assert_eq!(
        config(0.5, 3, f32::INFINITY).validate().unwrap_err(),
        SamplingError::RepetitionPenalty
    );
    assert_eq!(config(-0.0, 3, 1.0).validate().unwrap(), config(-0.0, 3, 1.0));
    assert_eq!(SamplingError::TopK.message(), "top_k must be positive");
    assert_eq!(
        SamplingError::Temperature.message(),
        "temperature must be finite and non-negative"
    );
}

#[test]
fn default_sampling_is_greedy() {
    let config = SamplingConfig::default();
    assert_eq!(config.temperature, single(0.0));
    assert_eq!(config.top_k, 50);
    assert_eq!(config.repetition_penalty, single(1.0));
    assert_eq!(config.seed, 0x4c_46_4d_32);
    let sampler = Sampler::new(config).unwrap();
    assert_eq!(sampler.route(&[1, 100]).unwrap(), SamplingRoute::DeviceArgmax);
}

#[test]
fn xorshift_is_deterministic_for_a_seed() {
    let config = SamplingConfig {
        seed: 42,
        ..Default::default()
    };
    let mut left = Sampler::new(config).unwrap();
    let mut right = Sampler::new(config).unwrap();
    for _ in 0..16 {
        assert_eq!(left.next_unit_numerator(), right.next_unit_numerator());
    }
}

#[test]
fn random_stream_has_known_values() {
    let mut state: u64 = 42;
    let mut sampler = Sampler::new(SamplingConfig { seed: 42, ..Default::default() }).unwrap();
    for _ in 0..8 {
        state ^= state << 13;
        state ^= state >> 7;
        state ^= state << 17;
        let numerator = sampler.next_unit_numerator();
        assert_eq!(numerator, state >> 11);
        assert!(numerator < 1 << 53);
    }
    let mut from_zero = Sampler::new(SamplingConfig { seed: 0, ..Default::default() }).unwrap();
    let mut replaced =
        Sampler::new(SamplingConfig { seed: 0x9e3779b97f4a7c15, ..Default::default() }).unwrap();
    assert_eq!(from_zero.next_unit_numerator(), replaced.next_unit_numerator());
}

#[test]
fn routes_follow_temperature_penalty_and_shape() {
    let route = |temperature: f32, penalty: f32, dims: &[usize]| {
        Sampler::new(SamplingConfig {
            temperature: single(temperature),
            top_k: 4,
            repetition_penalty: single(penalty),
            seed: 9,
        })
        .unwrap()
        .route(dims)
    };
    assert_eq!(route(0.0, 1.0, &[1, 5]).unwrap(), SamplingRoute::DeviceArgmax);
    assert_eq!(route(0.0, 1.5, &[1, 5]).unwrap(), SamplingRoute::HostArgmax);
    assert_eq!(route(0.7, 1.0, &[1, 5]).unwrap(), SamplingRoute::HostDraw);
    assert_eq!(route(0.7, 1.0, &[2, 5]).unwrap_err(), SamplingError::LogitsShape);
    assert_eq!(route(0.7, 1.0, &[5]).unwrap_err(), SamplingError::LogitsShape);
}

#[test]
fn repeated_tokens_are_penalised_towards_less_likely() {
    let logits = [brain(2.0), brain(-2.0), brain(0.0), brain(3.5)];
    let candidates = raw_candidates(&logits, &[0, 1, 2, 2]);
    assert_eq!(candidates.len(), 4);
    assert_eq!(candidates[0].penalty, PenaltyStep::Divide);
    assert_eq!(candidates[1].penalty, PenaltyStep::Multiply);
    assert_eq!(candidates[2].penalty, PenaltyStep::Divide);
    assert_eq!(candidates[3].penalty, PenaltyStep::Keep);
    assert_eq!(candidates[3].score, single(3.5));
    assert_eq!(candidates[3].token, 3);
}

#[test]
fn the_last_of_equal_maxima_is_chosen() {
    let scores = [single(1.0), single(4.0), single(4.0), single(-0.0)];
    assert_eq!(last_maximum(&scores).unwrap(), 2);
    assert_eq!(last_maximum(&[single(-0.0), single(0.0)]).unwrap(), 1);
    assert_eq!(last_maximum(&[single(0.0), single(-0.0)]).unwrap(), 0);
    assert_eq!(last_maximum(&[]).unwrap_err(), SamplingError::EmptyLogits);
}

#[test]
fn top_candidates_hold_the_largest_scores() {
    let scores: Vec<F32> = [5.0, 1.0, 9.0, 7.0, -3.0, 8.0].iter().map(|v| single(*v)).collect();
    let mut kept = top_candidates(&scores, 3);
    kept.sort();
    assert_eq!(kept, vec![2, 3, 5]);
    assert_eq!(top_candidates(&scores, 6), vec![0, 1, 2, 3, 4, 5]);
    let best = top_candidates(&scores, 1);
    assert_eq!(best, vec![2]);
    let sampler = Sampler::new(SamplingConfig { top_k: 3, ..Default::default() }).unwrap();
    assert_eq!(sampler.kept_candidates(6), 3);
    assert_eq!(sampler.kept_candidates(2), 2);
}

#[test]
fn draws_stop_at_the_first_reached_threshold() {
    let probabilities = [double(0.5), double(0.25), double(0.25)];
    assert_eq!(drawn_candidate(&[double(0.5), double(0.0), double(0.0)], &probabilities), 0);
    assert_eq!(drawn_candidate(&[double(0.7), double(0.2), double(0.0)], &probabilities), 1);
    assert_eq!(drawn_candidate(&[double(9.0), double(8.0), double(7.0)], &probabilities), 2);
    assert!(check_probability_total(double(1.5)).is_ok());
    assert_eq!(
        check_probability_total(double(0.0)).unwrap_err(),
        SamplingError::Probabilities
    );
    assert!(check_probability_total(double(f64::NAN)).is_err());
    assert!(check_probability_total(double(f64::INFINITY)).is_err());
}
