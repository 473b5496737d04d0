//! One-request generation: the limits it is checked against and the loop over its tokens.
use vstd::prelude::*;

use crate::engine::step::FinishReason;
use crate::generation::sampler::{Sampler, SamplingConfig, SamplingError};
use crate::model::profile::{DecodeProfileMode, ModelProfileRecorder, ProfileError, RecorderView};

verus! {

#[derive(Clone, Copy, Debug)]
pub struct GenerationOptions {
    pub max_new_tokens: usize,
    pub sampling: SamplingConfig,
}

impl Default for GenerationOptions {
    fn default() -> (r: Self)
        ensures
            r.max_new_tokens == 64,
            r.sampling == SamplingConfig::greedy_config(),
    {
        GenerationOptions { max_new_tokens: 64, sampling: SamplingConfig::default() }
    }
}

#[derive(Clone, Copy, Debug, PartialEq, Eq, Structural)]
pub enum GenerationError {
    NoNewTokens,
    Sampling(SamplingError),
    Profile(ProfileError),
    EmptyPrompt,
    LengthOverflow,
    /// Prompt and new tokens do not fit the model's positions.
    LengthExceedsModel { capacity: usize, limit: usize },
}

/// What the application does next.
#[derive(Clone, Copy, Debug, PartialEq, Eq, Structural)]
pub enum GenerationAction {
    /// Run the model on this token and sample the next one.
    Decode { token: u32 },
    /// Nothing more to generate.
    Done,
}

/// A running generation.
#[derive(Debug)]
pub struct Generation {
    pub generated: Vec<u32>,
    /// The prompt and everything generated.
    pub history: Vec<u32>,
    pub max_new_tokens: usize,
    pub eos_token_id: u32,
    pub ignore_eos: bool,
    pub finish_reason: FinishReason,
    pub finished: bool,
}

/// The contents of a generation.
#[verifier::ext_equal]
pub struct GenerationView {
    pub generated: Seq<u32>,
    pub history: Seq<u32>,
    pub max_new_tokens: usize,
    pub eos_token_id: u32,
    pub ignore_eos: bool,
    pub finish_reason: FinishReason,
    pub finished: bool,
}

impl View for Generation {
    type V = GenerationView;

    open spec fn view(&self) -> GenerationView {
        GenerationView {
            generated: self.generated@,
            history: self.history@,
            max_new_tokens: self.max_new_tokens,
            eos_token_id: self.eos_token_id,
            ignore_eos: self.ignore_eos,
            finish_reason: self.finish_reason,
            finished: self.finished,
        }
    }
}

impl GenerationView {
    pub open spec fn well_formed(self) -> bool {
        &&& self.max_new_tokens > 0
        &&& self.generated.len() <= self.max_new_tokens
        &&& !self.finished ==> self.generated.len() < self.max_new_tokens
    }

    /// The token ends the text.
    pub open spec fn stops_at(self, token: u32) -> bool {
        token == self.eos_token_id && !self.ignore_eos
    }

    /// The generation after a sampled token.
    pub open spec fn with_token(self, token: u32) -> GenerationView {
        if self.stops_at(token) {
            GenerationView { finish_reason: FinishReason::Stop, finished: true, ..self }
        } else {
            GenerationView {
                generated: self.generated.push(token),
                history: self.history.push(token),
                finished: self.generated.len() + 1 >= self.max_new_tokens,
                ..self
            }
        }
    }

    /// The generation after the first `upto` tokens of a stream, as far as it takes them.
    pub open spec fn with_stream(self, stream: Seq<u32>, upto: int) -> GenerationView
        decreases upto,
    {
        if upto <= 0 {
            self
        } else {
            let before = self.with_stream(stream, upto - 1);
            if before.finished {
                before
            } else {
                before.with_token(stream[upto - 1])
            }
        }
    }
}

/// What a generation draws tokens and measures steps with.
#[derive(Debug)]
pub struct GenerationTools {
    pub sampler: Sampler,
    pub recorder: Option<ModelProfileRecorder>,
}

/// Checks the options of a generation and sets up its sampler and recorder.
pub fn prepare_generation(
    options: GenerationOptions,
    profile: DecodeProfileMode,
    profile_warmup_steps: usize,
    profile_steps: usize,
) -> (r: Result<GenerationTools, GenerationError>)
    ensures
        match r {
            Ok(tools) => {
                &&& options.max_new_tokens > 0
                &&& options.sampling.defect() is None
                &&& profile == DecodeProfileMode::Off || profile_steps > 0
                &&& tools.sampler.starts_with(options.sampling)
                &&& match tools.recorder {
                    Some(recorder) => profile != DecodeProfileMode::Off && recorder@
                        == RecorderView::fresh(profile, profile_warmup_steps, profile_steps),
                    None => profile == DecodeProfileMode::Off,
                }
            },
            Err(GenerationError::NoNewTokens) => options.max_new_tokens == 0,
            Err(GenerationError::Sampling(e)) => options.max_new_tokens > 0
                && options.sampling.defect() == Some(e),
            Err(e) => {
                &&& options.max_new_tokens > 0
                &&& options.sampling.defect() is None
                &&& profile != DecodeProfileMode::Off
                &&& profile_steps == 0
                &&& e == GenerationError::Profile(ProfileError::NoStepsRequested)
            },
        },
{
    if options.max_new_tokens == 0 {
        return Err(GenerationError::NoNewTokens);
    }
    let sampler = match Sampler::new(options.sampling) {
        Ok(sampler) => sampler,
        Err(e) => {
            return Err(GenerationError::Sampling(e));
        },
    };
    match ModelProfileRecorder::new(profile, profile_warmup_steps, profile_steps) {
        Ok(recorder) => Ok(GenerationTools { sampler, recorder }),
        Err(e) => Err(GenerationError::Profile(e)),
    }
}

/// The positions that a request of this length needs.
pub fn sequence_capacity(prompt_tokens: usize, max_new_tokens: usize, limit: usize) -> (r: Result<
    usize,
    GenerationError,
>)
    ensures
        r == (if prompt_tokens == 0 {
            Err::<usize, GenerationError>(GenerationError::EmptyPrompt)
        } else if prompt_tokens + max_new_tokens > usize::MAX {
            Err::<usize, GenerationError>(GenerationError::LengthOverflow)
        } else if prompt_tokens + max_new_tokens > limit {
            Err::<usize, GenerationError>(
                GenerationError::LengthExceedsModel {
                    capacity: (prompt_tokens + max_new_tokens) as usize,
                    limit,
                },
            )
        } else {
            Ok::<usize, GenerationError>((prompt_tokens + max_new_tokens) as usize)
        }),
{
    if prompt_tokens == 0 {
        return Err(GenerationError::EmptyPrompt);
    }
    match prompt_tokens.checked_add(max_new_tokens) {
        Some(capacity) => if capacity <= limit {
            Ok(capacity)
        } else {
            Err(GenerationError::LengthExceedsModel { capacity, limit })
        },
        None => Err(GenerationError::LengthOverflow),
    }
}

impl Generation {
    /// Starts a generation behind a prompt.
    pub fn begin(
        prompt: Vec<u32>,
        max_new_tokens: usize,
        eos_token_id: u32,
        ignore_eos: bool,
    ) -> (r: Self)
        requires
            max_new_tokens > 0,
        ensures
            r@ == (GenerationView {
                generated: Seq::empty(),
                history: prompt@,
                max_new_tokens,
                eos_token_id,
                ignore_eos,
                finish_reason: FinishReason::Length,
                finished: false,
            }),
            r@.well_formed(),
    {
        Generation {
            generated: Vec::new(),
            history: prompt,
            max_new_tokens,
            eos_token_id,
            ignore_eos,
            finish_reason: FinishReason::Length,
            finished: false,
        }
    }

    /// Takes in a sampled token.
    pub fn take_token(&mut self, token: u32) -> (r: GenerationAction)
        requires
            old(self)@.well_formed(),
            !old(self)@.finished,
        ensures
            final(self)@ == old(self)@.with_token(token),
            final(self)@.well_formed(),
            r == (if final(self)@.finished {
                GenerationAction::Done
            } else {
                GenerationAction::Decode { token }
            }),
    {
        if token == self.eos_token_id && !self.ignore_eos {
            self.finish_reason = FinishReason::Stop;
            self.finished = true;
            return GenerationAction::Done;
        }
        self.generated.push(token);
        self.history.push(token);
        if self.generated.len() < self.max_new_tokens {
            GenerationAction::Decode { token }
        } else {
            self.finished = true;
            GenerationAction::Done
        }
    }

    /// Whether a sampled token is seen by the reader, and so counts for the time between
    /// tokens.
    pub fn is_visible(&self, token: u32) -> (r: bool)
        ensures
            r == (token != self@.eos_token_id),
    {
        token != self.eos_token_id
    }
}

/// The first position of `stream` at which a generation stops, among the first `upto`.
pub open spec fn first_stop(start: GenerationView, stream: Seq<u32>, upto: int) -> int
    decreases upto,
{
    if upto <= 0 {
        0
    } else {
        let before = first_stop(start, stream, upto - 1);
        if before < upto - 1 || start.stops_at(stream[upto - 1]) {
            before
        } else {
            upto
        }
    }
}

/// A generation keeps the stream up to the first token that ends the text, and at most as
/// many tokens as it may.
pub proof fn generation_keeps_the_stream(start: GenerationView, stream: Seq<u32>, upto: int)
    requires
        start.well_formed(),
        !start.finished,
        start.generated.len() == 0,
        start.finish_reason == FinishReason::Length,
        0 <= upto <= stream.len(),
    ensures
        ({
            let end = start.with_stream(stream, upto);
            let kept = crate::num::min_int(
                first_stop(start, stream, upto),
                start.max_new_tokens as int,
            );
            &&& end.generated == stream.take(kept)
            &&& end.history == start.history + stream.take(kept)
            &&& end.well_formed()
            &&& end.finished <==> kept == start.max_new_tokens || first_stop(start, stream, upto)
                < upto
            &&& end.finish_reason == FinishReason::Stop <==> first_stop(start, stream, upto) < upto
                && first_stop(start, stream, upto) < start.max_new_tokens
            &&& end.eos_token_id == start.eos_token_id
            &&& end.ignore_eos == start.ignore_eos
            &&& end.max_new_tokens == start.max_new_tokens
        }),
    decreases upto,
{
    lemma_first_stop(start, stream, upto);
    if upto > 0 {
        generation_keeps_the_stream(start, stream, upto - 1);
        let end = start.with_stream(stream, upto);
        let kept = crate::num::min_int(
            first_stop(start, stream, upto),
            start.max_new_tokens as int,
        );
        assert(end.generated =~= stream.take(kept));
        assert(end.history =~= start.history + stream.take(kept));
    }
}

proof fn lemma_first_stop(start: GenerationView, stream: Seq<u32>, upto: int)
    requires
        0 <= upto,
    ensures
        0 <= first_stop(start, stream, upto) <= upto,
        first_stop(start, stream, upto) < upto ==> start.stops_at(
            stream[first_stop(start, stream, upto)],
        ),
        forall|i: int|
            0 <= i < first_stop(start, stream, upto) ==> !start.stops_at(#[trigger] stream[i]),
    decreases upto,
{
    if upto > 0 {
        lemma_first_stop(start, stream, upto - 1);
    }
}

} // verus!
