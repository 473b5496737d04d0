//! Decode profiling: regions, their aggregates, and which steps are measured.
use vstd::prelude::*;

verus! {

/// How finely decode steps are timed.
#[derive(Clone, Copy, Debug, PartialEq, Eq, Structural)]
pub enum DecodeProfileMode {
    Off,
    Coarse,
    Detailed,
}

/// Parts of a decode step that are timed.
#[derive(Clone, Copy, Debug, PartialEq, Eq, Structural)]
pub enum ProfileRegion {
    Mlp,
    MlpGateUpGemm,
    MlpSilu,
    MlpDownGemm,
    Conv,
    ConvInProj,
    ConvKernel,
    ConvOutProj,
    Attention,
    AttnQkvProj,
    AttnPostprocess,
    AttnXqa,
    AttnOutProj,
    ResidualNorm,
    LmHead,
    Sampling,
}

/// Groups of regions, in the order in which they are reported.
#[derive(Clone, Copy, Debug, PartialEq, Eq, Structural)]
pub enum ProfileAggregate {
    Attention,
    Conv,
    LmHead,
    Mlp,
    ResidualNorm,
    Sampling,
}

impl ProfileAggregate {
    pub open spec fn title(self) -> Seq<char> {
        match self {
            ProfileAggregate::Attention => "attention_total"@,
            ProfileAggregate::Conv => "conv_total"@,
            ProfileAggregate::LmHead => "lm_head"@,
            ProfileAggregate::Mlp => "mlp_total"@,
            ProfileAggregate::ResidualNorm => "residual_norm"@,
            ProfileAggregate::Sampling => "sampling"@,
        }
    }

    pub fn name(self) -> (r: &'static str)
        ensures
            r@ == self.title(),
    {
        match self {
            ProfileAggregate::Attention => "attention_total",
            ProfileAggregate::Conv => "conv_total",
            ProfileAggregate::LmHead => "lm_head",
            ProfileAggregate::Mlp => "mlp_total",
            ProfileAggregate::ResidualNorm => "residual_norm",
            ProfileAggregate::Sampling => "sampling",
        }
    }
}

/// The number of regions.
pub const REGION_COUNT: usize = 16;

/// All regions, in the order in which they are reported.
pub open spec fn region_order() -> Seq<ProfileRegion> {
    seq![
        ProfileRegion::Mlp,
        ProfileRegion::MlpGateUpGemm,
        ProfileRegion::MlpSilu,
        ProfileRegion::MlpDownGemm,
        ProfileRegion::Conv,
        ProfileRegion::ConvInProj,
        ProfileRegion::ConvKernel,
        ProfileRegion::ConvOutProj,
        ProfileRegion::Attention,
        ProfileRegion::AttnQkvProj,
        ProfileRegion::AttnPostprocess,
        ProfileRegion::AttnXqa,
        ProfileRegion::AttnOutProj,
        ProfileRegion::ResidualNorm,
        ProfileRegion::LmHead,
        ProfileRegion::Sampling,
    ]
}

impl ProfileRegion {
    pub open spec fn title(self) -> Seq<char> {
        match self {
            ProfileRegion::Mlp => "mlp_total"@,
            ProfileRegion::MlpGateUpGemm => "mlp_gate_up_gemm"@,
            ProfileRegion::MlpSilu => "mlp_silu"@,
            ProfileRegion::MlpDownGemm => "mlp_down_gemm"@,
            ProfileRegion::Conv => "conv_total"@,
            ProfileRegion::ConvInProj => "conv_in_proj"@,
            ProfileRegion::ConvKernel => "conv_kernel"@,
            ProfileRegion::ConvOutProj => "conv_out_proj"@,
            ProfileRegion::Attention => "attention_total"@,
            ProfileRegion::AttnQkvProj => "attn_qkv_proj"@,
            ProfileRegion::AttnPostprocess => "attn_postprocess"@,
            ProfileRegion::AttnXqa => "attn_xqa"@,
            ProfileRegion::AttnOutProj => "attn_out_proj"@,
            ProfileRegion::ResidualNorm => "residual_norm"@,
            ProfileRegion::LmHead => "lm_head"@,
            ProfileRegion::Sampling => "sampling"@,
        }
    }

    pub fn name(self) -> (r: &'static str)
        ensures
            r@ == self.title(),
    {
        match self {
            ProfileRegion::Mlp => "mlp_total",
            ProfileRegion::MlpGateUpGemm => "mlp_gate_up_gemm",
            ProfileRegion::MlpSilu => "mlp_silu",
            ProfileRegion::MlpDownGemm => "mlp_down_gemm",
            ProfileRegion::Conv => "conv_total",
            ProfileRegion::ConvInProj => "conv_in_proj",
            ProfileRegion::ConvKernel => "conv_kernel",
            ProfileRegion::ConvOutProj => "conv_out_proj",
            ProfileRegion::Attention => "attention_total",
            ProfileRegion::AttnQkvProj => "attn_qkv_proj",
            ProfileRegion::AttnPostprocess => "attn_postprocess",
            ProfileRegion::AttnXqa => "attn_xqa",
            ProfileRegion::AttnOutProj => "attn_out_proj",
            ProfileRegion::ResidualNorm => "residual_norm",
            ProfileRegion::LmHead => "lm_head",
            ProfileRegion::Sampling => "sampling",
        }
    }

    /// The group that a region counts towards.
    pub open spec fn group(self) -> ProfileAggregate {
        match self {
            ProfileRegion::Mlp
            | ProfileRegion::MlpGateUpGemm
            | ProfileRegion::MlpSilu
            | ProfileRegion::MlpDownGemm => ProfileAggregate::Mlp,
            ProfileRegion::Conv
            | ProfileRegion::ConvInProj
            | ProfileRegion::ConvKernel
            | ProfileRegion::ConvOutProj => ProfileAggregate::Conv,
            ProfileRegion::Attention
            | ProfileRegion::AttnQkvProj
            | ProfileRegion::AttnPostprocess
            | ProfileRegion::AttnXqa
            | ProfileRegion::AttnOutProj => ProfileAggregate::Attention,
            ProfileRegion::ResidualNorm => ProfileAggregate::ResidualNorm,
            ProfileRegion::LmHead => ProfileAggregate::LmHead,
            ProfileRegion::Sampling => ProfileAggregate::Sampling,
        }
    }

    pub fn aggregate(self) -> (r: ProfileAggregate)
        ensures
            r == self.group(),
    {
        match self {
            ProfileRegion::Mlp
            | ProfileRegion::MlpGateUpGemm
            | ProfileRegion::MlpSilu
            | ProfileRegion::MlpDownGemm => ProfileAggregate::Mlp,
            ProfileRegion::Conv
            | ProfileRegion::ConvInProj
            | ProfileRegion::ConvKernel
            | ProfileRegion::ConvOutProj => ProfileAggregate::Conv,
            ProfileRegion::Attention
            | ProfileRegion::AttnQkvProj
            | ProfileRegion::AttnPostprocess
            | ProfileRegion::AttnXqa
            | ProfileRegion::AttnOutProj => ProfileAggregate::Attention,
            ProfileRegion::ResidualNorm => ProfileAggregate::ResidualNorm,
            ProfileRegion::LmHead => ProfileAggregate::LmHead,
            ProfileRegion::Sampling => ProfileAggregate::Sampling,
        }
    }

    /// The place of the region in reports.
    pub open spec fn rank(self) -> int {
        match self {
            ProfileRegion::Mlp => 0,
            ProfileRegion::MlpGateUpGemm => 1,
            ProfileRegion::MlpSilu => 2,
            ProfileRegion::MlpDownGemm => 3,
            ProfileRegion::Conv => 4,
            ProfileRegion::ConvInProj => 5,
            ProfileRegion::ConvKernel => 6,
            ProfileRegion::ConvOutProj => 7,
            ProfileRegion::Attention => 8,
            ProfileRegion::AttnQkvProj => 9,
            ProfileRegion::AttnPostprocess => 10,
            ProfileRegion::AttnXqa => 11,
            ProfileRegion::AttnOutProj => 12,
            ProfileRegion::ResidualNorm => 13,
            ProfileRegion::LmHead => 14,
            ProfileRegion::Sampling => 15,
        }
    }

    fn place(self) -> (r: usize)
        ensures
            r == self.rank(),
            r < REGION_COUNT,
            region_order()[r as int] == self,
    {
        match self {
            ProfileRegion::Mlp => 0,
            ProfileRegion::MlpGateUpGemm => 1,
            ProfileRegion::MlpSilu => 2,
            ProfileRegion::MlpDownGemm => 3,
            ProfileRegion::Conv => 4,
            ProfileRegion::ConvInProj => 5,
            ProfileRegion::ConvKernel => 6,
            ProfileRegion::ConvOutProj => 7,
            ProfileRegion::Attention => 8,
            ProfileRegion::AttnQkvProj => 9,
            ProfileRegion::AttnPostprocess => 10,
            ProfileRegion::AttnXqa => 11,
            ProfileRegion::AttnOutProj => 12,
            ProfileRegion::ResidualNorm => 13,
            ProfileRegion::LmHead => 14,
            ProfileRegion::Sampling => 15,
        }
    }
}

fn region_at(index: usize) -> (r: ProfileRegion)
    requires
        index < REGION_COUNT,
    ensures
        r == region_order()[index as int],
        r.rank() == index,
{
    match index {
        0 => ProfileRegion::Mlp,
        1 => ProfileRegion::MlpGateUpGemm,
        2 => ProfileRegion::MlpSilu,
        3 => ProfileRegion::MlpDownGemm,
        4 => ProfileRegion::Conv,
        5 => ProfileRegion::ConvInProj,
        6 => ProfileRegion::ConvKernel,
        7 => ProfileRegion::ConvOutProj,
        8 => ProfileRegion::Attention,
        9 => ProfileRegion::AttnQkvProj,
        10 => ProfileRegion::AttnPostprocess,
        11 => ProfileRegion::AttnXqa,
        12 => ProfileRegion::AttnOutProj,
        13 => ProfileRegion::ResidualNorm,
        14 => ProfileRegion::LmHead,
        _ => ProfileRegion::Sampling,
    }
}

#[derive(Clone, Copy, Debug, PartialEq, Eq, Structural)]
pub enum ProfileError {
    NoStepsRequested,
    StepAlreadyActive,
    StepStillActive,
    NothingMeasured,
    NoStepsMeasured,
}

/// Decides which decode steps are measured and keeps track of the open one. Timing events
/// and their sums are kept by the application.
#[derive(Debug)]
pub struct ModelProfileRecorder {
    mode: DecodeProfileMode,
    step_open: bool,
    pending: Vec<ProfileRegion>,
    measured: Vec<bool>,
    decode_steps: usize,
    seen_steps: usize,
    warmup_steps: usize,
    max_profile_steps: usize,
}

/// The state of a recorder.
#[verifier::ext_equal]
pub struct RecorderView {
    pub mode: DecodeProfileMode,
    /// A measured step is running.
    pub step_open: bool,
    /// Regions timed in the running step, in order.
    pub pending: Seq<ProfileRegion>,
    /// `measured[r.rank()]` says whether region `r` was timed in a finished step.
    pub measured: Seq<bool>,
    pub decode_steps: int,
    pub seen_steps: int,
    pub warmup_steps: int,
    pub max_profile_steps: int,
}

impl View for ModelProfileRecorder {
    type V = RecorderView;

    closed spec fn view(&self) -> RecorderView {
        RecorderView {
            mode: self.mode,
            step_open: self.step_open,
            pending: self.pending@,
            measured: self.measured@,
            decode_steps: self.decode_steps as int,
            seen_steps: self.seen_steps as int,
            warmup_steps: self.warmup_steps as int,
            max_profile_steps: self.max_profile_steps as int,
        }
    }
}

impl RecorderView {
    /// Spans are pending only while a step runs, and no more steps are measured than were
    /// asked for or seen.
    pub open spec fn well_formed(self) -> bool {
        &&& self.mode != DecodeProfileMode::Off
        &&& self.measured.len() == REGION_COUNT
        &&& !self.step_open ==> self.pending.len() == 0
        &&& 0 <= self.decode_steps <= self.max_profile_steps
        &&& self.step_open ==> self.decode_steps < self.max_profile_steps
        &&& self.decode_steps <= self.seen_steps
        &&& self.max_profile_steps > 0
    }

    /// A recorder that has seen no step.
    pub open spec fn fresh(
        mode: DecodeProfileMode,
        warmup_steps: usize,
        max_profile_steps: usize,
    ) -> RecorderView {
        RecorderView {
            mode,
            step_open: false,
            pending: Seq::empty(),
            measured: Seq::new(REGION_COUNT as nat, |i: int| false),
            decode_steps: 0,
            seen_steps: 0,
            warmup_steps: warmup_steps as int,
            max_profile_steps: max_profile_steps as int,
        }
    }

    /// The next step is to be measured: the warm-up is over and steps are still wanted.
    pub open spec fn wants_step(self) -> bool {
        self.seen_steps >= self.warmup_steps && self.decode_steps < self.max_profile_steps
    }

    /// The recorder after a step has begun.
    pub open spec fn started(self) -> RecorderView {
        RecorderView { step_open: self.wants_step(), ..self }
    }

    /// The recorder after a region was timed; outside a measured step nothing is noted.
    pub open spec fn with_region(self, region: ProfileRegion) -> RecorderView {
        RecorderView {
            pending: if self.step_open {
                self.pending.push(region)
            } else {
                self.pending
            },
            ..self
        }
    }

    /// The recorder after the first `upto` regions of a step.
    pub open spec fn with_regions(self, regions: Seq<ProfileRegion>, upto: int) -> RecorderView
        decreases upto,
    {
        if upto <= 0 {
            self
        } else {
            self.with_regions(regions, upto - 1).with_region(regions[upto - 1])
        }
    }

    /// The recorder after a step has ended.
    pub open spec fn finished(self) -> RecorderView {
        RecorderView {
            step_open: false,
            pending: Seq::empty(),
            measured: self.with_pending(),
            decode_steps: self.decode_steps + if self.step_open {
                1int
            } else {
                0int
            },
            seen_steps: self.seen_steps + 1,
            ..self
        }
    }

    /// The recorder after the first `upto` steps, given the regions of each.
    pub open spec fn after_steps(self, regions: Seq<Seq<ProfileRegion>>, upto: int) -> RecorderView
        decreases upto,
    {
        if upto <= 0 {
            self
        } else {
            let step = regions[upto - 1];
            self.after_steps(regions, upto - 1).started().with_regions(
                step,
                step.len() as int,
            ).finished()
        }
    }

    /// The regions timed so far, with those of the running step.
    pub open spec fn with_pending(self) -> Seq<bool> {
        Seq::new(
            self.measured.len(),
            |i: int|
                self.measured[i] || exists|p: int|
                    0 <= p < self.pending.len() && (#[trigger] self.pending[p]).rank() == i,
        )
    }
}

/// The parts of a finished profile.
#[derive(Debug)]
pub struct ProfileParts {
    pub components: Vec<ProfileRegion>,
}

/// The measured regions below rank `upto`, in order.
pub open spec fn measured_regions(measured: Seq<bool>, upto: int) -> Seq<ProfileRegion>
    decreases upto,
{
    if upto <= 0 {
        Seq::empty()
    } else if measured[upto - 1] {
        measured_regions(measured, upto - 1).push(region_order()[upto - 1])
    } else {
        measured_regions(measured, upto - 1)
    }
}

impl ModelProfileRecorder {
    /// A recorder, unless profiling is off.
    pub fn new(mode: DecodeProfileMode, warmup_steps: usize, max_profile_steps: usize) -> (r: Result<
        Option<Self>,
        ProfileError,
    >)
        ensures
            match r {
                Ok(None) => mode == DecodeProfileMode::Off,
                Ok(Some(recorder)) => {
                    &&& mode != DecodeProfileMode::Off
                    &&& max_profile_steps > 0
                    &&& recorder@ == RecorderView::fresh(mode, warmup_steps, max_profile_steps)
                    &&& recorder@.well_formed()
                },
                Err(e) => mode != DecodeProfileMode::Off && max_profile_steps == 0 && e
                    == ProfileError::NoStepsRequested,
            },
    {
        if mode == DecodeProfileMode::Off {
            return Ok(None);
        }
        if max_profile_steps == 0 {
            return Err(ProfileError::NoStepsRequested);
        }
        let mut measured: Vec<bool> = Vec::new();
        measured.resize(REGION_COUNT, false);
        assert(measured@ =~= Seq::new(REGION_COUNT as nat, |i: int| false));
        Ok(
            Some(
                ModelProfileRecorder {
                    mode,
                    step_open: false,
                    pending: Vec::new(),
                    measured,
                    decode_steps: 0,
                    seen_steps: 0,
                    warmup_steps,
                    max_profile_steps,
                },
            ),
        )
    }

    pub fn mode(&self) -> (r: DecodeProfileMode)
        ensures
            r == self@.mode,
    {
        self.mode
    }

    pub fn has_steps(&self) -> (r: bool)
        ensures
            r == (self@.decode_steps > 0),
    {
        self.decode_steps > 0
    }

    /// Whether the running step is measured.
    pub fn is_measuring(&self) -> (r: bool)
        ensures
            r == self@.step_open,
    {
        self.step_open
    }

    /// Begins a step; the answer is whether to record a start event for it.
    pub fn start_step(&mut self) -> (r: Result<bool, ProfileError>)
        requires
            old(self)@.well_formed(),
        ensures
            match r {
                Ok(record) => {
                    &&& !old(self)@.step_open
                    &&& record == old(self)@.wants_step()
                    &&& final(self)@ == old(self)@.started()
                    &&& final(self)@.well_formed()
                },
                Err(e) => old(self)@.step_open && e == ProfileError::StepAlreadyActive
                    && *final(self) == *old(self),
            },
    {
        if self.step_open {
            return Err(ProfileError::StepAlreadyActive);
        }
        let record: bool = self.seen_steps >= self.warmup_steps && self.decode_steps
            < self.max_profile_steps;
        self.step_open = record;
        Ok(record)
    }

    /// Notes a timed region; outside a measured step there is nothing to note.
    pub fn region(&mut self, region: ProfileRegion) -> (r: bool)
        requires
            old(self)@.well_formed(),
        ensures
            r == old(self)@.step_open,
            final(self)@ == old(self)@.with_region(region),
            final(self)@.well_formed(),
    {
        if !self.step_open {
            return false;
        }
        self.pending.push(region);
        true
    }

    /// Ends a step and hands out the regions whose times are to be added up.
    pub fn finish_step(&mut self) -> (r: Vec<ProfileRegion>)
        requires
            old(self)@.well_formed(),
            old(self)@.seen_steps < usize::MAX,
        ensures
            r@ == old(self)@.pending,
            final(self)@ == old(self)@.finished(),
            final(self)@.well_formed(),
    {
        self.seen_steps = self.seen_steps + 1;
        if !self.step_open {
            assert(self.measured@ =~= old(self)@.with_pending());
            return Vec::new();
        }
        let mut spans: Vec<ProfileRegion> = Vec::new();
        let mut index: usize = 0;
        while index < self.pending.len()
            invariant
                index <= self.pending@.len(),
                self.pending@ == old(self)@.pending,
                self.mode == old(self)@.mode,
                self.step_open,
                self.decode_steps == old(self)@.decode_steps,
                self.seen_steps == old(self)@.seen_steps + 1,
                self.warmup_steps == old(self)@.warmup_steps,
                self.max_profile_steps == old(self)@.max_profile_steps,
                old(self)@.measured.len() == REGION_COUNT,
                self.measured@.len() == REGION_COUNT,
                spans@ == self.pending@.take(index as int),
                forall|i: int|
                    0 <= i < REGION_COUNT ==> (#[trigger] self.measured@[i] == (
                    old(self)@.measured[i] || exists|p: int|
                        0 <= p < index && (#[trigger] self.pending@[p]).rank() == i)),
            decreases self.pending@.len() - index,
        {
            let region = self.pending[index];
            let place: usize = region.place();
            let ghost earlier = self.measured@;
            spans.push(region);
            self.measured.set(place, true);
            proof {
                assert(self.pending@.take(index + 1) =~= self.pending@.take(index as int).push(
                    region,
                ));
                assert forall|i: int| 0 <= i < REGION_COUNT implies (#[trigger] self.measured@[i]
                    == (old(self)@.measured[i] || exists|p: int|
                    0 <= p < index + 1 && (#[trigger] self.pending@[p]).rank() == i)) by {
                    if i == place {
                        assert(self.pending@[index as int].rank() == i);
                    } else {
                        assert(self.measured@[i] == earlier[i]);
                        if exists|p: int|
                            0 <= p < index + 1 && (#[trigger] self.pending@[p]).rank() == i {
                            let p = choose|p: int|
                                0 <= p < index + 1 && (#[trigger] self.pending@[p]).rank() == i;
                            assert(p < index);
                        }
                    }
                }
            }
            index = index + 1;
        }
        assert(spans@ =~= self.pending@);
        assert(self.measured@ =~= old(self)@.with_pending());
        self.pending.clear();
        self.decode_steps = self.decode_steps + 1;
        self.step_open = false;
        spans
    }

    /// The regions of the finished profile, in the order of the report.
    pub fn report(self) -> (r: Result<ProfileParts, ProfileError>)
        requires
            self@.well_formed(),
        ensures
            ({
                let nothing = forall|i: int|
                    0 <= i < REGION_COUNT ==> !(#[trigger] self@.measured[i]);
                match r {
                    Ok(parts) => {
                        &&& !self@.step_open
                        &&& !nothing
                        &&& self@.decode_steps > 0
                        &&& parts.components@ == measured_regions(
                            self@.measured,
                            REGION_COUNT as int,
                        )
                    },
                    Err(e) => e == (if self@.step_open {
                        ProfileError::StepStillActive
                    } else if nothing {
                        ProfileError::NothingMeasured
                    } else {
                        ProfileError::NoStepsMeasured
                    }) && (self@.step_open || nothing || self@.decode_steps == 0),
                }
            }),
    {
        if self.step_open {
            return Err(ProfileError::StepStillActive);
        }
        let mut components: Vec<ProfileRegion> = Vec::new();
        let mut index: usize = 0;
        while index < REGION_COUNT
            invariant
                index <= REGION_COUNT,
                self.measured@.len() == REGION_COUNT,
                components@ == measured_regions(self.measured@, index as int),
                components@.len() == 0 <==> forall|i: int|
                    0 <= i < index ==> !(#[trigger] self.measured@[i]),
            decreases REGION_COUNT - index,
        {
            if self.measured[index] {
                components.push(region_at(index));
            }
            index = index + 1;
        }
        if components.len() == 0 {
            return Err(ProfileError::NothingMeasured);
        }
        if self.decode_steps == 0 {
            return Err(ProfileError::NoStepsMeasured);
        }
        Ok(ProfileParts { components })
    }
}

proof fn lemma_regions_change_no_count(before: RecorderView, regions: Seq<ProfileRegion>, upto: int)
    ensures
        ({
            let after = before.with_regions(regions, upto);
            after == (RecorderView { pending: after.pending, ..before })
        }),
    decreases upto,
{
    if upto > 0 {
        lemma_regions_change_no_count(before, regions, upto - 1);
    }
}

/// A run measures as many steps as it should: none while it warms up, then every step until
/// as many as are wanted have been measured, and no more.
pub proof fn recorder_measures_until_satisfied(
    mode: DecodeProfileMode,
    warmup_steps: usize,
    max_profile_steps: usize,
    regions: Seq<Seq<ProfileRegion>>,
    steps: int,
)
    requires
        0 <= steps <= regions.len(),
    ensures
        ({
            let after = RecorderView::fresh(mode, warmup_steps, max_profile_steps).after_steps(
                regions,
                steps,
            );
            &&& !after.step_open
            &&& after.seen_steps == steps
            &&& after.warmup_steps == warmup_steps
            &&& after.max_profile_steps == max_profile_steps
            &&& after.decode_steps == crate::num::min_int(
                crate::num::max_int(steps - warmup_steps, 0),
                max_profile_steps as int,
            )
        }),
    decreases steps,
{
    if steps > 0 {
        recorder_measures_until_satisfied(
            mode,
            warmup_steps,
            max_profile_steps,
            regions,
            steps - 1,
        );
        let before = RecorderView::fresh(mode, warmup_steps, max_profile_steps).after_steps(
            regions,
            steps - 1,
        );
        let step = regions[steps - 1];
        lemma_regions_change_no_count(before.started(), step, step.len() as int);
    }
}

} // verus!
