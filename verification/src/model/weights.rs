//! The model's weights: names, shapes and installed fp8 copies.
use vstd::prelude::*;
use vstd::string::StringExecFns;

use crate::model::quantization::{Fp8PrecisionPolicy, SiteScales};
#[allow(unused_imports)]
use crate::model::quantization::SitePolicyView;
use crate::text::{decimal, text_eq};

verus! {

/// A linear projection: its bf16 shape, and the scales of its fp8 copy if it has one.
#[derive(Clone, Copy, Debug, PartialEq, Eq, Structural)]
pub struct LinearWeight {
    pub rows: usize,
    pub columns: usize,
    pub fp8: Option<SiteScales>,
}

impl LinearWeight {
    /// A projection without an fp8 copy.
    pub fn bf16(rows: usize, columns: usize) -> (r: Self)
        ensures
            r == (LinearWeight { rows, columns, fp8: None }),
    {
        LinearWeight { rows, columns, fp8: None }
    }
}

#[derive(Clone, Copy, Debug, PartialEq, Eq, Structural)]
pub struct ConvWeights {
    pub input: LinearWeight,
    pub convolution_elements: usize,
    pub output: LinearWeight,
}

#[derive(Clone, Copy, Debug, PartialEq, Eq, Structural)]
pub struct AttentionWeights {
    pub query: LinearWeight,
    pub key: LinearWeight,
    pub value: LinearWeight,
    pub output: LinearWeight,
    pub query_norm_elements: usize,
    pub key_norm_elements: usize,
}

#[derive(Clone, Copy, Debug, PartialEq, Eq, Structural)]
pub enum OperatorWeights {
    Conv(ConvWeights),
    Attention(AttentionWeights),
}

#[derive(Clone, Copy, Debug, PartialEq, Eq, Structural)]
pub struct LayerWeights {
    pub operator_norm_elements: usize,
    pub operator: OperatorWeights,
    pub ffn_norm_elements: usize,
    pub gate_up: LinearWeight,
    pub down: LinearWeight,
}

/// All weights. The embedding doubles as the output head.
#[derive(Debug)]
pub struct Lfm2Weights {
    pub embedding: LinearWeight,
    pub final_norm_elements: usize,
    pub inv_freq_elements: usize,
    pub layers: Vec<LayerWeights>,
}

/// The contents of [`Lfm2Weights`].
#[verifier::ext_equal]
pub struct WeightsView {
    pub embedding: LinearWeight,
    pub final_norm_elements: usize,
    pub inv_freq_elements: usize,
    pub layers: Seq<LayerWeights>,
}

impl View for Lfm2Weights {
    type V = WeightsView;

    open spec fn view(&self) -> WeightsView {
        WeightsView {
            embedding: self.embedding,
            final_norm_elements: self.final_norm_elements,
            inv_freq_elements: self.inv_freq_elements,
            layers: self.layers@,
        }
    }
}

/// The linear projections of a layer.
#[derive(Clone, Copy, Debug, PartialEq, Eq, Structural)]
pub enum Projection {
    GateUp,
    Down,
    ConvInput,
    ConvOutput,
    Query,
    Key,
    Value,
    Output,
}

impl Projection {
    pub open spec fn path(self) -> Seq<char> {
        match self {
            Projection::GateUp => ".mlp.gate_up"@,
            Projection::Down => ".mlp.down"@,
            Projection::ConvInput => ".conv.input"@,
            Projection::ConvOutput => ".conv.output"@,
            Projection::Query => ".attention.query"@,
            Projection::Key => ".attention.key"@,
            Projection::Value => ".attention.value"@,
            Projection::Output => ".attention.output"@,
        }
    }

    fn suffix(self) -> (r: &'static str)
        ensures
            r@ == self.path(),
    {
        match self {
            Projection::GateUp => ".mlp.gate_up",
            Projection::Down => ".mlp.down",
            Projection::ConvInput => ".conv.input",
            Projection::ConvOutput => ".conv.output",
            Projection::Query => ".attention.query",
            Projection::Key => ".attention.key",
            Projection::Value => ".attention.value",
            Projection::Output => ".attention.output",
        }
    }

    /// Where the activations of the projection are observed: query, key and value share
    /// their input.
    pub open spec fn input_path(self) -> Seq<char> {
        match self {
            Projection::Query | Projection::Key | Projection::Value => ".attention.qkv"@,
            _ => self.path(),
        }
    }

    fn input_suffix(self) -> (r: &'static str)
        ensures
            r@ == self.input_path(),
    {
        match self {
            Projection::Query | Projection::Key | Projection::Value => ".attention.qkv",
            _ => self.suffix(),
        }
    }
}

/// The name of a place in a layer.
pub open spec fn layer_path(layer: nat, suffix: Seq<char>) -> Seq<char> {
    "layers."@ + crate::text::decimal_text(layer) + suffix
}

/// Builds the name of a place in a layer.
pub fn layer_name(layer: usize, suffix: &str) -> (r: String)
    ensures
        r@ == layer_path(layer as nat, suffix@),
{
    let mut name = "layers.".to_owned();
    let number = decimal(layer as u64);
    name.append(number.as_str());
    name.append(suffix);
    name
}

/// The name of a projection in policies and reports.
pub fn site_name(layer: usize, projection: Projection) -> (r: String)
    ensures
        r@ == layer_path(layer as nat, projection.path()),
{
    layer_name(layer, projection.suffix())
}

/// The name of a projection's weight in calibration.
pub fn weight_name(layer: usize, projection: Projection) -> (r: String)
    ensures
        r@ == layer_path(layer as nat, projection.path()) + ".weight"@,
{
    let mut name = site_name(layer, projection);
    name.append(".weight");
    name
}

/// The name of a projection's activations in calibration.
pub fn input_name(layer: usize, projection: Projection) -> (r: String)
    ensures
        r@ == layer_path(layer as nat, projection.input_path()) + ".input"@,
{
    let mut name = layer_name(layer, projection.input_suffix());
    name.append(".input");
    name
}

impl LayerWeights {
    /// The projections of the layer's operator, in order.
    pub open spec fn operator_projections(self) -> Seq<Projection> {
        match self.operator {
            OperatorWeights::Conv(_) => seq![Projection::ConvInput, Projection::ConvOutput],
            OperatorWeights::Attention(_) => seq![
                Projection::Query,
                Projection::Key,
                Projection::Value,
                Projection::Output,
            ],
        }
    }

    /// All projections of the layer: feed-forward first.
    pub open spec fn projections(self) -> Seq<Projection> {
        seq![Projection::GateUp, Projection::Down] + self.operator_projections()
    }

    pub open spec fn has_projection(self, projection: Projection) -> bool {
        match projection {
            Projection::GateUp | Projection::Down => true,
            Projection::ConvInput | Projection::ConvOutput => self.operator is Conv,
            _ => self.operator is Attention,
        }
    }

    pub open spec fn linear(self, projection: Projection) -> LinearWeight {
        match projection {
            Projection::GateUp => self.gate_up,
            Projection::Down => self.down,
            Projection::ConvInput => self.operator->Conv_0.input,
            Projection::ConvOutput => self.operator->Conv_0.output,
            Projection::Query => self.operator->Attention_0.query,
            Projection::Key => self.operator->Attention_0.key,
            Projection::Value => self.operator->Attention_0.value,
            Projection::Output => self.operator->Attention_0.output,
        }
    }

    pub fn projection_list(&self) -> (r: Vec<Projection>)
        ensures
            r@ == self.projections(),
    {
        let mut r: Vec<Projection> = Vec::new();
        r.push(Projection::GateUp);
        r.push(Projection::Down);
        match self.operator {
            OperatorWeights::Conv(_) => {
                r.push(Projection::ConvInput);
                r.push(Projection::ConvOutput);
            },
            OperatorWeights::Attention(_) => {
                r.push(Projection::Query);
                r.push(Projection::Key);
                r.push(Projection::Value);
                r.push(Projection::Output);
            },
        }
        assert(r@ =~= self.projections());
        r
    }

    pub fn weight(&self, projection: Projection) -> (r: LinearWeight)
        requires
            self.has_projection(projection),
        ensures
            r == self.linear(projection),
    {
        match projection {
            Projection::GateUp => self.gate_up,
            Projection::Down => self.down,
            _ => match self.operator {
                OperatorWeights::Conv(conv) => match projection {
                    Projection::ConvInput => conv.input,
                    _ => conv.output,
                },
                OperatorWeights::Attention(attention) => match projection {
                    Projection::Query => attention.query,
                    Projection::Key => attention.key,
                    Projection::Value => attention.value,
                    _ => attention.output,
                },
            },
        }
    }

    /// The layer has an fp8 copy of some projection.
    pub open spec fn has_fp8(self) -> bool {
        ||| self.gate_up.fp8 is Some
        ||| self.down.fp8 is Some
        ||| match self.operator {
            OperatorWeights::Conv(conv) => conv.input.fp8 is Some || conv.output.fp8 is Some,
            OperatorWeights::Attention(attention) => attention.query.fp8 is Some
                || attention.key.fp8 is Some || attention.value.fp8 is Some
                || attention.output.fp8 is Some,
        }
    }

    fn any_fp8(&self) -> (r: bool)
        ensures
            r == self.has_fp8(),
    {
        self.gate_up.fp8.is_some() || self.down.fp8.is_some() || match self.operator {
            OperatorWeights::Conv(conv) => conv.input.fp8.is_some() || conv.output.fp8.is_some(),
            OperatorWeights::Attention(attention) => attention.query.fp8.is_some()
                || attention.key.fp8.is_some() || attention.value.fp8.is_some()
                || attention.output.fp8.is_some(),
        }
    }
}

/// The projections of a layer name themselves: each of them is there.
pub proof fn listed_projections_exist(layer: LayerWeights, index: int)
    requires
        0 <= index < layer.projections().len(),
    ensures
        layer.has_projection(layer.projections()[index]),
{
}

impl WeightsView {
    pub open spec fn has_fp8(self) -> bool {
        self.embedding.fp8 is Some || exists|i: int|
            0 <= i < self.layers.len() && (#[trigger] self.layers[i]).has_fp8()
    }
}

impl Lfm2Weights {
    /// Whether any projection, or the head, has an fp8 copy.
    pub fn has_installed_fp8_weights(&self) -> (r: bool)
        ensures
            r == self@.has_fp8(),
    {
        if self.embedding.fp8.is_some() {
            return true;
        }
        let mut index: usize = 0;
        while index < self.layers.len()
            invariant
                index <= self.layers@.len(),
                forall|i: int| 0 <= i < index ==> !(#[trigger] self.layers@[i]).has_fp8(),
            decreases self.layers@.len() - index,
        {
            if self.layers[index].any_fp8() {
                assert(self@.layers[index as int].has_fp8());
                return true;
            }
            index = index + 1;
        }
        false
    }
}

/// Sum that sticks to the largest machine integer.
pub open spec fn capped_sum(a: int, b: int) -> int {
    crate::num::min_int(a + b, usize::MAX as int)
}

/// Product that sticks to the largest machine integer.
pub open spec fn capped_product(a: int, b: int) -> int {
    crate::num::min_int(a * b, usize::MAX as int)
}

fn product(a: usize, b: usize) -> (r: usize)
    ensures
        r == capped_product(a as int, b as int),
{
    match a.checked_mul(b) {
        Some(value) => value,
        None => usize::MAX,
    }
}

impl LinearWeight {
    /// Bytes of the bf16 weight and of its fp8 copy.
    pub open spec fn bytes(self) -> int {
        let elements = capped_product(self.rows as int, self.columns as int);
        capped_sum(
            capped_product(elements, 2),
            if self.fp8 is Some {
                elements
            } else {
                0
            },
        )
    }

    fn resident_bytes(self) -> (r: usize)
        ensures
            r == self.bytes(),
    {
        let elements: usize = product(self.rows, self.columns);
        let copy: usize = if self.fp8.is_some() {
            elements
        } else {
            0
        };
        product(elements, 2).saturating_add(copy)
    }
}

impl LayerWeights {
    /// Bytes of everything in the layer.
    pub open spec fn bytes(self) -> int {
        let norms = capped_sum(
            capped_product(self.operator_norm_elements as int, 2),
            capped_product(self.ffn_norm_elements as int, 2),
        );
        let mlp = capped_sum(capped_sum(norms, self.gate_up.bytes()), self.down.bytes());
        match self.operator {
            OperatorWeights::Conv(conv) => capped_sum(
                capped_sum(
                    capped_sum(mlp, conv.input.bytes()),
                    capped_product(conv.convolution_elements as int, 2),
                ),
                conv.output.bytes(),
            ),
            OperatorWeights::Attention(attention) => {
                let qk = capped_sum(capped_sum(mlp, attention.query.bytes()), attention.key.bytes());
                let vo = capped_sum(capped_sum(qk, attention.value.bytes()), attention.output.bytes());
                capped_sum(
                    capped_sum(vo, capped_product(attention.query_norm_elements as int, 2)),
                    capped_product(attention.key_norm_elements as int, 2),
                )
            },
        }
    }

    fn resident_bytes(&self) -> (r: usize)
        ensures
            r == self.bytes(),
    {
        let norms: usize = product(self.operator_norm_elements, 2).saturating_add(
            product(self.ffn_norm_elements, 2),
        );
        let mlp: usize = norms.saturating_add(self.gate_up.resident_bytes()).saturating_add(
            self.down.resident_bytes(),
        );
        match self.operator {
            OperatorWeights::Conv(conv) => mlp.saturating_add(
                conv.input.resident_bytes(),
            ).saturating_add(product(conv.convolution_elements, 2)).saturating_add(
                conv.output.resident_bytes(),
            ),
            OperatorWeights::Attention(attention) => mlp.saturating_add(
                attention.query.resident_bytes(),
            ).saturating_add(attention.key.resident_bytes()).saturating_add(
                attention.value.resident_bytes(),
            ).saturating_add(attention.output.resident_bytes()).saturating_add(
                product(attention.query_norm_elements, 2),
            ).saturating_add(product(attention.key_norm_elements, 2)),
        }
    }
}

impl WeightsView {
    /// Bytes of everything outside the layers: embedding and final norm in bf16, the
    /// rotary frequencies in single precision, and the fp8 copy of the head.
    pub open spec fn global_bytes(self) -> int {
        let elements = capped_product(self.embedding.rows as int, self.embedding.columns as int);
        capped_sum(
            capped_sum(
                capped_sum(
                    capped_product(elements, 2),
                    capped_product(self.final_norm_elements as int, 2),
                ),
                capped_product(self.inv_freq_elements as int, 4),
            ),
            if self.embedding.fp8 is Some {
                elements
            } else {
                0
            },
        )
    }

    /// Bytes of everything up to layer `upto`.
    pub open spec fn bytes(self, upto: int) -> int
        decreases upto,
    {
        if upto <= 0 {
            self.global_bytes()
        } else {
            capped_sum(self.bytes(upto - 1), self.layers[upto - 1].bytes())
        }
    }
}

impl Lfm2Weights {
    /// Bytes of all weights on the device.
    pub fn resident_weight_bytes(&self) -> (r: usize)
        ensures
            r == self@.bytes(self@.layers.len() as int),
    {
        let elements: usize = product(self.embedding.rows, self.embedding.columns);
        let head: usize = if self.embedding.fp8.is_some() {
            elements
        } else {
            0
        };
        let mut bytes: usize = product(elements, 2).saturating_add(
            product(self.final_norm_elements, 2),
        ).saturating_add(product(self.inv_freq_elements, 4)).saturating_add(head);
        let mut index: usize = 0;
        while index < self.layers.len()
            invariant
                index <= self.layers@.len(),
                bytes == self@.bytes(index as int),
            decreases self.layers@.len() - index,
        {
            bytes = bytes.saturating_add(self.layers[index].resident_bytes());
            index = index + 1;
        }
        bytes
    }
}

#[derive(Clone, Copy, Debug, PartialEq, Eq, Structural)]
pub enum PolicyError {
    /// The policy also covers prefill, which stays in bf16.
    NotDecodeOnly,
    /// Two entries are for the same site; `index` is the later one.
    DuplicateSite { index: usize },
    /// The fp8 batch limit is zero.
    EmptyBatch,
    /// No fp8 weight is installed.
    NothingInstalled,
    /// The fp8 batch limit is larger than what was prepared.
    BatchNotPrepared,
}

/// The scales that the policy enables for a site.
pub open spec fn enabled_scales(sites: Seq<SitePolicyView>, name: Seq<char>) -> Option<SiteScales>
    decreases sites.len(),
{
    if sites.len() == 0 {
        None
    } else if sites.last().site == name {
        if sites.last().enabled {
            Some(sites.last().scales)
        } else {
            None
        }
    } else {
        enabled_scales(sites.drop_last(), name)
    }
}

/// `index` repeats the site of an earlier entry.
pub open spec fn repeats_site(sites: Seq<SitePolicyView>, index: int) -> bool {
    exists|j: int| 0 <= j < index && (#[trigger] sites[j]).site == sites[index].site
}

pub open spec fn sites_are_distinct(sites: Seq<SitePolicyView>) -> bool {
    forall|i: int| 0 <= i < sites.len() ==> !#[trigger] repeats_site(sites, i)
}

/// The projection with the fp8 copy that the policy asks for, and no other.
pub open spec fn with_policy(weight: LinearWeight, sites: Seq<SitePolicyView>, name: Seq<char>) -> LinearWeight {
    LinearWeight { fp8: enabled_scales(sites, name), ..weight }
}

pub open spec fn layer_with_policy(layer: LayerWeights, index: nat, sites: Seq<SitePolicyView>) -> LayerWeights {
    LayerWeights {
        gate_up: with_policy(layer.gate_up, sites, layer_path(index, ".mlp.gate_up"@)),
        down: with_policy(layer.down, sites, layer_path(index, ".mlp.down"@)),
        operator: match layer.operator {
            OperatorWeights::Conv(conv) => OperatorWeights::Conv(
                ConvWeights {
                    input: with_policy(conv.input, sites, layer_path(index, ".conv.input"@)),
                    output: with_policy(conv.output, sites, layer_path(index, ".conv.output"@)),
                    ..conv
                },
            ),
            OperatorWeights::Attention(attention) => OperatorWeights::Attention(
                AttentionWeights {
                    query: with_policy(
                        attention.query,
                        sites,
                        layer_path(index, ".attention.query"@),
                    ),
                    key: with_policy(attention.key, sites, layer_path(index, ".attention.key"@)),
                    value: with_policy(
                        attention.value,
                        sites,
                        layer_path(index, ".attention.value"@),
                    ),
                    output: with_policy(
                        attention.output,
                        sites,
                        layer_path(index, ".attention.output"@),
                    ),
                    ..attention
                },
            ),
        },
        ..layer
    }
}

pub open spec fn weights_with_policy(weights: WeightsView, sites: Seq<SitePolicyView>) -> WeightsView {
    WeightsView {
        embedding: with_policy(weights.embedding, sites, "lm_head"@),
        layers: Seq::new(
            weights.layers.len(),
            |i: int| layer_with_policy(weights.layers[i], i as nat, sites),
        ),
        ..weights
    }
}

/// One for a projection with an fp8 copy.
pub open spec fn fp8_count(weight: LinearWeight) -> int {
    if weight.fp8 is Some {
        1
    } else {
        0
    }
}

impl LayerWeights {
    pub open spec fn fp8_sites(self) -> int {
        fp8_count(self.gate_up) + fp8_count(self.down) + match self.operator {
            OperatorWeights::Conv(conv) => fp8_count(conv.input) + fp8_count(conv.output),
            OperatorWeights::Attention(attention) => fp8_count(attention.query) + fp8_count(
                attention.key,
            ) + fp8_count(attention.value) + fp8_count(attention.output),
        }
    }
}

/// The number of fp8 copies in the layers.
pub open spec fn fp8_sites(layers: Seq<LayerWeights>) -> int
    decreases layers.len(),
{
    if layers.len() == 0 {
        0
    } else {
        fp8_sites(layers.drop_last()) + layers.last().fp8_sites()
    }
}

fn find_enabled(policy: &Fp8PrecisionPolicy, name: &str) -> (r: Option<SiteScales>)
    requires
        sites_are_distinct(policy@.sites),
    ensures
        r == enabled_scales(policy@.sites, name@),
{
    let mut index: usize = policy.sites.len();
    assert(policy@.sites.take(index as int) =~= policy@.sites);
    while index > 0
        invariant
            index <= policy.sites@.len(),
            enabled_scales(policy@.sites, name@) == enabled_scales(
                policy@.sites.take(index as int),
                name@,
            ),
        decreases index,
    {
        let ghost upto = policy@.sites.take(index as int);
        index = index - 1;
        assert(upto.drop_last() =~= policy@.sites.take(index as int));
        assert(upto.last() == policy.sites@[index as int]@);
        if text_eq(policy.sites[index].site.as_str(), name) {
            if policy.sites[index].enabled {
                return Some(policy.sites[index].scales());
            }
            return None;
        }
    }
    assert(policy@.sites.take(0) =~= Seq::<SitePolicyView>::empty());
    None
}

fn first_repeated_site(policy: &Fp8PrecisionPolicy) -> (r: Option<usize>)
    ensures
        match r {
            Some(index) => {
                &&& index < policy@.sites.len()
                &&& repeats_site(policy@.sites, index as int)
                &&& forall|i: int| 0 <= i < index ==> !#[trigger] repeats_site(policy@.sites, i)
            },
            None => sites_are_distinct(policy@.sites),
        },
{
    let mut index: usize = 0;
    while index < policy.sites.len()
        invariant
            index <= policy.sites@.len(),
            forall|i: int| 0 <= i < index ==> !#[trigger] repeats_site(policy@.sites, i),
        decreases policy.sites@.len() - index,
    {
        let mut earlier: usize = 0;
        while earlier < index
            invariant
                earlier <= index < policy.sites@.len(),
                forall|i: int| 0 <= i < index ==> !#[trigger] repeats_site(policy@.sites, i),
                forall|j: int|
                    0 <= j < earlier ==> (#[trigger] policy@.sites[j]).site
                        != policy@.sites[index as int].site,
            decreases index - earlier,
        {
            if text_eq(policy.sites[earlier].site.as_str(), policy.sites[index].site.as_str()) {
                assert(policy@.sites[earlier as int].site == policy@.sites[index as int].site);
                assert(repeats_site(policy@.sites, index as int));
                return Some(index);
            }
            earlier = earlier + 1;
        }
        index = index + 1;
    }
    None
}

fn installed(weight: LinearWeight, policy: &Fp8PrecisionPolicy, layer: usize, projection: Projection) -> (r:
    LinearWeight)
    requires
        sites_are_distinct(policy@.sites),
    ensures
        r == with_policy(weight, policy@.sites, layer_path(layer as nat, projection.path())),
{
    let name = site_name(layer, projection);
    LinearWeight {
        rows: weight.rows,
        columns: weight.columns,
        fp8: find_enabled(policy, name.as_str()),
    }
}

fn installed_layer(layer: &LayerWeights, index: usize, policy: &Fp8PrecisionPolicy) -> (r: LayerWeights)
    requires
        sites_are_distinct(policy@.sites),
    ensures
        r == layer_with_policy(*layer, index as nat, policy@.sites),
{
    let operator = match layer.operator {
        OperatorWeights::Conv(conv) => OperatorWeights::Conv(
            ConvWeights {
                input: installed(conv.input, policy, index, Projection::ConvInput),
                output: installed(conv.output, policy, index, Projection::ConvOutput),
                convolution_elements: conv.convolution_elements,
            },
        ),
        OperatorWeights::Attention(attention) => OperatorWeights::Attention(
            AttentionWeights {
                query: installed(attention.query, policy, index, Projection::Query),
                key: installed(attention.key, policy, index, Projection::Key),
                value: installed(attention.value, policy, index, Projection::Value),
                output: installed(attention.output, policy, index, Projection::Output),
                query_norm_elements: attention.query_norm_elements,
                key_norm_elements: attention.key_norm_elements,
            },
        ),
    };
    LayerWeights {
        operator_norm_elements: layer.operator_norm_elements,
        operator,
        ffn_norm_elements: layer.ffn_norm_elements,
        gate_up: installed(layer.gate_up, policy, index, Projection::GateUp),
        down: installed(layer.down, policy, index, Projection::Down),
    }
}

fn one_if(present: bool) -> (r: usize)
    ensures
        r == (if present {
            1int
        } else {
            0
        }),
{
    if present {
        1
    } else {
        0
    }
}

fn count_fp8(layer: &LayerWeights) -> (r: usize)
    ensures
        r == layer.fp8_sites(),
        r <= 6,
{
    let mlp: usize = one_if(layer.gate_up.fp8.is_some()) + one_if(layer.down.fp8.is_some());
    let operator: usize = match layer.operator {
        OperatorWeights::Conv(conv) => one_if(conv.input.fp8.is_some()) + one_if(
            conv.output.fp8.is_some(),
        ),
        OperatorWeights::Attention(attention) => one_if(attention.query.fp8.is_some()) + one_if(
            attention.key.fp8.is_some(),
        ) + one_if(attention.value.fp8.is_some()) + one_if(attention.output.fp8.is_some()),
    };
    mlp + operator
}

/// The model: weights and the switches of its fp8 decode path.
#[derive(Debug)]
pub struct Lfm2Model {
    pub weights: Lfm2Weights,
    pub decode_fp8_enabled: bool,
    pub fused_rms_fp8_enabled: bool,
    pub maximum_fp8_batch: usize,
}

impl Lfm2Model {
    /// Fp8 decoding is on only with something installed, and some batch is allowed.
    pub open spec fn well_formed(self) -> bool {
        &&& self.decode_fp8_enabled ==> self.weights@.has_fp8()
        &&& self.maximum_fp8_batch > 0
    }

    /// A model as it is loaded: all bf16.
    pub fn new(weights: Lfm2Weights, fused_rms_fp8_enabled: bool) -> (r: Self)
        ensures
            r.weights == weights,
            !r.decode_fp8_enabled,
            r.fused_rms_fp8_enabled == fused_rms_fp8_enabled,
            r.maximum_fp8_batch == 1,
            r.well_formed(),
    {
        Lfm2Model { weights, decode_fp8_enabled: false, fused_rms_fp8_enabled, maximum_fp8_batch: 1 }
    }

    /// Installs the fp8 copies that a policy asks for, in place of all earlier ones, and
    /// says how many there are.
    pub fn install_fp8_policy(&mut self, policy: &Fp8PrecisionPolicy) -> (r: Result<
        usize,
        PolicyError,
    >)
        requires
            old(self).weights@.layers.len() < usize::MAX / 8,
        ensures
            match r {
                Ok(enabled) => {
                    &&& policy@.decode_only
                    &&& sites_are_distinct(policy@.sites)
                    &&& final(self).weights@ == weights_with_policy(
                        old(self).weights@,
                        policy@.sites,
                    )
                    &&& enabled == fp8_sites(final(self).weights@.layers) + fp8_count(
                        final(self).weights@.embedding,
                    )
                    &&& final(self).decode_fp8_enabled == (enabled > 0)
                    &&& final(self).maximum_fp8_batch == 1
                    &&& final(self).fused_rms_fp8_enabled == old(self).fused_rms_fp8_enabled
                    &&& final(self).well_formed()
                },
                Err(e) => {
                    &&& *final(self) == *old(self)
                    &&& match e {
                        PolicyError::NotDecodeOnly => !policy@.decode_only,
                        PolicyError::DuplicateSite { index } => policy@.decode_only && index
                            < policy@.sites.len() && repeats_site(policy@.sites, index as int)
                            && forall|i: int|
                            0 <= i < index ==> !#[trigger] repeats_site(policy@.sites, i),
                        _ => false,
                    }
                },
            },
    {
        if !policy.decode_only {
            return Err(PolicyError::NotDecodeOnly);
        }
        if let Some(index) = first_repeated_site(policy) {
            return Err(PolicyError::DuplicateSite { index });
        }
        let ghost before = self.weights@;
        let ghost target = weights_with_policy(before, policy@.sites);
        let mut enabled: usize = 0;
        let mut index: usize = 0;
        assert(self.weights.layers@.take(0) =~= Seq::<LayerWeights>::empty());
        while index < self.weights.layers.len()
            invariant
                index <= before.layers.len(),
                before.layers.len() < usize::MAX / 8,
                before == old(self).weights@,
                target == weights_with_policy(before, policy@.sites),
                sites_are_distinct(policy@.sites),
                self.weights.layers@.len() == before.layers.len(),
                self.weights.embedding == before.embedding,
                self.weights.final_norm_elements == before.final_norm_elements,
                self.weights.inv_freq_elements == before.inv_freq_elements,
                self.fused_rms_fp8_enabled == old(self).fused_rms_fp8_enabled,
                forall|i: int|
                    0 <= i < index ==> #[trigger] self.weights.layers@[i] == target.layers[i],
                forall|i: int|
                    index <= i < before.layers.len() ==> #[trigger] self.weights.layers@[i]
                        == before.layers[i],
                enabled <= 6 * index,
                enabled == fp8_sites(self.weights.layers@.take(index as int)),
                enabled > 0 <==> exists|i: int|
                    0 <= i < index && (#[trigger] self.weights.layers@[i]).has_fp8(),
            decreases before.layers.len() - index,
        {
            let layer = installed_layer(&self.weights.layers[index], index, policy);
            let count: usize = count_fp8(&layer);
            let ghost earlier = self.weights.layers@;
            self.weights.layers.set(index, layer);
            proof {
                let now = self.weights.layers@;
                assert(now.take(index + 1).drop_last() =~= earlier.take(index as int));
                assert(now.take(index + 1).last() == layer);
                assert(count > 0 <==> layer.has_fp8());
                assert(now[index as int] == layer);
                if exists|i: int| 0 <= i < index && (#[trigger] earlier[i]).has_fp8() {
                    let i = choose|i: int| 0 <= i < index && (#[trigger] earlier[i]).has_fp8();
                    assert(now[i].has_fp8());
                }
                if exists|i: int| 0 <= i < index + 1 && (#[trigger] now[i]).has_fp8() {
                    let i = choose|i: int| 0 <= i < index + 1 && (#[trigger] now[i]).has_fp8();
                    if i < index {
                        assert(earlier[i].has_fp8());
                    }
                }
            }
            enabled = enabled + count;
            index = index + 1;
        }
        self.weights.embedding.fp8 = find_enabled(policy, "lm_head");
        enabled = enabled + one_if(self.weights.embedding.fp8.is_some());
        proof {
            assert(self.weights.layers@.take(index as int) =~= self.weights.layers@);
            assert(self.weights@ =~= target);
        }
        self.decode_fp8_enabled = enabled > 0;
        self.maximum_fp8_batch = 1;
        Ok(enabled)
    }

    /// Allows smaller fp8 batches than were prepared.
    pub fn restrict_fp8_batch(&mut self, maximum_batch: usize) -> (r: Result<(), PolicyError>)
        ensures
            match r {
                Ok(()) => 0 < maximum_batch <= old(self).maximum_fp8_batch && *final(self) == (
                Lfm2Model { maximum_fp8_batch: maximum_batch, ..*old(self) }),
                Err(e) => *final(self) == *old(self) && e == (if maximum_batch == 0 {
                    PolicyError::EmptyBatch
                } else {
                    PolicyError::BatchNotPrepared
                }) && (maximum_batch == 0 || maximum_batch > old(self).maximum_fp8_batch),
            },
    {
        if maximum_batch == 0 {
            return Err(PolicyError::EmptyBatch);
        }
        if maximum_batch > self.maximum_fp8_batch {
            return Err(PolicyError::BatchNotPrepared);
        }
        self.maximum_fp8_batch = maximum_batch;
        Ok(())
    }

    /// Turns fp8 decoding on or off; it needs installed weights to be turned on.
    pub fn set_decode_fp8_enabled(&mut self, enabled: bool) -> (r: Result<(), PolicyError>)
        ensures
            match r {
                Ok(()) => (enabled ==> old(self).weights@.has_fp8()) && *final(self) == (Lfm2Model {
                    decode_fp8_enabled: enabled,
                    ..*old(self)
                }),
                Err(e) => enabled && !old(self).weights@.has_fp8() && *final(self) == *old(self)
                    && e == PolicyError::NothingInstalled,
            },
            old(self).well_formed() ==> final(self).well_formed(),
    {
        if enabled && !self.weights.has_installed_fp8_weights() {
            return Err(PolicyError::NothingInstalled);
        }
        self.decode_fp8_enabled = enabled;
        Ok(())
    }

    pub fn set_fused_rms_fp8_enabled(&mut self, enabled: bool)
        ensures
            *final(self) == (Lfm2Model { fused_rms_fp8_enabled: enabled, ..*old(self) }),
    {
        self.fused_rms_fp8_enabled = enabled;
    }
}

/// One matrix product to prepare a plan for.
#[derive(Clone, Copy, Debug, PartialEq, Eq, Structural)]
pub struct GemmShape {
    pub batch: usize,
    pub rows: usize,
    pub columns: usize,
}

/// The product of a projection, if it has an fp8 copy.
pub open spec fn fp8_shape(batch: usize, weight: LinearWeight) -> Seq<GemmShape> {
    if weight.fp8 is Some {
        seq![GemmShape { batch, rows: weight.rows, columns: weight.columns }]
    } else {
        Seq::empty()
    }
}

/// The fp8 products of the first `upto` listed projections of a layer.
pub open spec fn layer_shapes(batch: usize, layer: LayerWeights, upto: int) -> Seq<GemmShape>
    decreases upto,
{
    if upto <= 0 {
        Seq::empty()
    } else {
        layer_shapes(batch, layer, upto - 1) + fp8_shape(
            batch,
            layer.linear(layer.projections()[upto - 1]),
        )
    }
}

/// The fp8 products of the first `upto` layers.
pub open spec fn layers_shapes(batch: usize, layers: Seq<LayerWeights>, upto: int) -> Seq<GemmShape>
    decreases upto,
{
    if upto <= 0 {
        Seq::empty()
    } else {
        layers_shapes(batch, layers, upto - 1) + layer_shapes(
            batch,
            layers[upto - 1],
            layers[upto - 1].projections().len() as int,
        )
    }
}

/// The fp8 products of every batch up to `maximum`: all layers, then the head.
pub open spec fn batched_shapes(weights: WeightsView, maximum: int) -> Seq<GemmShape>
    decreases maximum,
{
    if maximum <= 0 {
        Seq::empty()
    } else {
        batched_shapes(weights, maximum - 1) + layers_shapes(
            maximum as usize,
            weights.layers,
            weights.layers.len() as int,
        ) + fp8_shape(maximum as usize, weights.embedding)
    }
}

fn push_shape(shapes: &mut Vec<GemmShape>, batch: usize, weight: LinearWeight)
    ensures
        final(shapes)@ == old(shapes)@ + fp8_shape(batch, weight),
{
    if weight.fp8.is_some() {
        shapes.push(GemmShape { batch, rows: weight.rows, columns: weight.columns });
    }
    assert(shapes@ =~= old(shapes)@ + fp8_shape(batch, weight));
}

impl Lfm2Weights {
    /// Every fp8 product of batches up to `maximum`, in the order of preparation.
    pub fn fp8_gemm_shapes(&self, maximum: usize) -> (r: Vec<GemmShape>)
        ensures
            r@ == batched_shapes(self@, maximum as int),
    {
        let mut shapes: Vec<GemmShape> = Vec::new();
        let mut done: usize = 0;
        while done < maximum
            invariant
                done <= maximum,
                shapes@ == batched_shapes(self@, done as int),
            decreases maximum - done,
        {
            let batch: usize = done + 1;
            let ghost start = shapes@;
            let mut index: usize = 0;
            assert(start + Seq::<GemmShape>::empty() =~= start);
            while index < self.layers.len()
                invariant
                    index <= self.layers@.len(),
                    shapes@ == start + layers_shapes(batch, self.layers@, index as int),
                decreases self.layers@.len() - index,
            {
                let layer = &self.layers[index];
                let projections = layer.projection_list();
                let ghost before = shapes@;
                let mut listed: usize = 0;
                assert(before + Seq::<GemmShape>::empty() =~= before);
                while listed < projections.len()
                    invariant
                        listed <= projections@.len(),
                        projections@ == layer.projections(),
                        shapes@ == before + layer_shapes(batch, *layer, listed as int),
                    decreases projections@.len() - listed,
                {
                    proof {
                        listed_projections_exist(*layer, listed as int);
                    }
                    let ghost now = shapes@;
                    push_shape(&mut shapes, batch, layer.weight(projections[listed]));
                    listed = listed + 1;
                    assert(shapes@ =~= before + layer_shapes(batch, *layer, listed as int));
                }
                index = index + 1;
                assert(shapes@ =~= start + layers_shapes(batch, self.layers@, index as int));
            }
            push_shape(&mut shapes, batch, self.embedding);
            done = done + 1;
            assert(shapes@ =~= batched_shapes(self@, done as int));
        }
        shapes
    }
}

impl Lfm2Model {
    /// Lists the products to prepare for fp8 batches of up to `maximum_batch` tokens, and
    /// allows such batches.
    pub fn prepare_batched_fp8(&mut self, maximum_batch: usize) -> (r: Result<
        Vec<GemmShape>,
        PolicyError,
    >)
        ensures
            match r {
                Ok(shapes) => {
                    &&& maximum_batch > 0
                    &&& old(self).weights@.has_fp8()
                    &&& shapes@ == batched_shapes(old(self).weights@, maximum_batch as int)
                    &&& *final(self) == (Lfm2Model {
                        maximum_fp8_batch: maximum_batch,
                        ..*old(self)
                    })
                },
                Err(e) => *final(self) == *old(self) && e == (if maximum_batch == 0 {
                    PolicyError::EmptyBatch
                } else {
                    PolicyError::NothingInstalled
                }) && (maximum_batch == 0 || !old(self).weights@.has_fp8()),
            },
    {
        if maximum_batch == 0 {
            return Err(PolicyError::EmptyBatch);
        }
        if !self.weights.has_installed_fp8_weights() {
            return Err(PolicyError::NothingInstalled);
        }
        let shapes = self.weights.fp8_gemm_shapes(maximum_batch);
        self.maximum_fp8_batch = maximum_batch;
        Ok(shapes)
    }

    /// The products to prepare for a decode executor: none while fp8 decoding is off.
    pub fn prepare_decode_executor_fp8(&self, maximum_batch: usize) -> (r: Vec<GemmShape>)
        ensures
            r@ == (if self.decode_fp8_enabled {
                batched_shapes(self.weights@, maximum_batch as int)
            } else {
                Seq::empty()
            }),
    {
        if !self.decode_fp8_enabled {
            return Vec::new();
        }
        self.weights.fp8_gemm_shapes(maximum_batch)
    }
}

/// The sites to characterise: the feed-forward projections of every layer, the head, and
/// the operator projections of every layer.
#[derive(Clone, Copy, Debug, PartialEq, Eq, Structural)]
pub enum WeightSite {
    Layer { layer: usize, projection: Projection },
    LmHead,
}

pub open spec fn mlp_sites(layers: int) -> Seq<WeightSite>
    decreases layers,
{
    if layers <= 0 {
        Seq::empty()
    } else {
        mlp_sites(layers - 1).push(
            WeightSite::Layer { layer: (layers - 1) as usize, projection: Projection::GateUp },
        ).push(WeightSite::Layer { layer: (layers - 1) as usize, projection: Projection::Down })
    }
}

pub open spec fn operator_sites(layers: Seq<LayerWeights>, upto: int) -> Seq<WeightSite>
    decreases upto,
{
    if upto <= 0 {
        Seq::empty()
    } else {
        let listed = layers[upto - 1].operator_projections();
        operator_sites(layers, upto - 1) + Seq::new(
            listed.len(),
            |i: int| WeightSite::Layer { layer: (upto - 1) as usize, projection: listed[i] },
        )
    }
}

pub open spec fn characterized_sites(layers: Seq<LayerWeights>) -> Seq<WeightSite> {
    mlp_sites(layers.len() as int).push(WeightSite::LmHead) + operator_sites(
        layers,
        layers.len() as int,
    )
}

/// The model has another number of sites than the checkpoint it is made for.
#[derive(Clone, Copy, Debug, PartialEq, Eq, Structural)]
pub struct SiteCountMismatch {
    pub sites: usize,
}

/// The number of linear projections of the checkpoint, the head included.
pub const CHARACTERIZED_SITES: usize = 77;

impl Lfm2Weights {
    /// The sites whose fp8 products are characterised, in order.
    pub fn sites_to_characterize(&self) -> (r: Result<Vec<WeightSite>, SiteCountMismatch>)
        ensures
            match r {
                Ok(sites) => sites@ == characterized_sites(self@.layers) && sites@.len()
                    == CHARACTERIZED_SITES,
                Err(e) => e.sites == characterized_sites(self@.layers).len() && e.sites
                    != CHARACTERIZED_SITES,
            },
    {
        let mut sites: Vec<WeightSite> = Vec::new();
        let mut layer: usize = 0;
        while layer < self.layers.len()
            invariant
                layer <= self.layers@.len(),
                sites@ == mlp_sites(layer as int),
            decreases self.layers@.len() - layer,
        {
            sites.push(WeightSite::Layer { layer, projection: Projection::GateUp });
            sites.push(WeightSite::Layer { layer, projection: Projection::Down });
            layer = layer + 1;
        }
        sites.push(WeightSite::LmHead);
        let ghost head = sites@;
        layer = 0;
        assert(head + Seq::<WeightSite>::empty() =~= head);
        while layer < self.layers.len()
            invariant
                layer <= self.layers@.len(),
                sites@ == head + operator_sites(self.layers@, layer as int),
            decreases self.layers@.len() - layer,
        {
            let ghost before = sites@;
            match self.layers[layer].operator {
                OperatorWeights::Conv(_) => {
                    sites.push(WeightSite::Layer { layer, projection: Projection::ConvInput });
                    sites.push(WeightSite::Layer { layer, projection: Projection::ConvOutput });
                },
                OperatorWeights::Attention(_) => {
                    sites.push(WeightSite::Layer { layer, projection: Projection::Query });
                    sites.push(WeightSite::Layer { layer, projection: Projection::Key });
                    sites.push(WeightSite::Layer { layer, projection: Projection::Value });
                    sites.push(WeightSite::Layer { layer, projection: Projection::Output });
                },
            }
            layer = layer + 1;
            assert(sites@ =~= head + operator_sites(self.layers@, layer as int));
        }
        if sites.len() != CHARACTERIZED_SITES {
            return Err(SiteCountMismatch { sites: sites.len() });
        }
        Ok(sites)
    }
}

/// How many of the layers are attention.
pub open spec fn attention_layers(layers: Seq<LayerWeights>) -> int
    decreases layers.len(),
{
    if layers.len() == 0 {
        0
    } else {
        attention_layers(layers.drop_last()) + if layers.last().operator is Attention {
            1int
        } else {
            0int
        }
    }
}

proof fn lemma_operator_site_count(layers: Seq<LayerWeights>, upto: int)
    requires
        0 <= upto <= layers.len(),
    ensures
        operator_sites(layers, upto).len() == 2 * upto + 2 * attention_layers(layers.take(upto)),
    decreases upto,
{
    if upto > 0 {
        lemma_operator_site_count(layers, upto - 1);
        assert(layers.take(upto).drop_last() =~= layers.take(upto - 1));
    }
}

proof fn lemma_mlp_site_count(layers: int)
    requires
        layers >= 0,
    ensures
        mlp_sites(layers).len() == 2 * layers,
    decreases layers,
{
    if layers > 0 {
        lemma_mlp_site_count(layers - 1);
    }
}

/// Every layer has two feed-forward sites and two or four operator sites; the head is one
/// more. A model of sixteen layers with six attention layers has seventy-seven.
pub proof fn site_count_follows_layers(layers: Seq<LayerWeights>)
    ensures
        characterized_sites(layers).len() == 4 * layers.len() + 2 * attention_layers(layers) + 1,
        layers.len() == 16 && attention_layers(layers) == 6 ==> characterized_sites(layers).len()
            == CHARACTERIZED_SITES,
{
    lemma_mlp_site_count(layers.len() as int);
    lemma_operator_site_count(layers, layers.len() as int);
    assert(layers.take(layers.len() as int) =~= layers);
}

/// Installing the same policy twice changes nothing more.
pub proof fn installing_twice_is_installing_once(weights: WeightsView, sites: Seq<SitePolicyView>)
    ensures
        weights_with_policy(weights_with_policy(weights, sites), sites) == weights_with_policy(
            weights,
            sites,
        ),
{
    let once = weights_with_policy(weights, sites);
    let twice = weights_with_policy(once, sites);
    assert(twice.layers =~= once.layers);
    assert(twice =~= once);
}

/// A policy only adds and removes fp8 copies: every bf16 projection stays resident as it is.
pub proof fn policies_keep_bf16_weights(
    weights: WeightsView,
    sites: Seq<SitePolicyView>,
    layer: int,
    projection: Projection,
)
    requires
        0 <= layer < weights.layers.len(),
        weights.layers[layer].has_projection(projection),
    ensures
        ({
            let installed = weights_with_policy(weights, sites);
            let before = weights.layers[layer].linear(projection);
            let after = installed.layers[layer].linear(projection);
            &&& installed.layers.len() == weights.layers.len()
            &&& installed.layers[layer].has_projection(projection)
            &&& after.rows == before.rows
            &&& after.columns == before.columns
            &&& installed.embedding.rows == weights.embedding.rows
            &&& installed.embedding.columns == weights.embedding.columns
        }),
{
}

} // verus!
