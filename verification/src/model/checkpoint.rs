//! Loading a checkpoint: which tensors it holds, and which products to prepare for it.
use vstd::prelude::*;
use vstd::string::StringExecFns;

use crate::model::weights::{
    AttentionWeights, ConvWeights, GemmShape, LayerWeights, Lfm2Model, Lfm2Weights, LinearWeight,
    OperatorWeights,
};
#[allow(unused_imports)]
use crate::model::weights::WeightsView;
use crate::text::{decimal, text_eq};

verus! {

/// The tensors of a layer, in the order in which they are taken from a checkpoint.
#[derive(Clone, Copy, Debug, PartialEq, Eq, Structural)]
pub enum LayerTensor {
    OperatorNorm,
    FfnNorm,
    Gate,
    Up,
    Down,
    QueryProjection,
    KeyProjection,
    ValueProjection,
    OutputProjection,
    QueryNorm,
    KeyNorm,
    ConvInput,
    Convolution,
    ConvOutput,
}

impl LayerTensor {
    pub open spec fn path(self) -> Seq<char> {
        match self {
            LayerTensor::OperatorNorm => ".operator_norm.weight"@,
            LayerTensor::FfnNorm => ".ffn_norm.weight"@,
            LayerTensor::Gate => ".feed_forward.w1.weight"@,
            LayerTensor::Up => ".feed_forward.w3.weight"@,
            LayerTensor::Down => ".feed_forward.w2.weight"@,
            LayerTensor::QueryProjection => ".self_attn.q_proj.weight"@,
            LayerTensor::KeyProjection => ".self_attn.k_proj.weight"@,
            LayerTensor::ValueProjection => ".self_attn.v_proj.weight"@,
            LayerTensor::OutputProjection => ".self_attn.out_proj.weight"@,
            LayerTensor::QueryNorm => ".self_attn.q_layernorm.weight"@,
            LayerTensor::KeyNorm => ".self_attn.k_layernorm.weight"@,
            LayerTensor::ConvInput => ".conv.in_proj.weight"@,
            LayerTensor::Convolution => ".conv.conv.weight"@,
            LayerTensor::ConvOutput => ".conv.out_proj.weight"@,
        }
    }

    fn suffix(self) -> (r: &'static str)
        ensures
            r@ == self.path(),
    {
        match self {
            LayerTensor::OperatorNorm => ".operator_norm.weight",
            LayerTensor::FfnNorm => ".ffn_norm.weight",
            LayerTensor::Gate => ".feed_forward.w1.weight",
            LayerTensor::Up => ".feed_forward.w3.weight",
            LayerTensor::Down => ".feed_forward.w2.weight",
            LayerTensor::QueryProjection => ".self_attn.q_proj.weight",
            LayerTensor::KeyProjection => ".self_attn.k_proj.weight",
            LayerTensor::ValueProjection => ".self_attn.v_proj.weight",
            LayerTensor::OutputProjection => ".self_attn.out_proj.weight",
            LayerTensor::QueryNorm => ".self_attn.q_layernorm.weight",
            LayerTensor::KeyNorm => ".self_attn.k_layernorm.weight",
            LayerTensor::ConvInput => ".conv.in_proj.weight",
            LayerTensor::Convolution => ".conv.conv.weight",
            LayerTensor::ConvOutput => ".conv.out_proj.weight",
        }
    }
}

/// The tensors of a layer.
pub open spec fn layer_tensors(attention: bool) -> Seq<LayerTensor> {
    let common = seq![
        LayerTensor::OperatorNorm,
        LayerTensor::FfnNorm,
        LayerTensor::Gate,
        LayerTensor::Up,
        LayerTensor::Down,
    ];
    if attention {
        common + seq![
            LayerTensor::QueryProjection,
            LayerTensor::KeyProjection,
            LayerTensor::ValueProjection,
            LayerTensor::OutputProjection,
            LayerTensor::QueryNorm,
            LayerTensor::KeyNorm,
        ]
    } else {
        common + seq![LayerTensor::ConvInput, LayerTensor::Convolution, LayerTensor::ConvOutput]
    }
}

pub open spec fn tensor_path(layer: nat, tensor: LayerTensor) -> Seq<char> {
    "model.layers."@ + crate::text::decimal_text(layer) + tensor.path()
}

/// The names of the first `upto` layers' tensors.
pub open spec fn layer_tensor_names(attention: Seq<bool>, upto: int) -> Seq<Seq<char>>
    decreases upto,
{
    if upto <= 0 {
        Seq::empty()
    } else {
        let tensors = layer_tensors(attention[upto - 1]);
        layer_tensor_names(attention, upto - 1) + Seq::new(
            tensors.len(),
            |i: int| tensor_path((upto - 1) as nat, tensors[i]),
        )
    }
}

/// The names of all tensors, in the order in which they are taken. `attention[i]` says
/// whether layer `i` is attention.
pub open spec fn tensor_names(attention: Seq<bool>) -> Seq<Seq<char>> {
    seq!["model.embed_tokens.weight"@, "model.embedding_norm.weight"@] + layer_tensor_names(
        attention,
        attention.len() as int,
    )
}

pub open spec fn texts(names: Seq<String>) -> Seq<Seq<char>> {
    Seq::new(names.len(), |i: int| names[i]@)
}

fn tensor_list(attention: bool) -> (r: Vec<LayerTensor>)
    ensures
        r@ == layer_tensors(attention),
{
    let mut r: Vec<LayerTensor> = Vec::new();
    r.push(LayerTensor::OperatorNorm);
    r.push(LayerTensor::FfnNorm);
    r.push(LayerTensor::Gate);
    r.push(LayerTensor::Up);
    r.push(LayerTensor::Down);
    if attention {
        r.push(LayerTensor::QueryProjection);
        r.push(LayerTensor::KeyProjection);
        r.push(LayerTensor::ValueProjection);
        r.push(LayerTensor::OutputProjection);
        r.push(LayerTensor::QueryNorm);
        r.push(LayerTensor::KeyNorm);
    } else {
        r.push(LayerTensor::ConvInput);
        r.push(LayerTensor::Convolution);
        r.push(LayerTensor::ConvOutput);
    }
    assert(r@ =~= layer_tensors(attention));
    r
}

/// Lists the tensors that a model takes from its checkpoint.
pub fn expected_tensors(attention: &Vec<bool>) -> (r: Vec<String>)
    ensures
        texts(r@) == tensor_names(attention@),
{
    let mut names: Vec<String> = Vec::new();
    names.push("model.embed_tokens.weight".to_owned());
    names.push("model.embedding_norm.weight".to_owned());
    let ghost head = seq!["model.embed_tokens.weight"@, "model.embedding_norm.weight"@];
    assert(texts(names@) =~= head + layer_tensor_names(attention@, 0));
    let mut layer: usize = 0;
    while layer < attention.len()
        invariant
            layer <= attention@.len(),
            texts(names@) == head + layer_tensor_names(attention@, layer as int),
        decreases attention@.len() - layer,
    {
        let tensors = tensor_list(attention[layer]);
        let ghost before = texts(names@);
        let mut index: usize = 0;
        assert(before =~= before + Seq::<Seq<char>>::empty());
        while index < tensors.len()
            invariant
                index <= tensors@.len(),
                texts(names@) == before + Seq::new(
                    index as nat,
                    |i: int| tensor_path(layer as nat, tensors@[i]),
                ),
            decreases tensors@.len() - index,
        {
            let name = tensor_name(layer, tensors[index]);
            let ghost now = names@;
            names.push(name);
            index = index + 1;
            proof {
                assert(texts(names@) =~= texts(now).push(
                    tensor_path(layer as nat, tensors@[index - 1]),
                ));
                assert(texts(names@) =~= before + Seq::new(
                    index as nat,
                    |i: int| tensor_path(layer as nat, tensors@[i]),
                ));
            }
        }
        layer = layer + 1;
        assert(texts(names@) =~= head + layer_tensor_names(attention@, layer as int));
    }
    names
}

#[derive(Clone, Copy, Debug, PartialEq, Eq, Structural)]
pub enum CheckpointError {
    /// The checkpoint does not hold as many tensors as it should.
    TensorCount { loaded: usize },
    /// The tensor at this place of the expected list is not there.
    MissingTensor { index: usize },
    /// The two halves of a layer's first feed-forward product cannot be stacked.
    UnstackedHalves { layer: usize },
    /// Some tensors belong to nothing.
    UnconsumedTensors { count: usize },
    /// The embedding does not have the configured shape.
    EmbeddingShape,
}

/// The tensors of the checkpoint.
pub const CHECKPOINT_TENSORS: usize = 148;

/// The shape of a tensor as a matrix; a vector has one column.
#[derive(Clone, Copy, Debug, PartialEq, Eq, Structural)]
pub struct TensorShape {
    pub rows: usize,
    pub columns: usize,
    pub elements: usize,
}

impl TensorShape {
    /// A projection with a weight of this shape.
    pub open spec fn projection(self) -> LinearWeight {
        LinearWeight { rows: self.rows, columns: self.columns, fp8: None }
    }

    fn linear(self) -> (r: LinearWeight)
        ensures
            r == self.projection(),
    {
        LinearWeight::bf16(self.rows, self.columns)
    }
}

/// A tensor of a checkpoint.
#[derive(Clone, Debug)]
pub struct StoredTensor {
    pub name: String,
    pub shape: TensorShape,
}

pub struct StoredView {
    pub name: Seq<char>,
    pub shape: TensorShape,
}

pub open spec fn stored_views(store: Seq<StoredTensor>) -> Seq<StoredView> {
    Seq::new(store.len(), |i: int| StoredView { name: store[i].name@, shape: store[i].shape })
}

pub open spec fn stored_names(store: Seq<StoredView>) -> Seq<Seq<char>> {
    Seq::new(store.len(), |i: int| store[i].name)
}

/// Where the first tensor of that name stands.
pub open spec fn place_of(store: Seq<StoredView>, name: Seq<char>) -> int {
    stored_names(store).index_of_first(name)->Some_0
}

/// What is left after the first `upto` names are taken in order; nothing if one of them is
/// missing.
pub open spec fn left_after(store: Seq<StoredView>, names: Seq<Seq<char>>, upto: int) -> Option<
    Seq<StoredView>,
>
    decreases upto,
{
    if upto <= 0 {
        Some(store)
    } else {
        match left_after(store, names, upto - 1) {
            Some(left) => if stored_names(left).contains(names[upto - 1]) {
                Some(left.remove(place_of(left, names[upto - 1])))
            } else {
                None
            },
            None => None,
        }
    }
}

/// The name at this place is the first that cannot be taken.
pub open spec fn is_missing(store: Seq<StoredView>, names: Seq<Seq<char>>, index: int) -> bool {
    &&& 0 <= index < names.len()
    &&& left_after(store, names, index) is Some
    &&& !stored_names(left_after(store, names, index)->Some_0).contains(names[index])
}

/// The shape of the tensor that is taken under the name at this place.
pub open spec fn shape_taken(store: Seq<StoredView>, names: Seq<Seq<char>>, index: int) -> TensorShape {
    let left = left_after(store, names, index)->Some_0;
    left[place_of(left, names[index])].shape
}

/// The place of a layer's first tensor in the expected list.
pub open spec fn layer_start(attention: Seq<bool>, layer: int) -> int {
    2 + layer_tensor_names(attention, layer).len() as int
}

/// The halves of a layer's first feed-forward product can be stacked.
pub open spec fn halves_stack(gate: TensorShape, up: TensorShape) -> bool {
    gate.columns == up.columns && gate.rows + up.rows <= usize::MAX
}

pub open spec fn layer_stacks(store: Seq<StoredView>, attention: Seq<bool>, layer: int) -> bool {
    let names = tensor_names(attention);
    let start = layer_start(attention, layer);
    halves_stack(shape_taken(store, names, start + 2), shape_taken(store, names, start + 3))
}

/// The halves can be stacked in each of the first `upto` layers.
pub open spec fn layers_stack(store: Seq<StoredView>, attention: Seq<bool>, upto: int) -> bool {
    forall|layer: int| 0 <= layer < upto ==> #[trigger] layer_stacks(store, attention, layer)
}

/// The halves can be stacked in each layer whose halves stand before this place of the
/// expected list.
pub open spec fn layers_stack_before(store: Seq<StoredView>, attention: Seq<bool>, index: int) -> bool {
    forall|layer: int|
        0 <= layer < attention.len() && layer_start(attention, layer) + 3 < index
            ==> #[trigger] layer_stacks(store, attention, layer)
}

/// A layer with tensors of these shapes, listed as they are taken.
pub open spec fn layer_of_shapes(shapes: Seq<TensorShape>, attention: bool) -> LayerWeights {
    LayerWeights {
        operator_norm_elements: shapes[0].elements,
        operator: if attention {
            OperatorWeights::Attention(
                AttentionWeights {
                    query: shapes[5].projection(),
                    key: shapes[6].projection(),
                    value: shapes[7].projection(),
                    output: shapes[8].projection(),
                    query_norm_elements: shapes[9].elements,
                    key_norm_elements: shapes[10].elements,
                },
            )
        } else {
            OperatorWeights::Conv(
                ConvWeights {
                    input: shapes[5].projection(),
                    convolution_elements: shapes[6].elements,
                    output: shapes[7].projection(),
                },
            )
        },
        ffn_norm_elements: shapes[1].elements,
        gate_up: LinearWeight {
            rows: (shapes[2].rows + shapes[3].rows) as usize,
            columns: shapes[2].columns,
            fp8: None,
        },
        down: shapes[4].projection(),
    }
}

/// The shapes of a layer's tensors.
pub open spec fn layer_shapes(store: Seq<StoredView>, attention: Seq<bool>, layer: int) -> Seq<
    TensorShape,
> {
    Seq::new(
        layer_tensors(attention[layer]).len(),
        |i: int| shape_taken(store, tensor_names(attention), layer_start(attention, layer) + i),
    )
}

/// The weights that a checkpoint gives.
pub open spec fn loaded_weights(
    store: Seq<StoredView>,
    attention: Seq<bool>,
    inv_freq_elements: usize,
) -> WeightsView {
    WeightsView {
        embedding: shape_taken(store, tensor_names(attention), 0).projection(),
        final_norm_elements: shape_taken(store, tensor_names(attention), 1).elements,
        inv_freq_elements,
        layers: Seq::new(
            attention.len(),
            |layer: int| layer_of_shapes(layer_shapes(store, attention, layer), attention[layer]),
        ),
    }
}

/// Takes the first tensor of that name.
fn take_tensor(store: &mut Vec<StoredTensor>, name: &str) -> (r: Option<TensorShape>)
    ensures
        ({
            let before = stored_views(old(store)@);
            match r {
                Some(shape) => {
                    &&& stored_names(before).contains(name@)
                    &&& shape == before[place_of(before, name@)].shape
                    &&& stored_views(final(store)@) == before.remove(place_of(before, name@))
                    &&& final(store)@.len() + 1 == old(store)@.len()
                },
                None => !stored_names(before).contains(name@),
            }
        }),
{
    let ghost before = stored_views(store@);
    let ghost all = stored_names(before);
    let mut index: usize = 0;
    while index < store.len()
        invariant
            index <= store@.len(),
            before == stored_views(store@),
            before == stored_views(old(store)@),
            all == stored_names(before),
            forall|i: int| 0 <= i < index ==> #[trigger] all[i] != name@,
        decreases store@.len() - index,
    {
        if text_eq(store[index].name.as_str(), name) {
            proof {
                assert(all[index as int] == name@);
                all.index_of_first_ensures(name@);
                assert(place_of(before, name@) == index) by {
                    if place_of(before, name@) < index {
                        assert(all[place_of(before, name@)] != name@);
                    }
                }
            }
            let tensor = store.remove(index);
            assert(stored_views(store@) =~= before.remove(index as int));
            return Some(tensor.shape);
        }
        index = index + 1;
    }
    None
}

proof fn lemma_layer_names(attention: Seq<bool>, layer: int, upto: int)
    requires
        0 <= layer < upto <= attention.len(),
    ensures
        layer_start(attention, layer + 1) == layer_start(attention, layer) + layer_tensors(
            attention[layer],
        ).len(),
        layer_tensor_names(attention, layer + 1).len() <= layer_tensor_names(attention, upto).len(),
        forall|i: int|
            0 <= i < layer_tensors(attention[layer]).len()
                ==> #[trigger] layer_tensor_names(attention, upto)[layer_tensor_names(
                attention,
                layer,
            ).len() + i] == tensor_path(layer as nat, layer_tensors(attention[layer])[i]),
    decreases upto,
{
    if upto > layer + 1 {
        lemma_layer_names(attention, layer, upto - 1);
        let before = layer_tensor_names(attention, upto - 1);
        let after = layer_tensor_names(attention, upto);
        assert forall|i: int| 0 <= i < before.len() implies before[i] == after[i] by {}
        assert forall|i: int| 0 <= i < layer_tensors(attention[layer]).len() implies
            #[trigger] layer_tensor_names(attention, upto)[layer_tensor_names(
            attention,
            layer,
        ).len() + i] == tensor_path(layer as nat, layer_tensors(attention[layer])[i]) by {
            assert(before[layer_tensor_names(attention, layer).len() + i] == tensor_path(
                layer as nat,
                layer_tensors(attention[layer])[i],
            ));
        }
    }
}

/// The names of a layer's tensors stand together in the expected list.
proof fn lemma_layer_names_in_list(attention: Seq<bool>, layer: int)
    requires
        0 <= layer < attention.len(),
    ensures
        ({
            let names = tensor_names(attention);
            let start = layer_start(attention, layer);
            let tensors = layer_tensors(attention[layer]);
            &&& layer_start(attention, layer + 1) == start + tensors.len()
            &&& start + tensors.len() <= names.len()
            &&& forall|i: int|
                0 <= i < tensors.len() ==> #[trigger] names[start + i] == tensor_path(
                    layer as nat,
                    tensors[i],
                )
        }),
{
    lemma_layer_names(attention, layer, attention.len() as int);
    let names = tensor_names(attention);
    let start = layer_start(attention, layer);
    let tensors = layer_tensors(attention[layer]);
    let all = layer_tensor_names(attention, attention.len() as int);
    assert forall|i: int| 0 <= i < tensors.len() implies #[trigger] names[start + i] == tensor_path(
        layer as nat,
        tensors[i],
    ) by {
        assert(names[start + i] == all[layer_tensor_names(attention, layer).len() + i]);
    }
}

fn tensor_name(layer: usize, tensor: LayerTensor) -> (r: String)
    ensures
        r@ == tensor_path(layer as nat, tensor),
{
    let mut name = "model.layers.".to_owned();
    let number = decimal(layer as u64);
    name.append(number.as_str());
    name.append(tensor.suffix());
    name
}

/// Takes the tensors of one layer.
fn take_layer(
    store: &mut Vec<StoredTensor>,
    Ghost(all): Ghost<Seq<StoredView>>,
    attention: &Vec<bool>,
    layer: usize,
    start: usize,
) -> (r: Result<LayerWeights, CheckpointError>)
    requires
        layer < attention@.len(),
        start == layer_start(attention@, layer as int),
        left_after(all, tensor_names(attention@), start as int) == Some(
            stored_views(old(store)@),
        ),
        start + old(store)@.len() <= usize::MAX,
    ensures
        ({
            let names = tensor_names(attention@);
            match r {
                Ok(weights) => {
                    &&& start + old(store)@.len() == layer_start(attention@, layer + 1)
                        + final(store)@.len()
                    &&& left_after(all, names, layer_start(attention@, layer + 1)) == Some(
                        stored_views(final(store)@),
                    )
                    &&& layer_stacks(all, attention@, layer as int)
                    &&& weights == layer_of_shapes(
                        layer_shapes(all, attention@, layer as int),
                        attention@[layer as int],
                    )
                },
                Err(CheckpointError::MissingTensor { index }) => {
                    &&& start <= index < layer_start(attention@, layer + 1)
                    &&& is_missing(all, names, index as int)
                    &&& index > start + 3 ==> layer_stacks(all, attention@, layer as int)
                },
                Err(CheckpointError::UnstackedHalves { layer: unstacked }) => {
                    &&& unstacked == layer
                    &&& left_after(all, names, start + 4) is Some
                    &&& !layer_stacks(all, attention@, layer as int)
                },
                Err(_) => false,
            }
        }),
{
    let tensors = tensor_list(attention[layer]);
    let ghost names = tensor_names(attention@);
    proof {
        lemma_layer_names_in_list(attention@, layer as int);
    }
    let mut shapes: Vec<TensorShape> = Vec::new();
    let mut index: usize = 0;
    while index < tensors.len()
        invariant
            index <= tensors@.len() <= 11,
            layer < attention@.len(),
            tensors@ == layer_tensors(attention@[layer as int]),
            names == tensor_names(attention@),
            start == layer_start(attention@, layer as int),
            start + index + store@.len() == start + old(store)@.len() <= usize::MAX,
            layer_start(attention@, layer + 1) == start + tensors@.len(),
            start + tensors@.len() <= names.len(),
            forall|i: int|
                0 <= i < tensors@.len() ==> #[trigger] names[start + i] == tensor_path(
                    layer as nat,
                    tensors@[i],
                ),
            left_after(all, names, start + index) == Some(stored_views(store@)),
            shapes@ == Seq::new(index as nat, |i: int| shape_taken(all, names, start + i)),
            index > 3 ==> layer_stacks(all, attention@, layer as int),
        decreases tensors@.len() - index,
    {
        let name = tensor_name(layer, tensors[index]);
        assert(names[start + index] == name@);
        match take_tensor(store, name.as_str()) {
            Some(shape) => {
                shapes.push(shape);
            },
            None => {
                let place: usize = start + index;
                assert(is_missing(all, names, place as int));
                return Err(CheckpointError::MissingTensor { index: place });
            },
        }
        assert(shapes@ =~= Seq::new((index + 1) as nat, |i: int| shape_taken(all, names, start + i)));
        if index == 3 {
            assert(shapes@[2] == shape_taken(all, names, start + 2));
            assert(shapes@[3] == shape_taken(all, names, start + 3));
            if shapes[2].columns != shapes[3].columns || shapes[2].rows > usize::MAX
                - shapes[3].rows {
                return Err(CheckpointError::UnstackedHalves { layer });
            }
        }
        index = index + 1;
    }
    assert(shapes@ =~= layer_shapes(all, attention@, layer as int));
    assert(shapes@[2] == shape_taken(all, names, start + 2));
    assert(shapes@[3] == shape_taken(all, names, start + 3));
    let operator = if attention[layer] {
        OperatorWeights::Attention(
            AttentionWeights {
                query: shapes[5].linear(),
                key: shapes[6].linear(),
                value: shapes[7].linear(),
                output: shapes[8].linear(),
                query_norm_elements: shapes[9].elements,
                key_norm_elements: shapes[10].elements,
            },
        )
    } else {
        OperatorWeights::Conv(
            ConvWeights {
                input: shapes[5].linear(),
                convolution_elements: shapes[6].elements,
                output: shapes[7].linear(),
            },
        )
    };
    Ok(
        LayerWeights {
            operator_norm_elements: shapes[0].elements,
            operator,
            ffn_norm_elements: shapes[1].elements,
            gate_up: LinearWeight::bf16(shapes[2].rows + shapes[3].rows, shapes[2].columns),
            down: shapes[4].linear(),
        },
    )
}

impl Lfm2Weights {
    /// Builds the weights from the tensors of a checkpoint, all of which have to be used.
    #[verifier::rlimit(60)]
    #[verifier::spinoff_prover]
    pub fn from_store(store: Vec<StoredTensor>, attention: &Vec<bool>, inv_freq_elements: usize) -> (r:
        Result<Self, CheckpointError>)
        ensures
            ({
                let all = stored_views(store@);
                let names = tensor_names(attention@);
                let left = left_after(all, names, names.len() as int);
                match r {
                    Ok(weights) => {
                        &&& left == Some(Seq::<StoredView>::empty())
                        &&& layers_stack(all, attention@, attention@.len() as int)
                        &&& weights@ == loaded_weights(all, attention@, inv_freq_elements)
                    },
                    Err(CheckpointError::MissingTensor { index }) => {
                        &&& is_missing(all, names, index as int)
                        &&& layers_stack_before(all, attention@, index as int)
                    },
                    Err(CheckpointError::UnstackedHalves { layer }) => {
                        &&& layer < attention@.len()
                        &&& left_after(all, names, layer_start(attention@, layer as int) + 4) is Some
                        &&& !layer_stacks(all, attention@, layer as int)
                        &&& layers_stack(all, attention@, layer as int)
                    },
                    Err(CheckpointError::UnconsumedTensors { count }) => {
                        &&& left is Some
                        &&& left->Some_0.len() == count
                        &&& count > 0
                        &&& layers_stack(all, attention@, attention@.len() as int)
                    },
                    Err(_) => false,
                }
            }),
    {
        let ghost all = stored_views(store@);
        let ghost names = tensor_names(attention@);
        let total: usize = store.len();
        let mut left = store;
        let embedding: TensorShape = match take_tensor(&mut left, "model.embed_tokens.weight") {
            Some(shape) => shape,
            None => {
                assert(is_missing(all, names, 0));
                proof {
                    lemma_starts_increase(attention@);
                }
                return Err(CheckpointError::MissingTensor { index: 0 });
            },
        };
        assert(left_after(all, names, 1) == Some(stored_views(left@)));
        let final_norm: TensorShape = match take_tensor(&mut left, "model.embedding_norm.weight") {
            Some(shape) => shape,
            None => {
                assert(is_missing(all, names, 1));
                proof {
                    lemma_starts_increase(attention@);
                }
                return Err(CheckpointError::MissingTensor { index: 1 });
            },
        };
        assert(left_after(all, names, 2) == Some(stored_views(left@)));
        let mut layers: Vec<LayerWeights> = Vec::new();
        let mut start: usize = 2;
        let mut layer: usize = 0;
        while layer < attention.len()
            invariant
                layer <= attention@.len(),
                all == stored_views(store@),
                names == tensor_names(attention@),
                start == layer_start(attention@, layer as int),
                start + left@.len() == total,
                left_after(all, names, start as int) == Some(stored_views(left@)),
                layers@ == loaded_weights(all, attention@, inv_freq_elements).layers.take(
                    layer as int,
                ),
                forall|earlier: int|
                    0 <= earlier < layer ==> #[trigger] layer_stacks(all, attention@, earlier),
            decreases attention@.len() - layer,
        {
            proof {
                lemma_starts_increase(attention@);
                lemma_layer_names_in_list(attention@, layer as int);
            }
            let ghost before = layers@;
            match take_layer(&mut left, Ghost(all), attention, layer, start) {
                Ok(weights) => {
                    layers.push(weights);
                },
                Err(e) => {
                    return Err(e);
                },
            }
            start = if attention[layer] {
                start + 11
            } else {
                start + 8
            };
            layer = layer + 1;
            assert(layers@ =~= loaded_weights(all, attention@, inv_freq_elements).layers.take(
                layer as int,
            ));
        }
        assert(start == names.len());
        if left.len() > 0 {
            return Err(CheckpointError::UnconsumedTensors { count: left.len() });
        }
        assert(stored_views(left@) =~= Seq::<StoredView>::empty());
        let weights = Lfm2Weights {
            embedding: embedding.linear(),
            final_norm_elements: final_norm.elements,
            inv_freq_elements,
            layers,
        };
        assert(weights@ =~= loaded_weights(all, attention@, inv_freq_elements));
        Ok(weights)
    }
}

impl Lfm2Model {
    /// Loads a model, all in bf16, from the tensors of its checkpoint.
    pub fn load(
        store: Vec<StoredTensor>,
        attention: &Vec<bool>,
        vocab_size: usize,
        hidden_size: usize,
        head_dim: usize,
        fused_rms_fp8_enabled: bool,
    ) -> (r: Result<Self, CheckpointError>)
        ensures
            ({
                let all = stored_views(store@);
                let names = tensor_names(attention@);
                let left = left_after(all, names, names.len() as int);
                let embedding = shape_taken(all, names, 0);
                match r {
                    Ok(model) => {
                        &&& store@.len() == CHECKPOINT_TENSORS
                        &&& left == Some(Seq::<StoredView>::empty())
                        &&& layers_stack(all, attention@, attention@.len() as int)
                        &&& embedding.rows == vocab_size && embedding.columns == hidden_size
                        &&& model.weights@ == loaded_weights(all, attention@, head_dim / 2)
                        &&& !model.decode_fp8_enabled
                        &&& model.fused_rms_fp8_enabled == fused_rms_fp8_enabled
                        &&& model.maximum_fp8_batch == 1
                        &&& model.well_formed()
                    },
                    Err(CheckpointError::TensorCount { loaded }) => loaded == store@.len()
                        && loaded != CHECKPOINT_TENSORS,
                    Err(CheckpointError::MissingTensor { index }) => {
                        &&& store@.len() == CHECKPOINT_TENSORS
                        &&& is_missing(all, names, index as int)
                        &&& layers_stack_before(all, attention@, index as int)
                    },
                    Err(CheckpointError::UnstackedHalves { layer }) => {
                        &&& store@.len() == CHECKPOINT_TENSORS
                        &&& layer < attention@.len()
                        &&& left_after(all, names, layer_start(attention@, layer as int) + 4) is Some
                        &&& !layer_stacks(all, attention@, layer as int)
                        &&& layers_stack(all, attention@, layer as int)
                    },
                    Err(CheckpointError::UnconsumedTensors { count }) => {
                        &&& store@.len() == CHECKPOINT_TENSORS
                        &&& left is Some
                        &&& left->Some_0.len() == count
                        &&& count > 0
                        &&& layers_stack(all, attention@, attention@.len() as int)
                    },
                    Err(CheckpointError::EmbeddingShape) => {
                        &&& store@.len() == CHECKPOINT_TENSORS
                        &&& left == Some(Seq::<StoredView>::empty())
                        &&& layers_stack(all, attention@, attention@.len() as int)
                        &&& embedding.rows != vocab_size || embedding.columns != hidden_size
                    },
                }
            }),
    {
        if store.len() != CHECKPOINT_TENSORS {
            return Err(CheckpointError::TensorCount { loaded: store.len() });
        }
        let weights = match Lfm2Weights::from_store(store, attention, head_dim / 2) {
            Ok(weights) => weights,
            Err(e) => {
                return Err(e);
            },
        };
        if weights.embedding.rows != vocab_size || weights.embedding.columns != hidden_size {
            return Err(CheckpointError::EmbeddingShape);
        }
        Ok(Lfm2Model::new(weights, fused_rms_fp8_enabled))
    }
}

/// Every layer's tensors stand behind the two that belong to no layer, and behind those of
/// all layers before it.
proof fn lemma_starts_increase(attention: Seq<bool>)
    ensures
        forall|a: int, b: int|
            0 <= a < b <= attention.len() ==> 2 <= #[trigger] layer_start(attention, a) && layer_start(
                attention,
                a,
            ) + 8 <= #[trigger] layer_start(attention, b),
{
    assert forall|a: int, b: int| 0 <= a < b <= attention.len() implies 2
        <= #[trigger] layer_start(attention, a) && layer_start(attention, a) + 8
        <= #[trigger] layer_start(attention, b) by {
        lemma_layer_tensor_count(attention, a);
        lemma_layer_names(attention, a, b);
    }
}

proof fn lemma_layer_tensor_count(attention: Seq<bool>, upto: int)
    requires
        0 <= upto <= attention.len(),
    ensures
        layer_tensor_names(attention, upto).len() == 8 * upto + 3 * attention_count(
            attention.take(upto),
        ),
    decreases upto,
{
    if upto > 0 {
        lemma_layer_tensor_count(attention, upto - 1);
        assert(attention.take(upto).drop_last() =~= attention.take(upto - 1));
    }
}

/// How many layers are attention.
pub open spec fn attention_count(attention: Seq<bool>) -> int
    decreases attention.len(),
{
    if attention.len() == 0 {
        0
    } else {
        attention_count(attention.drop_last()) + if attention.last() {
            1int
        } else {
            0int
        }
    }
}

/// A convolution layer has eight tensors and an attention layer eleven; two more belong to
/// no layer. Sixteen layers with six attention layers make the expected total.
pub proof fn tensor_count_follows_layers(attention: Seq<bool>)
    ensures
        tensor_names(attention).len() == 2 + 8 * attention.len() + 3 * attention_count(attention),
        attention.len() == 16 && attention_count(attention) == 6 ==> tensor_names(attention).len()
            == CHECKPOINT_TENSORS,
{
    lemma_layer_tensor_count(attention, attention.len() as int);
    assert(attention.take(attention.len() as int) =~= attention);
}

/// Output and input widths of all products of the model.
pub open spec fn product_widths() -> Seq<(usize, usize)> {
    seq![
        (6144usize, 2048usize),
        (2048usize, 2048usize),
        (8192usize, 2048usize),
        (16384usize, 2048usize),
        (2048usize, 8192usize),
        (512usize, 2048usize),
        (65536usize, 2048usize),
    ]
}

fn widths_at(index: usize) -> (r: (usize, usize))
    requires
        index < 7,
    ensures
        r == product_widths()[index as int],
{
    match index {
        0 => (6144, 2048),
        1 => (2048, 2048),
        2 => (8192, 2048),
        3 => (16384, 2048),
        4 => (2048, 8192),
        5 => (512, 2048),
        _ => (65536, 2048),
    }
}

/// Every product of the model for each of the batches.
pub open spec fn bf16_shapes(batches: Seq<usize>) -> Seq<GemmShape> {
    Seq::new(
        7 * batches.len(),
        |i: int|
            GemmShape {
                batch: batches[i / 7],
                rows: product_widths()[i % 7].0,
                columns: product_widths()[i % 7].1,
            },
    )
}

/// Lists the bf16 products to prepare: all widths for each batch. Loading a model prepares
/// them for a batch of one.
pub fn bf16_gemm_shapes(batches: &Vec<usize>) -> (r: Vec<GemmShape>)
    ensures
        r@ == bf16_shapes(batches@),
{
    let mut shapes: Vec<GemmShape> = Vec::new();
    let mut done: usize = 0;
    while done < batches.len()
        invariant
            done <= batches@.len(),
            shapes@ == bf16_shapes(batches@.take(done as int)),
        decreases batches@.len() - done,
    {
        let ghost before = shapes@;
        let batch: usize = batches[done];
        let mut index: usize = 0;
        while index < 7
            invariant
                index <= 7,
                shapes@ == before + Seq::new(
                    index as nat,
                    |i: int|
                        GemmShape {
                            batch,
                            rows: product_widths()[i].0,
                            columns: product_widths()[i].1,
                        },
                ),
            decreases 7 - index,
        {
            let (rows, columns) = widths_at(index);
            shapes.push(GemmShape { batch, rows, columns });
            index = index + 1;
            assert(shapes@ =~= before + Seq::new(
                index as nat,
                |i: int|
                    GemmShape {
                        batch,
                        rows: product_widths()[i].0,
                        columns: product_widths()[i].1,
                    },
            ));
        }
        done = done + 1;
        assert(shapes@ =~= bf16_shapes(batches@.take(done as int)));
    }
    assert(batches@.take(done as int) =~= batches@);
    shapes
}

/// One, two, four and so on.
pub open spec fn is_power_of_two(n: int) -> bool
    decreases n,
{
    n == 1 || (n > 1 && n % 2 == 0 && is_power_of_two(n / 2))
}

/// Batches that serving can form: any number of decoding requests, or a prefill chunk whose
/// length is a power of two beside some decoding requests, as far as a batch holds them.
pub open spec fn is_serving_batch(batch: int, request_slots: int, maximum_batch_tokens: int) -> bool {
    &&& batch >= 1
    &&& (batch <= request_slots || batch <= maximum_batch_tokens && exists|chunk: int| #[trigger]
        is_power_of_two(chunk) && chunk <= batch <= chunk + request_slots)
}

proof fn lemma_powers_are_apart(a: int, b: int)
    requires
        is_power_of_two(a),
        is_power_of_two(b),
        b < 2 * a,
    ensures
        b <= a,
    decreases a,
{
    if a > 1 && b > 1 {
        lemma_powers_are_apart(a / 2, b / 2);
    }
}

/// `batches` are all serving batches, in increasing order.
pub open spec fn are_serving_batches(
    batches: Seq<usize>,
    request_slots: int,
    maximum_batch_tokens: int,
) -> bool {
    &&& forall|i: int, j: int| 0 <= i < j < batches.len() ==> batches[i] < batches[j]
    &&& forall|i: int|
        0 <= i < batches.len() ==> is_serving_batch(
            #[trigger] batches[i] as int,
            request_slots,
            maximum_batch_tokens,
        )
    &&& forall|b: int|
        #[trigger] is_serving_batch(b, request_slots, maximum_batch_tokens) ==> b <= usize::MAX
            && batches.contains(b as usize)
}

/// The batches to prepare products for, in increasing order.
pub fn serving_batches(request_slots: usize, maximum_batch_tokens: usize) -> (r: Vec<usize>)
    ensures
        are_serving_batches(r@, request_slots as int, maximum_batch_tokens as int),
{
    let limit: usize = crate::num::max_usize(request_slots, maximum_batch_tokens);
    let mut r: Vec<usize> = Vec::new();
    let mut chunk: usize = 1;
    let mut done: usize = 0;
    while done < limit
        invariant
            done <= limit,
            limit == crate::num::max_int(request_slots as int, maximum_batch_tokens as int),
            is_power_of_two(chunk as int),
            done == 0 ==> chunk == 1,
            done > 0 ==> chunk <= done < 2 * chunk,
            forall|i: int| 0 <= i < r@.len() ==> #[trigger] r@[i] <= done,
            forall|i: int, j: int| 0 <= i < j < r@.len() ==> r@[i] < r@[j],
            forall|i: int|
                0 <= i < r@.len() ==> is_serving_batch(
                    #[trigger] r@[i] as int,
                    request_slots as int,
                    maximum_batch_tokens as int,
                ),
            forall|b: int|
                b <= done && #[trigger] is_serving_batch(
                    b,
                    request_slots as int,
                    maximum_batch_tokens as int,
                ) ==> r@.contains(b as usize),
        decreases limit - done,
    {
        let ghost before = r@;
        let batch: usize = done + 1;
        if batch - chunk == chunk {
            chunk = batch;
            assert(is_power_of_two(chunk as int));
        }
        let planned: bool = batch <= request_slots || (batch <= maximum_batch_tokens && batch
            - chunk <= request_slots);
        proof {
            if batch <= maximum_batch_tokens && batch - chunk <= request_slots {
                assert(is_power_of_two(chunk as int) && chunk <= batch <= chunk + request_slots);
            }
            if is_serving_batch(batch as int, request_slots as int, maximum_batch_tokens as int)
                && batch > request_slots {
                let c = choose|c: int| #[trigger]
                    is_power_of_two(c) && c <= batch <= c + request_slots;
                lemma_powers_are_apart(chunk as int, c);
            }
            assert(planned == is_serving_batch(
                batch as int,
                request_slots as int,
                maximum_batch_tokens as int,
            ));
        }
        if planned {
            r.push(batch);
        }
        proof {
            assert forall|b: int|
                b <= batch && #[trigger] is_serving_batch(
                    b,
                    request_slots as int,
                    maximum_batch_tokens as int,
                ) implies r@.contains(b as usize) by {
                if b == batch {
                    assert(r@[r@.len() - 1] == batch);
                } else {
                    assert(before.contains(b as usize));
                    let i = choose|i: int| 0 <= i < before.len() && before[i] == b as usize;
                    assert(r@[i] == b as usize);
                }
            }
        }
        done = batch;
    }
    r
}

/// Rows of the packed query, key and value projection.
pub const PACKED_QKV_ROWS: usize = 3072;

#[derive(Clone, Copy, Debug, PartialEq, Eq, Structural)]
pub enum PackedQkvError {
    NoRequestSlots,
    NoBatchCapacity,
    /// A layer's packed weight has another shape than the kernels expect.
    WeightShape { layer: usize },
    /// The packed weights were never prepared.
    NotPrepared,
    /// The packed weights were made for another model.
    OtherModel,
    LayerCount,
}

pub open spec fn batch_sizes(shapes: Seq<GemmShape>) -> Seq<usize> {
    Seq::new(shapes.len(), |i: int| shapes[i].batch)
}

/// Lists the packed products to prepare, one for each serving batch.
pub fn packed_qkv_shapes(request_slots: usize, maximum_batch_tokens: usize, hidden_size: usize) -> (r:
    Result<Vec<GemmShape>, PackedQkvError>)
    ensures
        match r {
            Ok(shapes) => {
                &&& request_slots > 0
                &&& maximum_batch_tokens > 0
                &&& are_serving_batches(
                    batch_sizes(shapes@),
                    request_slots as int,
                    maximum_batch_tokens as int,
                )
                &&& forall|i: int|
                    0 <= i < shapes@.len() ==> (#[trigger] shapes@[i]).rows == PACKED_QKV_ROWS
                        && shapes@[i].columns == hidden_size
            },
            Err(e) => e == (if request_slots == 0 {
                PackedQkvError::NoRequestSlots
            } else {
                PackedQkvError::NoBatchCapacity
            }) && (request_slots == 0 || maximum_batch_tokens == 0),
        },
{
    if request_slots == 0 {
        return Err(PackedQkvError::NoRequestSlots);
    }
    if maximum_batch_tokens == 0 {
        return Err(PackedQkvError::NoBatchCapacity);
    }
    let batches = serving_batches(request_slots, maximum_batch_tokens);
    let mut shapes: Vec<GemmShape> = Vec::new();
    let mut index: usize = 0;
    while index < batches.len()
        invariant
            index <= batches@.len(),
            shapes@ == Seq::new(
                index as nat,
                |i: int|
                    GemmShape { batch: batches@[i], rows: PACKED_QKV_ROWS, columns: hidden_size },
            ),
        decreases batches@.len() - index,
    {
        shapes.push(
            GemmShape { batch: batches[index], rows: PACKED_QKV_ROWS, columns: hidden_size },
        );
        index = index + 1;
        assert(shapes@ =~= Seq::new(
            index as nat,
            |i: int|
                GemmShape { batch: batches@[i], rows: PACKED_QKV_ROWS, columns: hidden_size },
        ));
    }
    assert(batch_sizes(shapes@) =~= batches@);
    Ok(shapes)
}

/// Whether packed weights prepared earlier can serve this model. `prepared` is the identity
/// of the model they were made for and their layer count.
pub fn check_packed_weights(prepared: Option<(usize, usize)>, model_key: usize, layers: usize) -> (r:
    Result<(), PackedQkvError>)
    ensures
        r == (match prepared {
            None => Err::<(), PackedQkvError>(PackedQkvError::NotPrepared),
            Some((key, count)) => if key != model_key {
                Err::<(), PackedQkvError>(PackedQkvError::OtherModel)
            } else if count != layers {
                Err::<(), PackedQkvError>(PackedQkvError::LayerCount)
            } else {
                Ok::<(), PackedQkvError>(())
            },
        }),
{
    match prepared {
        None => Err(PackedQkvError::NotPrepared),
        Some((key, count)) => if key != model_key {
            Err(PackedQkvError::OtherModel)
        } else if count != layers {
            Err(PackedQkvError::LayerCount)
        } else {
            Ok(())
        },
    }
}

/// Checks the packed weight of an attention layer.
pub fn check_packed_shape(dims: &[usize], hidden_size: usize, layer: usize) -> (r: Result<
    (),
    PackedQkvError,
>)
    ensures
        r == (if dims@ == seq![PACKED_QKV_ROWS, hidden_size] {
            Ok::<(), PackedQkvError>(())
        } else {
            Err::<(), PackedQkvError>(PackedQkvError::WeightShape { layer })
        }),
{
    if dims.len() == 2 && dims[0] == PACKED_QKV_ROWS && dims[1] == hidden_size {
        assert(dims@ =~= seq![PACKED_QKV_ROWS, hidden_size]);
        Ok(())
    } else {
        Err(PackedQkvError::WeightShape { layer })
    }
}

} // verus!
