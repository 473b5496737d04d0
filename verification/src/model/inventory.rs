//! Where the weights of a loaded model come from, and what they take.
use vstd::prelude::*;

use crate::model::checkpoint::{
    bf16_gemm_shapes, expected_tensors, layer_start, layer_tensor_names, layer_tensors,
    left_after, place_of, serving_batches, stored_names, stored_views, tensor_names, tensor_path,
    texts, CheckpointError, StoredTensor, StoredView, TensorShape,
};
use crate::model::weights::{
    batched_shapes, capped_sum, fp8_shape, input_name, layer_shapes,
    layers_shapes, site_name, weight_name, GemmShape, LayerWeights, Lfm2Model, Lfm2Weights,
    LinearWeight, OperatorWeights, PolicyError, Projection,
};
use crate::model::quantization::Fp8PrecisionPolicy;
use crate::text::decimal_text;

verus! {

/// The checkpoint holds a tensor of this name and shape.
pub open spec fn is_stored(store: Seq<StoredTensor>, name: Seq<char>, shape: TensorShape) -> bool {
    exists|i: int| 0 <= i < store.len() && (#[trigger] store[i]).name@ == name && store[i].shape == shape
}

/// A projection has the shape of the stored tensor of this name, and no fp8 copy.
pub open spec fn is_projection_of(
    store: Seq<StoredTensor>,
    name: Seq<char>,
    weight: LinearWeight,
) -> bool {
    exists|shape: TensorShape| #[trigger]
        is_stored(store, name, shape) && shape.rows == weight.rows && shape.columns
            == weight.columns && weight.fp8 is None
}

/// A vector is as long as the stored tensor of this name.
pub open spec fn is_vector_of(store: Seq<StoredTensor>, name: Seq<char>, elements: usize) -> bool {
    exists|shape: TensorShape| #[trigger] is_stored(store, name, shape) && shape.elements == elements
}

/// A projection is the stored tensors of two names on top of each other.
pub open spec fn is_stack_of(
    store: Seq<StoredTensor>,
    upper: Seq<char>,
    lower: Seq<char>,
    weight: LinearWeight,
) -> bool {
    exists|a: TensorShape, b: TensorShape| #[trigger]
        is_stored(store, upper, a) && #[trigger] is_stored(store, lower, b) && weight.rows
            == a.rows + b.rows && weight.columns == a.columns && weight.columns == b.columns
            && weight.fp8 is None
}

proof fn lemma_left_was_stored(
    store: Seq<StoredTensor>,
    names: Seq<Seq<char>>,
    upto: int,
    at: int,
)
    requires
        left_after(stored_views(store), names, upto) is Some,
        0 <= at < left_after(stored_views(store), names, upto)->Some_0.len(),
    ensures
        ({
            let left = left_after(stored_views(store), names, upto)->Some_0;
            is_stored(store, left[at].name, left[at].shape)
        }),
    decreases upto,
{
    let left = left_after(stored_views(store), names, upto)->Some_0;
    if upto <= 0 {
        assert(store[at].name@ == left[at].name && store[at].shape == left[at].shape);
    } else {
        let before = left_after(stored_views(store), names, upto - 1)->Some_0;
        let place = place_of(before, names[upto - 1]);
        stored_names(before).index_of_first_ensures(names[upto - 1]);
        if at < place {
            lemma_left_was_stored(store, names, upto - 1, at);
        } else {
            lemma_left_was_stored(store, names, upto - 1, at + 1);
        }
    }
}

/// If all names up to a place could be taken, each of them was there when its turn came.
pub proof fn taken_names_were_there(
    store: Seq<StoredView>,
    names: Seq<Seq<char>>,
    upto: int,
    index: int,
)
    requires
        left_after(store, names, upto) is Some,
        0 <= index < upto,
    ensures
        left_after(store, names, index) is Some,
        stored_names(left_after(store, names, index)->Some_0).contains(names[index]),
    decreases upto,
{
    if index < upto - 1 {
        taken_names_were_there(store, names, upto - 1, index);
    }
}

proof fn lemma_taken_was_stored(
    store: Seq<StoredTensor>,
    names: Seq<Seq<char>>,
    index: int,
)
    requires
        left_after(stored_views(store), names, names.len() as int) is Some,
        0 <= index < names.len(),
    ensures
        is_stored(
            store,
            names[index],
            crate::model::checkpoint::shape_taken(stored_views(store), names, index),
        ),
{
    let all = stored_views(store);
    taken_names_were_there(all, names, names.len() as int, index);
    let left = left_after(all, names, index)->Some_0;
    stored_names(left).index_of_first_ensures(names[index]);
    lemma_left_was_stored(store, names, index, place_of(left, names[index]));
}

proof fn lemma_layer_names(attention: Seq<bool>, upto: int, layer: int, i: int)
    requires
        0 <= layer < upto <= attention.len(),
        0 <= i < layer_tensors(attention[layer]).len(),
    ensures
        layer_tensor_names(attention, layer).len() + i < layer_tensor_names(attention, upto).len(),
        layer_tensor_names(attention, upto)[layer_tensor_names(attention, layer).len() + i]
            == tensor_path(layer as nat, layer_tensors(attention[layer])[i]),
    decreases upto,
{
    if layer < upto - 1 {
        lemma_layer_names(attention, upto - 1, layer, i);
    }
}

/// The name of a tensor of a layer in a checkpoint.
pub open spec fn stored_name(layer: int, suffix: Seq<char>) -> Seq<char> {
    "model.layers."@ + decimal_text(layer as nat) + suffix
}

proof fn lemma_layer_tensor_is_stored(
    store: Seq<StoredTensor>,
    attention: Seq<bool>,
    layer: int,
    i: int,
)
    requires
        left_after(
            stored_views(store),
            tensor_names(attention),
            tensor_names(attention).len() as int,
        ) is Some,
        0 <= layer < attention.len(),
        0 <= i < layer_tensors(attention[layer]).len(),
    ensures
        is_stored(
            store,
            stored_name(layer, layer_tensors(attention[layer])[i].path()),
            crate::model::checkpoint::layer_shapes(stored_views(store), attention, layer)[i],
        ),
{
    lemma_layer_names(attention, attention.len() as int, layer, i);
    lemma_taken_was_stored(store, tensor_names(attention), layer_start(attention, layer) + i);
}

/// Weights come from the tensors that carry their names: the head from the embedding, the
/// final norm from its own vector, and nothing is quantised when it is loaded.
pub proof fn heads_are_loaded_by_name(
    store: Vec<StoredTensor>,
    attention: Vec<bool>,
    inv_freq_elements: usize,
    r: Result<Lfm2Weights, CheckpointError>,
)
    requires
        call_ensures(Lfm2Weights::from_store, (store, &attention, inv_freq_elements), r),
        r is Ok,
    ensures
        is_projection_of(store@, "model.embed_tokens.weight"@, r->Ok_0.embedding),
        is_vector_of(store@, "model.embedding_norm.weight"@, r->Ok_0.final_norm_elements),
        r->Ok_0.inv_freq_elements == inv_freq_elements,
        r->Ok_0.layers@.len() == attention@.len(),
{
    lemma_taken_was_stored(store@, tensor_names(attention@), 0);
    lemma_taken_was_stored(store@, tensor_names(attention@), 1);
    let weights = r->Ok_0@;
    assert(weights.embedding == r->Ok_0.embedding);
}

/// The feed-forward part of every layer comes from the tensors of that layer that carry its
/// names; the first product stacks `w1` on `w3`.
pub proof fn feed_forwards_are_loaded_by_name(
    store: Vec<StoredTensor>,
    attention: Vec<bool>,
    inv_freq_elements: usize,
    r: Result<Lfm2Weights, CheckpointError>,
    layer: int,
)
    requires
        call_ensures(Lfm2Weights::from_store, (store, &attention, inv_freq_elements), r),
        r is Ok,
        0 <= layer < attention@.len(),
    ensures
        ({
            let loaded = r->Ok_0.layers@[layer];
            &&& is_vector_of(
                store@,
                stored_name(layer, ".operator_norm.weight"@),
                loaded.operator_norm_elements,
            )
            &&& is_vector_of(store@, stored_name(layer, ".ffn_norm.weight"@), loaded.ffn_norm_elements)
            &&& is_stack_of(
                store@,
                stored_name(layer, ".feed_forward.w1.weight"@),
                stored_name(layer, ".feed_forward.w3.weight"@),
                loaded.gate_up,
            )
            &&& is_projection_of(
                store@,
                stored_name(layer, ".feed_forward.w2.weight"@),
                loaded.down,
            )
        }),
{
    lemma_layer_tensor_is_stored(store@, attention@, layer, 0);
    lemma_layer_tensor_is_stored(store@, attention@, layer, 1);
    lemma_layer_tensor_is_stored(store@, attention@, layer, 2);
    lemma_layer_tensor_is_stored(store@, attention@, layer, 3);
    lemma_layer_tensor_is_stored(store@, attention@, layer, 4);
    assert(crate::model::checkpoint::layer_stacks(stored_views(store@), attention@, layer));
    assert(r->Ok_0@.layers[layer] == r->Ok_0.layers@[layer]);
}

/// The operator of every layer is of the layer's kind and comes from the tensors of that
/// layer that carry its names.
pub proof fn operators_are_loaded_by_name(
    store: Vec<StoredTensor>,
    attention: Vec<bool>,
    inv_freq_elements: usize,
    r: Result<Lfm2Weights, CheckpointError>,
    layer: int,
)
    requires
        call_ensures(Lfm2Weights::from_store, (store, &attention, inv_freq_elements), r),
        r is Ok,
        0 <= layer < attention@.len(),
    ensures
        match r->Ok_0.layers@[layer].operator {
            OperatorWeights::Attention(loaded) => {
                &&& attention@[layer]
                &&& is_projection_of(
                    store@,
                    stored_name(layer, ".self_attn.q_proj.weight"@),
                    loaded.query,
                )
                &&& is_projection_of(
                    store@,
                    stored_name(layer, ".self_attn.k_proj.weight"@),
                    loaded.key,
                )
                &&& is_projection_of(
                    store@,
                    stored_name(layer, ".self_attn.v_proj.weight"@),
                    loaded.value,
                )
                &&& is_projection_of(
                    store@,
                    stored_name(layer, ".self_attn.out_proj.weight"@),
                    loaded.output,
                )
                &&& is_vector_of(
                    store@,
                    stored_name(layer, ".self_attn.q_layernorm.weight"@),
                    loaded.query_norm_elements,
                )
                &&& is_vector_of(
                    store@,
                    stored_name(layer, ".self_attn.k_layernorm.weight"@),
                    loaded.key_norm_elements,
                )
            },
            OperatorWeights::Conv(loaded) => {
                &&& !attention@[layer]
                &&& is_projection_of(
                    store@,
                    stored_name(layer, ".conv.in_proj.weight"@),
                    loaded.input,
                )
                &&& is_vector_of(
                    store@,
                    stored_name(layer, ".conv.conv.weight"@),
                    loaded.convolution_elements,
                )
                &&& is_projection_of(
                    store@,
                    stored_name(layer, ".conv.out_proj.weight"@),
                    loaded.output,
                )
            },
        },
{
    lemma_layer_tensor_is_stored(store@, attention@, layer, 5);
    lemma_layer_tensor_is_stored(store@, attention@, layer, 6);
    lemma_layer_tensor_is_stored(store@, attention@, layer, 7);
    if attention@[layer] {
        lemma_layer_tensor_is_stored(store@, attention@, layer, 8);
        lemma_layer_tensor_is_stored(store@, attention@, layer, 9);
        lemma_layer_tensor_is_stored(store@, attention@, layer, 10);
    }
    assert(r->Ok_0@.layers[layer] == r->Ok_0.layers@[layer]);
}

/// Every product of the model is prepared for every batch, and nothing else is: the packed
/// convolution input, the square projections, both feed-forward widths with and without the
/// gate, the key and value width, and the head.
pub proof fn bf16_products_are_all_prepared(batches: Vec<usize>, r: Vec<GemmShape>, i: int)
    requires
        call_ensures(bf16_gemm_shapes, (&batches,), r),
        0 <= i < batches@.len(),
    ensures
        r@.len() == 7 * batches@.len(),
        r@.contains(GemmShape { batch: batches@[i], rows: 6144, columns: 2048 }),
        r@.contains(GemmShape { batch: batches@[i], rows: 2048, columns: 2048 }),
        r@.contains(GemmShape { batch: batches@[i], rows: 8192, columns: 2048 }),
        r@.contains(GemmShape { batch: batches@[i], rows: 16384, columns: 2048 }),
        r@.contains(GemmShape { batch: batches@[i], rows: 2048, columns: 8192 }),
        r@.contains(GemmShape { batch: batches@[i], rows: 512, columns: 2048 }),
        r@.contains(GemmShape { batch: batches@[i], rows: 65536, columns: 2048 }),
{
    assert(r@[7 * i] == (GemmShape { batch: batches@[i], rows: 6144, columns: 2048 }));
    assert(r@[7 * i + 1] == (GemmShape { batch: batches@[i], rows: 2048, columns: 2048 }));
    assert(r@[7 * i + 2] == (GemmShape { batch: batches@[i], rows: 8192, columns: 2048 }));
    assert(r@[7 * i + 3] == (GemmShape { batch: batches@[i], rows: 16384, columns: 2048 }));
    assert(r@[7 * i + 4] == (GemmShape { batch: batches@[i], rows: 2048, columns: 8192 }));
    assert(r@[7 * i + 5] == (GemmShape { batch: batches@[i], rows: 512, columns: 2048 }));
    assert(r@[7 * i + 6] == (GemmShape { batch: batches@[i], rows: 65536, columns: 2048 }));
}

/// The decoding requests alone, up to one for each slot, form batches that are prepared for,
/// and so does a lone token of a prompt. No batch is empty or beyond both limits.
pub proof fn decode_batches_are_prepared(
    request_slots: usize,
    maximum_batch_tokens: usize,
    r: Vec<usize>,
    batch: usize,
)
    requires
        call_ensures(serving_batches, (request_slots, maximum_batch_tokens), r),
    ensures
        0 < batch <= request_slots ==> r@.contains(batch),
        maximum_batch_tokens > 0 ==> r@.contains(1usize),
        !r@.contains(0usize),
        r@.contains(batch) ==> batch <= request_slots || batch <= maximum_batch_tokens,
{
    let slots = request_slots as int;
    let tokens = maximum_batch_tokens as int;
    if 0 < batch <= request_slots {
        assert(crate::model::checkpoint::is_serving_batch(batch as int, slots, tokens));
    }
    if maximum_batch_tokens > 0 {
        assert(crate::model::checkpoint::is_power_of_two(1));
        assert(crate::model::checkpoint::is_serving_batch(1, slots, tokens));
    }
}

/// A chunk of a prompt whose length is a power of two is prepared for as soon as a batch
/// holds it.
pub proof fn chunk_batches_are_prepared(
    request_slots: usize,
    maximum_batch_tokens: usize,
    r: Vec<usize>,
    exponent: nat,
)
    requires
        call_ensures(serving_batches, (request_slots, maximum_batch_tokens), r),
        vstd::arithmetic::power2::pow2(exponent) <= maximum_batch_tokens,
    ensures
        r@.contains(vstd::arithmetic::power2::pow2(exponent) as usize),
{
    lemma_powers(exponent);
    let chunk = vstd::arithmetic::power2::pow2(exponent) as int;
    vstd::arithmetic::power2::lemma_pow2_pos(exponent);
    assert(crate::model::checkpoint::is_power_of_two(chunk));
    assert(crate::model::checkpoint::is_serving_batch(
        chunk,
        request_slots as int,
        maximum_batch_tokens as int,
    ));
}

proof fn lemma_powers(exponent: nat)
    ensures
        crate::model::checkpoint::is_power_of_two(
            vstd::arithmetic::power2::pow2(exponent) as int,
        ),
    decreases exponent,
{
    if exponent == 0 {
        vstd::arithmetic::power2::lemma2_to64();
    } else {
        lemma_powers((exponent - 1) as nat);
        vstd::arithmetic::power2::lemma_pow2_unfold(exponent);
        vstd::arithmetic::power2::lemma_pow2_pos((exponent - 1) as nat);
    }
}

/// Places are named by their layer and their part of it; the three projections that read the
/// same activations share the name of those.
pub proof fn places_are_named_by_layer(
    layer: usize,
    projection: Projection,
    site: String,
    weight: String,
    input: String,
)
    requires
        call_ensures(site_name, (layer, projection), site),
        call_ensures(weight_name, (layer, projection), weight),
        call_ensures(input_name, (layer, projection), input),
    ensures
        ({
            let part = match projection {
                Projection::GateUp => ".mlp.gate_up"@,
                Projection::Down => ".mlp.down"@,
                Projection::ConvInput => ".conv.input"@,
                Projection::ConvOutput => ".conv.output"@,
                Projection::Query => ".attention.query"@,
                Projection::Key => ".attention.key"@,
                Projection::Value => ".attention.value"@,
                Projection::Output => ".attention.output"@,
            };
            let reads = if projection is Query || projection is Key || projection is Value {
                ".attention.qkv"@
            } else {
                part
            };
            &&& site@ == "layers."@ + decimal_text(layer as nat) + part
            &&& weight@ == site@ + ".weight"@
            &&& input@ == "layers."@ + decimal_text(layer as nat) + reads + ".input"@
        }),
{
}

/// The elements of a layer, each counted as often as it takes bytes: two for a bf16 value
/// and one more for its fp8 copy.
pub open spec fn projection_bytes(weight: LinearWeight) -> int {
    weight.rows * weight.columns * (if weight.fp8 is Some {
        3int
    } else {
        2int
    })
}

/// The bytes that the weights of a layer take.
pub open spec fn layer_bytes(layer: LayerWeights) -> int {
    2 * (layer.operator_norm_elements + layer.ffn_norm_elements) + projection_bytes(layer.gate_up)
        + projection_bytes(layer.down) + match layer.operator {
        OperatorWeights::Conv(conv) => projection_bytes(conv.input) + projection_bytes(conv.output)
            + 2 * conv.convolution_elements,
        OperatorWeights::Attention(attention) => projection_bytes(attention.query)
            + projection_bytes(attention.key) + projection_bytes(attention.value)
            + projection_bytes(attention.output) + 2 * (attention.query_norm_elements
            + attention.key_norm_elements),
    }
}

/// The bytes that the first `upto` layers take.
pub open spec fn layers_bytes(layers: Seq<LayerWeights>, upto: int) -> int
    decreases upto,
{
    if upto <= 0 {
        0
    } else {
        layers_bytes(layers, upto - 1) + layer_bytes(layers[upto - 1])
    }
}

/// The bytes that all weights take; a rotary frequency takes four.
pub open spec fn weight_bytes(weights: Lfm2Weights) -> int {
    projection_bytes(weights.embedding) + 2 * weights.final_norm_elements + 4
        * weights.inv_freq_elements + layers_bytes(weights.layers@, weights.layers@.len() as int)
}

proof fn lemma_projection_bytes(weight: LinearWeight)
    ensures
        projection_bytes(weight) >= 0,
        weight.bytes() == crate::num::min_int(projection_bytes(weight), usize::MAX as int),
{
    let rows = weight.rows as int;
    let columns = weight.columns as int;
    let elements = rows * columns;
    assert(elements >= 0) by (nonlinear_arith)
        requires
            elements == rows * columns,
            rows >= 0,
            columns >= 0,
    ;
    assert(elements * 3 == elements + elements + elements);
    assert(projection_bytes(weight) == elements * (if weight.fp8 is Some {
        3int
    } else {
        2int
    }));
}

/// A value that sticks to the largest machine integer.
spec fn capped(value: int) -> int {
    crate::num::min_int(value, usize::MAX as int)
}

proof fn lemma_capped_sum(a: int, b: int)
    requires
        a >= 0,
        b >= 0,
    ensures
        capped_sum(capped(a), capped(b)) == capped(a + b),
{
}

#[verifier::spinoff_prover]
proof fn lemma_layer_bytes(layer: LayerWeights)
    ensures
        layer_bytes(layer) >= 0,
        layer.bytes() == crate::num::min_int(layer_bytes(layer), usize::MAX as int),
{
    let norms = 2 * layer.operator_norm_elements + 2 * layer.ffn_norm_elements;
    let gate_up = projection_bytes(layer.gate_up);
    let down = projection_bytes(layer.down);
    lemma_projection_bytes(layer.gate_up);
    lemma_projection_bytes(layer.down);
    lemma_capped_sum(2 * layer.operator_norm_elements, 2 * layer.ffn_norm_elements);
    lemma_capped_sum(norms, gate_up);
    lemma_capped_sum(norms + gate_up, down);
    let mlp = norms + gate_up + down;
    match layer.operator {
        OperatorWeights::Conv(conv) => {
            let input = projection_bytes(conv.input);
            let output = projection_bytes(conv.output);
            let kernel = 2 * conv.convolution_elements;
            lemma_projection_bytes(conv.input);
            lemma_projection_bytes(conv.output);
            lemma_capped_sum(mlp, input);
            lemma_capped_sum(mlp + input, kernel);
            lemma_capped_sum(mlp + input + kernel, output);
            assert(layer_bytes(layer) == mlp + input + kernel + output);
        },
        OperatorWeights::Attention(attention) => {
            let query = projection_bytes(attention.query);
            let key = projection_bytes(attention.key);
            let value = projection_bytes(attention.value);
            let output = projection_bytes(attention.output);
            let query_norm = 2 * attention.query_norm_elements;
            let key_norm = 2 * attention.key_norm_elements;
            lemma_projection_bytes(attention.query);
            lemma_projection_bytes(attention.key);
            lemma_projection_bytes(attention.value);
            lemma_projection_bytes(attention.output);
            lemma_capped_sum(mlp, query);
            lemma_capped_sum(mlp + query, key);
            lemma_capped_sum(mlp + query + key, value);
            lemma_capped_sum(mlp + query + key + value, output);
            lemma_capped_sum(mlp + query + key + value + output, query_norm);
            lemma_capped_sum(mlp + query + key + value + output + query_norm, key_norm);
            assert(layer_bytes(layer) == mlp + query + key + value + output + query_norm
                + key_norm);
        },
    }
}

proof fn lemma_weights_bytes(weights: Lfm2Weights, upto: int)
    requires
        0 <= upto <= weights.layers@.len(),
    ensures
        layers_bytes(weights.layers@, upto) >= 0,
        weights@.bytes(upto) == crate::num::min_int(
            projection_bytes(weights.embedding) + 2 * weights.final_norm_elements + 4
                * weights.inv_freq_elements + layers_bytes(weights.layers@, upto),
            usize::MAX as int,
        ),
    decreases upto,
{
    lemma_projection_bytes(weights.embedding);
    if upto > 0 {
        lemma_weights_bytes(weights, upto - 1);
        lemma_layer_bytes(weights.layers@[upto - 1]);
    }
}

/// The bytes of a model are those of its weights, all of them once, unless they are more
/// than a machine integer counts.
pub proof fn resident_bytes_count_every_weight(weights: Lfm2Weights, r: usize)
    requires
        call_ensures(Lfm2Weights::resident_weight_bytes, (&weights,), r),
    ensures
        r == (if weight_bytes(weights) <= usize::MAX {
            weight_bytes(weights)
        } else {
            usize::MAX as int
        }),
{
    lemma_weights_bytes(weights, weights.layers@.len() as int);
}

proof fn lemma_layer_product_is_listed(
    batch: usize,
    layer: LayerWeights,
    upto: int,
    k: int,
)
    requires
        0 <= k < upto <= layer.projections().len(),
        layer.linear(layer.projections()[k]).fp8 is Some,
    ensures
        ({
            let weight = layer.linear(layer.projections()[k]);
            layer_shapes(batch, layer, upto).contains(
                GemmShape { batch, rows: weight.rows, columns: weight.columns },
            )
        }),
    decreases upto,
{
    let weight = layer.linear(layer.projections()[k]);
    let shape = GemmShape { batch, rows: weight.rows, columns: weight.columns };
    let earlier = layer_shapes(batch, layer, upto - 1);
    let all = layer_shapes(batch, layer, upto);
    if k == upto - 1 {
        assert(all[earlier.len() as int] == shape);
    } else {
        lemma_layer_product_is_listed(batch, layer, upto - 1, k);
        let i = choose|i: int| 0 <= i < earlier.len() && earlier[i] == shape;
        assert(all[i] == shape);
    }
}

proof fn lemma_product_is_listed(
    batch: usize,
    layers: Seq<LayerWeights>,
    upto: int,
    l: int,
    k: int,
)
    requires
        0 <= l < upto <= layers.len(),
        0 <= k < layers[l].projections().len(),
        layers[l].linear(layers[l].projections()[k]).fp8 is Some,
    ensures
        ({
            let weight = layers[l].linear(layers[l].projections()[k]);
            layers_shapes(batch, layers, upto).contains(
                GemmShape { batch, rows: weight.rows, columns: weight.columns },
            )
        }),
    decreases upto,
{
    let weight = layers[l].linear(layers[l].projections()[k]);
    let shape = GemmShape { batch, rows: weight.rows, columns: weight.columns };
    let earlier = layers_shapes(batch, layers, upto - 1);
    let all = layers_shapes(batch, layers, upto);
    if l == upto - 1 {
        let own = layer_shapes(batch, layers[l], layers[l].projections().len() as int);
        lemma_layer_product_is_listed(batch, layers[l], layers[l].projections().len() as int, k);
        let i = choose|i: int| 0 <= i < own.len() && own[i] == shape;
        assert(all[earlier.len() + i] == shape);
    } else {
        lemma_product_is_listed(batch, layers, upto - 1, l, k);
        let i = choose|i: int| 0 <= i < earlier.len() && earlier[i] == shape;
        assert(all[i] == shape);
    }
}

proof fn lemma_batch_is_listed(
    weights: Lfm2Weights,
    maximum: int,
    batch: int,
    shape: GemmShape,
)
    requires
        0 < batch <= maximum <= usize::MAX,
        layers_shapes(batch as usize, weights.layers@, weights.layers@.len() as int).contains(shape)
            || fp8_shape(batch as usize, weights.embedding).contains(shape),
    ensures
        batched_shapes(weights@, maximum).contains(shape),
    decreases maximum,
{
    let earlier = batched_shapes(weights@, maximum - 1);
    let all = batched_shapes(weights@, maximum);
    if batch == maximum {
        let own = layers_shapes(maximum as usize, weights.layers@, weights.layers@.len() as int);
        let head = fp8_shape(maximum as usize, weights.embedding);
        if own.contains(shape) {
            let i = choose|i: int| 0 <= i < own.len() && own[i] == shape;
            assert(all[earlier.len() + i] == shape);
        } else {
            let i = choose|i: int| 0 <= i < head.len() && head[i] == shape;
            assert(all[earlier.len() + own.len() + i] == shape);
        }
    } else {
        lemma_batch_is_listed(weights, maximum - 1, batch, shape);
        let i = choose|i: int| 0 <= i < earlier.len() && earlier[i] == shape;
        assert(all[i] == shape);
    }
}

/// A projection of a layer that the layer has.
pub open spec fn is_projection_in(layer: LayerWeights, weight: LinearWeight) -> bool {
    ||| weight == layer.gate_up
    ||| weight == layer.down
    ||| match layer.operator {
        OperatorWeights::Conv(conv) => weight == conv.input || weight == conv.output,
        OperatorWeights::Attention(attention) => weight == attention.query || weight
            == attention.key || weight == attention.value || weight == attention.output,
    }
}

/// Every projection with an fp8 copy, and the head if it has one, is prepared for every batch
/// up to the limit.
pub proof fn fp8_products_are_all_prepared(
    weights: Lfm2Weights,
    maximum: usize,
    r: Vec<GemmShape>,
    batch: usize,
    l: int,
    weight: LinearWeight,
)
    requires
        call_ensures(Lfm2Weights::fp8_gemm_shapes, (&weights, maximum), r),
        0 < batch <= maximum,
        weight.fp8 is Some,
        weight == weights.embedding || 0 <= l < weights.layers@.len() && is_projection_in(
            weights.layers@[l],
            weight,
        ),
    ensures
        r@.contains(GemmShape { batch, rows: weight.rows, columns: weight.columns }),
{
    let shape = GemmShape { batch, rows: weight.rows, columns: weight.columns };
    if weight == weights.embedding {
        assert(fp8_shape(batch, weights.embedding)[0] == shape);
    } else {
        let layer = weights.layers@[l];
        let listed = layer.projections();
        let k: int = if weight == layer.gate_up {
            0
        } else if weight == layer.down {
            1
        } else {
            match layer.operator {
                OperatorWeights::Conv(conv) => if weight == conv.input {
                    2
                } else {
                    3
                },
                OperatorWeights::Attention(attention) => if weight == attention.query {
                    2
                } else if weight == attention.key {
                    3
                } else if weight == attention.value {
                    4
                } else {
                    5
                },
            }
        };
        assert(layer.linear(listed[k]) == weight);
        lemma_product_is_listed(batch, weights.layers@, weights.layers@.len() as int, l, k);
    }
    lemma_batch_is_listed(weights, maximum as int, batch as int, shape);
}

/// A model is loaded in bf16 and decodes so until it is told otherwise, one request at a
/// time where fp8 is concerned.
pub proof fn models_start_in_bf16(weights: Lfm2Weights, fused: bool, r: Lfm2Model)
    requires
        call_ensures(Lfm2Model::new, (weights, fused), r),
    ensures
        r.weights == weights,
        !r.decode_fp8_enabled,
        r.fused_rms_fp8_enabled == fused,
        r.maximum_fp8_batch == 1,
{
}

/// Only a decode policy that names no site twice is installed. Fp8 decoding is then on
/// exactly if something was installed, for one request at a time; a refused policy changes
/// nothing.
pub proof fn installing_turns_fp8_on(
    model: &mut Lfm2Model,
    policy: Fp8PrecisionPolicy,
    r: Result<usize, PolicyError>,
)
    requires
        call_ensures(Lfm2Model::install_fp8_policy, (model, &policy), r),
    ensures
        r is Ok ==> {
            &&& policy.decode_only
            &&& final(model).decode_fp8_enabled <==> r->Ok_0 > 0
            &&& final(model).maximum_fp8_batch == 1
            &&& final(model).fused_rms_fp8_enabled == old(model).fused_rms_fp8_enabled
            &&& final(model).weights@ == crate::model::weights::weights_with_policy(
                old(model).weights@,
                policy@.sites,
            )
        },
        !policy.decode_only ==> r == Err::<usize, PolicyError>(PolicyError::NotDecodeOnly),
        r is Err ==> *final(model) == *old(model),
{
}

/// The fp8 batch can be made smaller than what was prepared, never larger and never empty,
/// and nothing else changes.
pub proof fn restricting_never_widens(
    model: &mut Lfm2Model,
    batch: usize,
    r: Result<(), PolicyError>,
)
    requires
        call_ensures(Lfm2Model::restrict_fp8_batch, (model, batch), r),
    ensures
        r is Ok <==> 0 < batch <= old(model).maximum_fp8_batch,
        r is Ok ==> final(model).maximum_fp8_batch == batch,
        r is Err ==> final(model).maximum_fp8_batch == old(model).maximum_fp8_batch,
        batch == 0 ==> r == Err::<(), PolicyError>(PolicyError::EmptyBatch),
        batch > old(model).maximum_fp8_batch ==> r == Err::<(), PolicyError>(
            PolicyError::BatchNotPrepared,
        ),
        final(model).weights == old(model).weights,
        final(model).decode_fp8_enabled == old(model).decode_fp8_enabled,
        final(model).fused_rms_fp8_enabled == old(model).fused_rms_fp8_enabled,
{
}

/// Fp8 decoding can always be turned off, and on if some projection or the head has a copy.
pub proof fn fp8_needs_installed_copies(
    model: &mut Lfm2Model,
    enabled: bool,
    r: Result<(), PolicyError>,
)
    requires
        call_ensures(Lfm2Model::set_decode_fp8_enabled, (model, enabled), r),
    ensures
        !enabled ==> r is Ok && !final(model).decode_fp8_enabled,
        enabled && old(model).weights.embedding.fp8 is Some ==> r is Ok,
        enabled && (exists|l: int|
            0 <= l < old(model).weights.layers@.len() && (
            #[trigger] old(model).weights.layers@[l]).down.fp8 is Some) ==> r is Ok,
        r is Ok ==> final(model).decode_fp8_enabled == enabled,
        r is Err ==> *final(model) == *old(model),
        r is Err ==> r == Err::<(), PolicyError>(PolicyError::NothingInstalled),
        r is Err ==> old(model).weights.embedding.fp8 is None,
        final(model).weights == old(model).weights,
        final(model).maximum_fp8_batch == old(model).maximum_fp8_batch,
        final(model).fused_rms_fp8_enabled == old(model).fused_rms_fp8_enabled,
{
    assert(old(model).weights@.layers == old(model).weights.layers@);
}

/// Batched fp8 is prepared for a batch only if it holds a request and something is
/// installed; larger batches than that are not allowed afterwards.
pub proof fn preparing_allows_the_batch(
    model: &mut Lfm2Model,
    batch: usize,
    r: Result<Vec<GemmShape>, PolicyError>,
)
    requires
        call_ensures(Lfm2Model::prepare_batched_fp8, (model, batch), r),
    ensures
        r is Ok ==> final(model).maximum_fp8_batch == batch && batch > 0,
        r is Ok ==> r->Ok_0@ == batched_shapes(old(model).weights@, batch as int),
        r is Err ==> *final(model) == *old(model),
        batch == 0 ==> r == Err::<Vec<GemmShape>, PolicyError>(PolicyError::EmptyBatch),
        batch > 0 && old(model).weights.embedding.fp8 is Some ==> r is Ok,
        final(model).weights == old(model).weights,
        final(model).decode_fp8_enabled == old(model).decode_fp8_enabled,
        final(model).fused_rms_fp8_enabled == old(model).fused_rms_fp8_enabled,
{
}

/// A decode executor prepares what batched fp8 would, and nothing while fp8 decoding is off.
pub proof fn executors_prepare_only_what_runs(model: Lfm2Model, batch: usize, r: Vec<GemmShape>, own: Vec<GemmShape>)
    requires
        call_ensures(Lfm2Model::prepare_decode_executor_fp8, (&model, batch), r),
        call_ensures(Lfm2Weights::fp8_gemm_shapes, (&model.weights, batch), own),
    ensures
        model.decode_fp8_enabled ==> r@ == own@,
        !model.decode_fp8_enabled ==> r@.len() == 0,
{
}

/// From `start` on the list holds the tensors of a layer, in the order in which they are taken.
pub open spec fn lists_layer(names: Seq<String>, start: int, layer: int, attention: bool) -> bool {
    &&& 2 <= start
    &&& start + (if attention {
        11int
    } else {
        8int
    }) <= names.len()
    &&& names[start]@ == stored_name(layer, ".operator_norm.weight"@)
    &&& names[start + 1]@ == stored_name(layer, ".ffn_norm.weight"@)
    &&& names[start + 2]@ == stored_name(layer, ".feed_forward.w1.weight"@)
    &&& names[start + 3]@ == stored_name(layer, ".feed_forward.w3.weight"@)
    &&& names[start + 4]@ == stored_name(layer, ".feed_forward.w2.weight"@)
    &&& attention ==> names[start + 5]@ == stored_name(layer, ".self_attn.q_proj.weight"@)
        && names[start + 6]@ == stored_name(layer, ".self_attn.k_proj.weight"@) && names[start
        + 7]@ == stored_name(layer, ".self_attn.v_proj.weight"@) && names[start + 8]@
        == stored_name(layer, ".self_attn.out_proj.weight"@) && names[start + 9]@ == stored_name(
        layer,
        ".self_attn.q_layernorm.weight"@,
    ) && names[start + 10]@ == stored_name(layer, ".self_attn.k_layernorm.weight"@)
    &&& !attention ==> names[start + 5]@ == stored_name(layer, ".conv.in_proj.weight"@)
        && names[start + 6]@ == stored_name(layer, ".conv.conv.weight"@) && names[start + 7]@
        == stored_name(layer, ".conv.out_proj.weight"@)
}

/// The tensors of every layer stand together, norms first, then the feed-forward part with
/// its two halves in order, then the operator's.
pub proof fn layers_are_listed_together(attention: Vec<bool>, r: Vec<String>, layer: int)
    requires
        call_ensures(expected_tensors, (&attention,), r),
        0 <= layer < attention@.len(),
    ensures
        exists|start: int| #[trigger] lists_layer(r@, start, layer, attention@[layer]),
{
    let listed = texts(r@);
    assert(listed == tensor_names(attention@));
    let start = layer_start(attention@, layer);
    let count = layer_tensors(attention@[layer]).len();
    assert forall|k: int| 0 <= k < count implies start + k < r@.len() && (#[trigger] r@[start
        + k])@ == stored_name(layer, layer_tensors(attention@[layer])[k].path()) by {
        lemma_layer_names(attention@, attention@.len() as int, layer, k);
        assert(listed[start + k] == r@[start + k]@);
    }
    assert(r@[start + 0]@ == stored_name(layer, ".operator_norm.weight"@));
    assert(r@[start + (count - 1)]@ == stored_name(
        layer,
        layer_tensors(attention@[layer])[count - 1].path(),
    ));
    assert(lists_layer(r@, start, layer, attention@[layer]));
}

/// The tensors that a checkpoint has to hold are the two that belong to no layer, then those
/// of the layers in order: every layer has its norms and its feed-forward part, and the
/// projections of its kind.
pub proof fn expected_tensors_are_those_of_the_layers(
    attention: Vec<bool>,
    r: Vec<String>,
    layer: int,
    suffix: Seq<char>,
)
    requires
        call_ensures(expected_tensors, (&attention,), r),
        0 <= layer < attention@.len(),
        ({
            ||| suffix == ".operator_norm.weight"@
            ||| suffix == ".ffn_norm.weight"@
            ||| suffix == ".feed_forward.w1.weight"@
            ||| suffix == ".feed_forward.w3.weight"@
            ||| suffix == ".feed_forward.w2.weight"@
            ||| attention@[layer] && (suffix == ".self_attn.q_proj.weight"@ || suffix
                == ".self_attn.k_proj.weight"@ || suffix == ".self_attn.v_proj.weight"@ || suffix
                == ".self_attn.out_proj.weight"@ || suffix == ".self_attn.q_layernorm.weight"@
                || suffix == ".self_attn.k_layernorm.weight"@)
            ||| !attention@[layer] && (suffix == ".conv.in_proj.weight"@ || suffix
                == ".conv.conv.weight"@ || suffix == ".conv.out_proj.weight"@)
        }),
    ensures
        r@.len() >= 2,
        r@[0]@ == "model.embed_tokens.weight"@,
        r@[1]@ == "model.embedding_norm.weight"@,
        exists|i: int| 2 <= i < r@.len() && (#[trigger] r@[i])@ == stored_name(layer, suffix),
{
    let names = tensor_names(attention@);
    let listed = texts(r@);
    assert(listed == names);
    assert(listed[0] == names[0] && listed[1] == names[1]);
    let tensors = layer_tensors(attention@[layer]);
    let k: int = if suffix == tensors[0].path() {
        0
    } else if suffix == tensors[1].path() {
        1
    } else if suffix == tensors[2].path() {
        2
    } else if suffix == tensors[3].path() {
        3
    } else if suffix == tensors[4].path() {
        4
    } else if suffix == tensors[5].path() {
        5
    } else if suffix == tensors[6].path() {
        6
    } else if suffix == tensors[7].path() {
        7
    } else if suffix == tensors[8].path() {
        8
    } else if suffix == tensors[9].path() {
        9
    } else {
        10
    };
    lemma_layer_names(attention@, attention@.len() as int, layer, k);
    let at = layer_start(attention@, layer) + k;
    assert(listed[at] == stored_name(layer, suffix));
    assert(r@[at]@ == stored_name(layer, suffix));
}

} // verus!
