//! Weights, checkpoints, policies and the decode executor.
use lfm25_inference::cache::KvPageSize;
use lfm25_inference::engine::batch::RaggedBatch;
use lfm25_inference::engine::workload::{decode_metadata, forced_tokens, repeated_prompt_batch};
use lfm25_inference::float::{F32, F64};
use lfm25_inference::model::batch_cache::{BatchCacheError, BatchModelCache};
use lfm25_inference::model::checkpoint::{
    bf16_gemm_shapes, check_packed_shape, check_packed_weights, expected_tensors,
    packed_qkv_shapes, serving_batches, CheckpointError, PackedQkvError, StoredTensor,
    TensorShape,
};
use lfm25_inference::model::decode_executor::{
    fp8_linear_shape, longest_context, DecodeDispatch, DecodeExecutor, DecodeGraphBucket,
    ExecutorError, ExecutorRunError, GraphQuery, Int8DownError, Int8DownMode, Int8DownState,
    KernelChoice, LinearShape,
};
use lfm25_inference::model::forward::batch_shape;
use lfm25_inference::model::quantization::{
    Fp8PrecisionPolicy, Fp8SitePolicy, ScalarScale, ScaleStrategy,
};
use lfm25_inference::model::weights::{
    input_name, layer_name, site_name, weight_name, AttentionWeights, ConvWeights, LayerWeights,
    Lfm2Model, Lfm2Weights, LinearWeight, OperatorWeights, PolicyError, Projection, WeightSite,
};

fn linear(rows: usize, columns: usize) -> LinearWeight {
    LinearWeight::bf16(rows, columns)
}

fn conv_layer() -> LayerWeights {
    LayerWeights {
        operator_norm_elements: 4,
        operator: OperatorWeights::Conv(ConvWeights {
            input: linear(12, 4),
            convolution_elements: 12,
            output: linear(4, 4),
        }),
        ffn_norm_elements: 4,
        gate_up: linear(16, 4),
        down: linear(4, 8),
    }
}

fn attention_layer() -> LayerWeights {
    LayerWeights {
        operator: OperatorWeights::Attention(AttentionWeights {
            query: linear(4, 4),
            key: linear(2, 4),
            value: linear(2, 4),
            output: linear(4, 4),
            query_norm_elements: 2,
            key_norm_elements: 2,
        }),
        ..conv_layer()
    }
}

fn model_weights(layers: Vec<LayerWeights>) -> Lfm2Weights {
    Lfm2Weights {
        embedding: linear(10, 4),
        final_norm_elements: 4,
        inv_freq_elements: 1,
        layers,
    }
}

fn policy(sites: &[(&str, bool)]) -> Fp8PrecisionPolicy {
    let one = F32 { bits: 1.0f32.to_bits() };
    let scale =
        ScalarScale { clip_amax: one, quantize_multiplier: one, dequantize_multiplier: one };
    Fp8PrecisionPolicy {
        schema_version: 1,
        name: "p".to_string(),
        source: "s".to_string(),
        decode_only: true,
        sites: sites
            .iter()
            .map(|(site, enabled)| Fp8SitePolicy {
                site: site.to_string(),
                enabled: *enabled,
                activation_strategy: ScaleStrategy::Amax,
                weight_strategy: ScaleStrategy::Amax,
                activation_scale: scale,
                weight_scale: scale,
                local_nrmse: F64 { bits: 0 },
                local_cosine: F64 { bits: 0 },
                expected_decode_saving_us: F64 { bits: 0 },
            })
            .collect(),
    }
}

#[test]
fn sites_have_names() {
    assert_eq!(site_name(12, Projection::GateUp), "layers.12.mlp.gate_up");
    assert_eq!(weight_name(0, Projection::ConvInput), "layers.0.conv.input.weight");
    assert_eq!(input_name(3, Projection::Key), "layers.3.attention.qkv.input");
    assert_eq!(input_name(3, Projection::Output), "layers.3.attention.output.input");
    assert_eq!(layer_name(1, ".post_mixer"), "layers.1.post_mixer");
    assert_eq!(conv_layer().projection_list().len(), 4);
    assert_eq!(attention_layer().projection_list().len(), 6);
    assert_eq!(attention_layer().weight(Projection::Value), linear(2, 4));
}

#[test]
fn policies_install_the_sites_they_enable() {
    let mut model = Lfm2Model::new(model_weights(vec![conv_layer(), attention_layer()]), true);
    assert!(!model.weights.has_installed_fp8_weights());
    let wanted = policy(&[
        ("layers.0.mlp.down", true),
        ("layers.1.attention.key", true),
        ("lm_head", false),
        ("layers.9.mlp.down", true),
    ]);
    let enabled = model.install_fp8_policy(&wanted).unwrap();
    assert!(model.weights.layers[0].down.fp8.is_some());
    assert!(model.weights.layers[0].gate_up.fp8.is_none());
    assert!(model.weights.embedding.fp8.is_none());
    assert_eq!(enabled, 2);
    assert!(model.weights.has_installed_fp8_weights() && model.decode_fp8_enabled);
    assert_eq!(model.maximum_fp8_batch, 1);
    let again = model.install_fp8_policy(&wanted).unwrap();
    assert_eq!(again, enabled);
    let twice = policy(&[("lm_head", true), ("x", true), ("lm_head", true)]);
    assert_eq!(
        model.install_fp8_policy(&twice).unwrap_err(),
        PolicyError::DuplicateSite { index: 2 }
    );
    let both = Fp8PrecisionPolicy { decode_only: false, ..policy(&[]) };
    assert_eq!(model.install_fp8_policy(&both).unwrap_err(), PolicyError::NotDecodeOnly);
}

#[test]
fn switching_needs_installed_weights() {
    let mut model = Lfm2Model::new(model_weights(vec![conv_layer()]), false);
    assert_eq!(model.set_decode_fp8_enabled(true).unwrap_err(), PolicyError::NothingInstalled);
    model.set_decode_fp8_enabled(false).unwrap();
    model.install_fp8_policy(&policy(&[("lm_head", true)])).unwrap();
    model.set_decode_fp8_enabled(false).unwrap();
    assert!(!model.decode_fp8_enabled);
    model.set_fused_rms_fp8_enabled(true);
    assert!(model.fused_rms_fp8_enabled);
    assert_eq!(model.prepare_batched_fp8(0).unwrap_err(), PolicyError::EmptyBatch);
    let shapes = model.prepare_batched_fp8(3).unwrap();
    assert_eq!(model.maximum_fp8_batch, 3);
    assert!(shapes.iter().all(|shape| (shape.rows, shape.columns) == (10, 4)));
    assert_eq!(model.restrict_fp8_batch(0).unwrap_err(), PolicyError::EmptyBatch);
    assert_eq!(model.restrict_fp8_batch(4).unwrap_err(), PolicyError::BatchNotPrepared);
    model.restrict_fp8_batch(1).unwrap();
    assert_eq!(model.maximum_fp8_batch, 1);
    assert!(model.prepare_decode_executor_fp8(2).is_empty());
    model.set_decode_fp8_enabled(true).unwrap();
    assert_eq!(model.prepare_decode_executor_fp8(2).len(), 2);
}

#[test]
fn resident_bytes_are_added_up() {
    let weights = model_weights(vec![conv_layer()]);
    let globals = 10 * 4 * 2 + 4 * 2 + 4;
    let layer = 4 * 2 + 4 * 2 + 64 * 2 + 32 * 2 + 48 * 2 + 12 * 2 + 16 * 2;
    assert_eq!(weights.resident_weight_bytes(), globals + layer);
    let mut model = Lfm2Model::new(weights, false);
    model.install_fp8_policy(&policy(&[("layers.0.mlp.down", true), ("lm_head", true)])).unwrap();
    assert_eq!(model.weights.resident_weight_bytes(), globals + layer + 32 + 40);
}

#[test]
fn all_sites_are_characterised() {
    let mut layers = vec![conv_layer(); 10];
    layers.extend(vec![attention_layer(); 6]);
    let sites = model_weights(layers).sites_to_characterize().unwrap();
    assert_eq!(sites.len(), 77);
    assert_eq!(sites[0], WeightSite::Layer { layer: 0, projection: Projection::GateUp });
    assert_eq!(sites[32], WeightSite::LmHead);
    assert_eq!(sites[76], WeightSite::Layer { layer: 15, projection: Projection::Output });
    let short = model_weights(vec![conv_layer()]).sites_to_characterize().unwrap_err();
    assert_eq!(short.sites, 5);
}

/// A small checkpoint: every tensor has a shape of its own.
fn stored(names: &[String]) -> Vec<StoredTensor> {
    names
        .iter()
        .enumerate()
        .map(|(index, name)| {
            let (rows, columns) = (if name.contains(".w3.") { 7 } else { 100 + index }, 4);
            StoredTensor {
                name: name.clone(),
                shape: TensorShape { rows, columns, elements: rows * columns },
            }
        })
        .collect()
}

fn load(store: Vec<StoredTensor>, attention: &Vec<bool>) -> Result<Lfm2Model, CheckpointError> {
    Lfm2Model::load(store, attention, 100, 4, 64, true)
}

#[test]
fn checkpoints_hold_exactly_the_expected_tensors() {
    let mut attention = vec![false; 10];
    attention.extend(vec![true; 6]);
    let names = expected_tensors(&attention);
    assert_eq!(names.len(), 148);
    assert_eq!(names[0], "model.embed_tokens.weight");
    assert_eq!(names[2], "model.layers.0.operator_norm.weight");
    let model = load(stored(&names), &attention).unwrap();
    assert_eq!(model.weights.embedding, linear(100, 4));
    assert_eq!(model.weights.final_norm_elements, 404);
    assert_eq!(model.weights.inv_freq_elements, 32);
    assert_eq!(model.weights.layers.len(), 16);
    assert_eq!(
        model.weights.layers[0],
        LayerWeights {
            operator_norm_elements: 408,
            operator: OperatorWeights::Conv(ConvWeights {
                input: linear(107, 4),
                convolution_elements: 432,
                output: linear(109, 4),
            }),
            ffn_norm_elements: 412,
            gate_up: linear(111, 4),
            down: linear(106, 4),
        }
    );
    assert_eq!(
        model.weights.layers[10].operator,
        OperatorWeights::Attention(AttentionWeights {
            query: linear(187, 4),
            key: linear(188, 4),
            value: linear(189, 4),
            output: linear(190, 4),
            query_norm_elements: 764,
            key_norm_elements: 768,
        })
    );
    assert!(!model.decode_fp8_enabled && model.fused_rms_fp8_enabled);
    let mut reversed = stored(&names);
    reversed.reverse();
    assert_eq!(load(reversed, &attention).unwrap().weights.layers, model.weights.layers);
    let mut renamed = stored(&names);
    renamed[5].name = "model.layers.0.other.weight".to_string();
    assert_eq!(
        load(renamed, &attention).unwrap_err(),
        CheckpointError::MissingTensor { index: 5 }
    );
    assert_eq!(
        load(stored(&names[1..]), &attention).unwrap_err(),
        CheckpointError::TensorCount { loaded: 147 }
    );
    let mut narrow = stored(&names);
    narrow[13].shape.columns = 3;
    narrow.swap(0, 13);
    assert_eq!(
        load(narrow, &attention).unwrap_err(),
        CheckpointError::UnstackedHalves { layer: 1 }
    );
    assert_eq!(
        Lfm2Model::load(stored(&names), &attention, 4, 100, 64, true).unwrap_err(),
        CheckpointError::EmbeddingShape
    );
    attention[15] = false;
    let mut more = expected_tensors(&attention);
    more.extend(["a".to_string(), "b".to_string(), "c".to_string()]);
    assert_eq!(
        load(stored(&more), &attention).unwrap_err(),
        CheckpointError::UnconsumedTensors { count: 3 }
    );
    let no_layers = expected_tensors(&vec![]);
    let bare = Lfm2Weights::from_store(stored(&no_layers), &vec![], 8).unwrap();
    assert_eq!((bare.layers.len(), bare.inv_freq_elements), (0, 8));
}

#[test]
fn products_are_prepared_for_serving_batches() {
    assert_eq!(bf16_gemm_shapes(&vec![1, 2]).len(), 14);
    let shape = bf16_gemm_shapes(&vec![1])[6];
    assert_eq!((shape.batch, shape.rows, shape.columns), (1, 65536, 2048));
    assert_eq!(serving_batches(2, 9), vec![1, 2, 3, 4, 5, 6, 8, 9]);
    assert_eq!(serving_batches(3, 1), vec![1, 2, 3]);
    assert_eq!(packed_qkv_shapes(0, 4, 8).unwrap_err(), PackedQkvError::NoRequestSlots);
    assert_eq!(packed_qkv_shapes(4, 0, 8).unwrap_err(), PackedQkvError::NoBatchCapacity);
    assert!(!packed_qkv_shapes(2, 4, 8).unwrap().is_empty());
    assert_eq!(check_packed_weights(None, 7, 3), Err(PackedQkvError::NotPrepared));
    assert_eq!(check_packed_weights(Some((8, 3)), 7, 3), Err(PackedQkvError::OtherModel));
    assert_eq!(check_packed_weights(Some((7, 2)), 7, 3), Err(PackedQkvError::LayerCount));
    assert_eq!(check_packed_weights(Some((7, 3)), 7, 3), Ok(()));
    assert_eq!(
        check_packed_shape(&[1, 2], 2048, 4),
        Err(PackedQkvError::WeightShape { layer: 4 })
    );
}

fn decode_batch(rows: usize) -> RaggedBatch {
    let metadata = decode_metadata(rows).unwrap();
    RaggedBatch {
        token_ids: forced_tokens(rows, 0).unwrap(),
        positions: vec![9; rows],
        request_slots: metadata.request_slots,
        segment_offsets: metadata.segment_offsets,
        segment_slots: metadata.segment_slots,
        output_rows: metadata.output_rows,
    }
}

#[test]
fn the_executor_runs_pure_decodes() {
    let executor = DecodeExecutor::new(4, 8, 32, 2, 4, 100, true, true).unwrap();
    assert_eq!(executor.widths.key_value, 8);
    assert_eq!((executor.widths.wide, executor.widths.fp8_input), (64, 32));
    assert!(executor.eligible(&decode_batch(4)));
    assert!(!executor.eligible(&decode_batch(5)) && !executor.eligible(&decode_batch(0)));
    assert!(!executor.eligible(&repeated_prompt_batch(1, 2, 2).unwrap()));
    assert_eq!(executor.check_tokens(5), Err(ExecutorError::TokenCount));
    assert_eq!(executor.check_tokens(1), Ok(()));
    assert_eq!(executor.attention_splits(8), 8);
    assert_eq!(
        DecodeExecutor::new(0, 8, 32, 2, 4, 100, true, true).unwrap_err(),
        ExecutorError::NoTokenCapacity
    );
}

#[test]
fn decode_batches_are_tried_on_the_executor_first() {
    let model = Lfm2Model::new(model_weights(vec![conv_layer()]), false);
    let executor = DecodeExecutor::new(2, 8, 32, 2, 4, 100, true, true).unwrap();
    let choice = KernelChoice { one_kernel: false, splits: 8 };
    let starting =
        |rows: usize| RaggedBatch { positions: vec![0; rows], ..decode_batch(rows) };
    let fresh = || {
        let mut cache =
            BatchModelCache::new(2, 8, 64, &vec![false], 10, KvPageSize::P16).unwrap();
        cache.reserve(0, 2);
        cache
    };
    let mut cache = fresh();
    let prompt = repeated_prompt_batch(1, 3, 1).unwrap();
    let left = model
        .try_forward_ragged_decode(&mut cache, &executor, &prompt, &vec![4], true, choice)
        .unwrap();
    assert!(left.is_none());
    assert_eq!(cache.slots[0].allocated_tokens, 0);
    let run = model
        .try_forward_ragged_decode(&mut cache, &executor, &starting(1), &vec![4], false, choice)
        .unwrap()
        .unwrap();
    assert_eq!(run.dispatch, DecodeDispatch::Direct);
    assert_eq!(run.prepared.physical_slots, vec![64]);
    assert!(!run.steps.is_empty());
    assert_eq!(cache.slots[0].allocated_tokens, 1);
    assert_eq!(
        model
            .try_forward_ragged_decode(
                &mut fresh(),
                &executor,
                &starting(2),
                &vec![4, 5],
                false,
                choice
            )
            .unwrap_err(),
        ExecutorRunError::Cache(BatchCacheError::NotReserved)
    );
    let mut other = BatchModelCache::new(2, 8, 64, &vec![true], 10, KvPageSize::P16).unwrap();
    other.reserve(0, 2);
    assert!(matches!(
        model.try_forward_ragged_decode(
            &mut other,
            &executor,
            &starting(1),
            &vec![4],
            false,
            choice
        ),
        Err(ExecutorRunError::Layers(_))
    ));
    let shape = batch_shape(&starting(2), &cache, false, true, false);
    assert!(shape.decode_only && shape.one_kernel && !shape.flash_prefill);
    assert_eq!((shape.tokens, shape.longest_segment), (2, cache.max_segment_tokens));
    assert!(!batch_shape(&prompt, &cache, true, false, true).decode_only);
    assert_eq!(longest_context(&vec![3, 130, 7]), 131);
    assert_eq!(longest_context(&vec![]), 0);
}

#[test]
fn graphs_are_captured_once_and_replayed() {
    let mut executor = DecodeExecutor::new(4, 8, 32, 2, 4, 100, true, true).unwrap();
    let query = GraphQuery {
        tokens: 1,
        context_tokens: 128,
        page_size: 16,
        prefill_rows: false,
        one_kernel: false,
        splits: 8,
    };
    let bucket = DecodeGraphBucket::Split8;
    assert_eq!(executor.cuda_graph_bucket(query), Some(bucket));
    assert_eq!(executor.dispatch(query), DecodeDispatch::Capture { bucket });
    executor.keep_graph(bucket);
    assert_eq!(executor.dispatch(query), DecodeDispatch::Replay { bucket });
    let unsplit = GraphQuery { splits: 1, ..query };
    assert_eq!(
        executor.dispatch(unsplit),
        DecodeDispatch::Capture { bucket: DecodeGraphBucket::Unsplit }
    );
    for direct in [
        GraphQuery { tokens: 2, ..query },
        GraphQuery { context_tokens: 127, ..query },
        GraphQuery { context_tokens: 4096, ..query },
        GraphQuery { page_size: 32, ..query },
        GraphQuery { one_kernel: true, ..query },
        GraphQuery { prefill_rows: true, ..query },
        GraphQuery { splits: 4, ..query },
    ] {
        assert_eq!(executor.dispatch(direct), DecodeDispatch::Direct);
    }
}

#[test]
fn products_on_fixed_buffers_have_matching_widths() {
    assert_eq!(fp8_linear_shape(&[2, 8], &[16, 8]), Ok(LinearShape { m: 2, n: 16, k: 8 }));
    assert_eq!(fp8_linear_shape(&[2], &[16, 8]), Err(ExecutorError::NotRankTwo));
    assert_eq!(fp8_linear_shape(&[0, 8], &[16, 8]), Err(ExecutorError::EmptyLinear));
    assert_eq!(fp8_linear_shape(&[2, 8], &[16, 9]), Err(ExecutorError::InnerWidth));
}

#[test]
fn int8_tails_cover_the_production_layers() {
    let weights = model_weights(vec![conv_layer(); 16]);
    assert!(Int8DownState::new(&weights, false).unwrap().is_none());
    let state = Int8DownState::new(&weights, true).unwrap().unwrap();
    let installed: Vec<usize> = (0..16).filter(|layer| state.installed[*layer]).collect();
    assert_eq!(installed, vec![0, 1, 2, 3, 4, 5, 7]);
    assert_eq!(state.try_run(7, 2), Some(Int8DownMode::W8A8));
    assert_eq!(state.try_run(7, 3), None);
    assert_eq!(state.try_run(6, 1), None);
    let with = |layers: Vec<usize>| {
        Int8DownState::new_with_layers(&weights, &layers, Int8DownMode::W8A16)
    };
    assert_eq!(with(vec![16]).unwrap_err(), Int8DownError::LayerOutOfRange);
    assert_eq!(with(vec![3, 3]).unwrap_err(), Int8DownError::DuplicateLayer);
    assert_eq!(with(vec![3]).unwrap().unwrap().try_run(3, 1), Some(Int8DownMode::W8A16));
}
