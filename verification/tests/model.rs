use candle_core::{DType, Device, Tensor};
use candle_nn::VarBuilder;
use nvembed::attention::AttentionCall;
use nvembed::batch::{Batch, ModelType, Pool};
use nvembed::config::{HiddenAct, LatentAttentionConfig, NVEmbedConfig, TextConfig};
use nvembed::cross_attention::CrossAttention;
use nvembed::error::ModelError;
use nvembed::feed_forward::FeedForward;
use nvembed::latent::{LatentAttentionModel, PreNorm, ONE};
use nvembed::layers::{number, Embedding, LayerNorm, Linear, RMSNorm};
use nvembed::mistral::{BidirectionalMistralModel, RotaryCall};
use nvembed::model::{pool_mask, select, FlashNVEmbedModel};
use nvembed::weights::Weights;
use std::collections::HashMap;

fn matrix(rows: &[&[f32]]) -> Tensor {
    let cells: Vec<f32> = rows.iter().flat_map(|r| r.to_vec()).collect();
    Tensor::from_vec(cells, (rows.len(), rows[0].len()), &Device::Cpu).unwrap()
}

fn kernel(call: AttentionCall) -> Result<Tensor, ModelError> {
    Ok(call.q)
}

fn small_model(is_mask_instruction: bool) -> FlashNVEmbedModel {
    let norm = |size: usize| LayerNorm::new(size, DType::F32, &Device::Cpu).unwrap();
    FlashNVEmbedModel {
        embedding_model: BidirectionalMistralModel {
            embeddings: Embedding { weight: matrix(&[&[1.0], &[-2.0], &[3.0]]), hidden_size: 1 },
            layers: vec![],
            norm: RMSNorm {
                weight: Tensor::new(&[1f32], &Device::Cpu).unwrap(),
                epsilon: number(0).unwrap(),
            },
            cos_cache: matrix(&[&[0.0], &[0.5]]),
            sin_cache: matrix(&[&[1.0], &[1.5]]),
            device: Device::Cpu,
        },
        latent_attention_model: LatentAttentionModel {
            cross_attend_norm: PreNorm { norm: norm(1), context_norm: None },
            cross_attention: CrossAttention {
                to_q: Linear::new(matrix(&[&[1.0]])),
                to_kv: Linear::new(matrix(&[&[1.0], &[1.0]])),
                to_out: Linear::new(matrix(&[&[1.0]])),
                heads: 1,
                scale: number(ONE).unwrap(),
            },
            ff_norm: PreNorm { norm: norm(1), context_norm: None },
            feed_forward: FeedForward {
                net_w1: Linear::new(matrix(&[&[1.0], &[1.0]])),
                net_w2: Linear::new(matrix(&[&[1.0]])),
            },
            latents: matrix(&[&[1.0], &[3.0]]),
            output_normalize: false,
        },
        is_mask_instruction,
        device: Device::Cpu,
    }
}

fn batch() -> Batch {
    Batch {
        input_ids: vec![2, 0, 1],
        position_ids: vec![0, 1, 0],
        attention_mask: vec![1, 1, 1],
        cumulative_seq_lengths: vec![0, 2, 3],
        max_length: 2,
        pooled_indices: vec![0, 1],
    }
}

fn config() -> NVEmbedConfig {
    NVEmbedConfig {
        hidden_size: 2,
        model_type: "nvembed".to_string(),
        torch_dtype: None,
        text_config: TextConfig {
            hidden_size: 2,
            intermediate_size: 1,
            num_hidden_layers: 1,
            num_attention_heads: 1,
            num_key_value_heads: 1,
            hidden_act: HiddenAct::Swiglu,
            max_position_embeddings: 4,
            rms_norm_eps: 1e-5f64.to_bits(),
            rope_theta: 10000f64.to_bits(),
            sliding_window: None,
            vocab_size: 3,
        },
        latent_attention_config: LatentAttentionConfig {
            num_latents_value: 1,
            latent_dim: 2,
            hidden_dim: 2,
            num_cross_heads: 1,
            cross_dim_head: 2,
            output_normalize: true,
        },
        is_mask_instruction: Some(false),
    }
}

#[test]
fn embedding_models_are_loaded_on_cuda_only() {
    let empty: HashMap<String, Tensor> = HashMap::new();
    let rotary = |_: RotaryCall| -> Result<(Tensor, Tensor), ModelError> {
        Err(ModelError::MissingContext)
    };
    for dtype in [DType::F16, DType::F32] {
        let builder = VarBuilder::from_tensors(empty.clone(), dtype, &Device::Cpu);
        let vb = Weights { builder };
        for model_type in [ModelType::Classifier, ModelType::Embedding(Pool::Mean)] {
            let out = FlashNVEmbedModel::load(&vb, &config(), model_type, &rotary);
            assert!(matches!(out, Err(ModelError::RequiresCuda)));
        }
    }
}

#[test]
fn no_instructions_are_recognised() {
    assert!(small_model(true).get_instruction_mask(&batch()).unwrap().is_none());
    assert!(small_model(false).get_instruction_mask(&batch()).unwrap().is_none());
}

#[test]
fn without_instructions_the_attention_mask_is_the_pooling_mask() {
    let mask = Tensor::new(&[1u32, 1, 0], &Device::Cpu).unwrap();
    let out = pool_mask(&mask, None, 3, &Device::Cpu).unwrap();
    assert_eq!(out.to_vec1::<u32>().unwrap(), vec![1, 1, 0]);
}

#[test]
fn instructions_are_masked_out() {
    let mask = Tensor::new(&[1u32, 1, 0], &Device::Cpu).unwrap();
    let out = pool_mask(&mask, Some(vec![0, 1, 1]), 3, &Device::Cpu).unwrap();
    assert_eq!(out.to_vec1::<u32>().unwrap(), vec![0, 1, 0]);
    let short = pool_mask(&mask, Some(vec![0, 1]), 2, &Device::Cpu);
    assert!(matches!(short, Err(ModelError::Candle(_))));
    let missing = pool_mask(&mask, Some(vec![0, 1]), 3, &Device::Cpu);
    assert!(matches!(missing, Err(ModelError::ListLength { got: 2, expected: 3 })));
}

#[test]
fn only_the_embeddings_that_are_asked_for_are_selected() {
    let embeddings = matrix(&[&[1.0, 2.0], &[3.0, 4.0], &[5.0, 6.0]]);
    let (pooled, raw) = select(&embeddings, vec![2, 0], &Device::Cpu).unwrap();
    assert_eq!(
        pooled.unwrap().to_vec2::<f32>().unwrap(),
        vec![vec![5.0, 6.0], vec![1.0, 2.0]]
    );
    assert!(raw.is_none());
    let (pooled, raw) = select(&embeddings, vec![], &Device::Cpu).unwrap();
    assert!(pooled.is_none() && raw.is_none());
    let beyond = select(&embeddings, vec![3], &Device::Cpu);
    assert!(matches!(beyond, Err(ModelError::Candle(_))));
}

fn pooled(out: Result<(Option<Tensor>, Option<Tensor>), ModelError>) -> Vec<Vec<f32>> {
    let (pooled, raw) = out.unwrap();
    assert!(raw.is_none());
    pooled.unwrap().to_vec2::<f32>().unwrap()
}

#[test]
fn states_are_cut_into_sequences() {
    let states = matrix(&[&[10.0], &[30.0], &[20.0]]);
    let mask = Tensor::new(&[1u32, 0, 1], &Device::Cpu).unwrap();
    let model = small_model(true);
    let out = model.embed_states(&states, &mask, &vec![0, 2, 3], vec![1, 0]);
    assert_eq!(pooled(out), vec![vec![22.0], vec![21.0]]);
    let one = model.embed_states(&states, &mask, &vec![0, 3], vec![0, 0]);
    assert_eq!(pooled(one), vec![vec![22.0], vec![22.0]]);
    let (nothing, raw) = model.embed_states(&states, &mask, &vec![0, 2, 3], vec![]).unwrap();
    assert!(nothing.is_none() && raw.is_none());
}

#[test]
fn sequences_have_tokens() {
    let states = matrix(&[&[10.0], &[30.0], &[20.0]]);
    let mask = Tensor::new(&[1u32, 1, 1], &Device::Cpu).unwrap();
    let model = small_model(true);
    let empty = model.embed_states(&states, &mask, &vec![0, 2, 2, 3], vec![0]);
    assert!(matches!(empty, Err(ModelError::SequenceBounds { start: 2, end: 2 })));
    let back = model.embed_states(&states, &mask, &vec![0, 3, 1], vec![0]);
    assert!(matches!(back, Err(ModelError::SequenceBounds { start: 3, end: 1 })));
    let beyond = model.embed_states(&states, &mask, &vec![0, 4], vec![0]);
    assert!(matches!(beyond, Err(ModelError::Candle(_))));
}

#[test]
fn no_sequences_have_no_embeddings() {
    let states = matrix(&[&[10.0]]);
    let mask = Tensor::new(&[1u32], &Device::Cpu).unwrap();
    let model = small_model(true);
    let out = model.embed_states(&states, &mask, &vec![0], vec![0]);
    assert!(matches!(out, Err(ModelError::NoSequences)));
    let (nothing, raw) = model.embed_states(&states, &mask, &vec![0], vec![]).unwrap();
    assert!(nothing.is_none() && raw.is_none());
}

#[test]
fn states_of_another_width_are_refused_by_the_latents() {
    let states = matrix(&[&[10.0, 1.0]]);
    let mask = Tensor::new(&[1u32], &Device::Cpu).unwrap();
    let out = small_model(true).embed_states(&states, &mask, &vec![0, 1], vec![0]);
    assert!(matches!(out, Err(ModelError::HiddenSize { got: 2, expected: 1 })));
}

#[test]
fn batches_are_embedded_sequence_by_sequence() {
    // The norm brings the tokens to 1, 1 and -1, and the latents add 1 and 3 to what they gather.
    let out = small_model(true).forward(&kernel, batch());
    assert_eq!(pooled(out), vec![vec![3.0], vec![1.0]]);
    let out = small_model(false).embed(&kernel, batch());
    assert_eq!(pooled(out), vec![vec![3.0], vec![1.0]]);
}

#[test]
fn the_mask_of_a_batch_weighs_its_latents() {
    let mut masked = batch();
    masked.attention_mask = vec![1, 0, 1];
    masked.pooled_indices = vec![1, 0, 1];
    let out = small_model(true).forward(&kernel, masked);
    assert_eq!(pooled(out), vec![vec![1.0], vec![2.0], vec![1.0]]);
}

#[test]
fn a_sequence_alone_has_the_same_embedding() {
    let alone = Batch {
        input_ids: vec![1],
        position_ids: vec![0],
        attention_mask: vec![1],
        cumulative_seq_lengths: vec![0, 1],
        max_length: 1,
        pooled_indices: vec![0],
    };
    let together = pooled(small_model(true).forward(&kernel, batch()));
    assert_eq!(pooled(small_model(true).forward(&kernel, alone)), vec![together[1].clone()]);
}

#[test]
fn batches_that_ask_for_nothing_get_nothing() {
    let mut silent = batch();
    silent.pooled_indices.clear();
    let (nothing, raw) = small_model(true).forward(&kernel, silent).unwrap();
    assert!(nothing.is_none() && raw.is_none());
}

#[test]
fn batches_ask_for_sequences_that_are_there() {
    let mut beyond = batch();
    beyond.pooled_indices = vec![2];
    let out = small_model(true).forward(&kernel, beyond);
    assert!(matches!(out, Err(ModelError::Candle(_))));
}

#[test]
fn lists_of_other_lengths_are_refused() {
    let mut late = batch();
    late.position_ids.pop();
    late.pooled_indices.clear();
    let out = small_model(true).forward(&kernel, late);
    assert!(matches!(out, Err(ModelError::ListLength { got: 2, expected: 3 })));
    let mut bare = batch();
    bare.attention_mask.push(1);
    let out = small_model(true).embed(&kernel, bare);
    assert!(matches!(out, Err(ModelError::ListLength { got: 4, expected: 3 })));
}

#[test]
fn unknown_tokens_fail_before_the_latent_attention() {
    let mut unknown = batch();
    unknown.input_ids = vec![2, 0, 3];
    let out = small_model(true).forward(&kernel, unknown);
    assert!(matches!(out, Err(ModelError::Candle(_))));
}

#[test]
fn models_hold_floats() {
    let mut model = small_model(true);
    assert!(model.holds_floats());
    model.latent_attention_model.latents = Tensor::new(&[[1u32]], &Device::Cpu).unwrap();
    assert!(!model.holds_floats());
}

#[test]
fn batches_without_tokens_have_no_sequences() {
    let empty = |bounds: Vec<u32>, pooled_indices: Vec<u32>| Batch {
        input_ids: vec![],
        position_ids: vec![],
        attention_mask: vec![],
        cumulative_seq_lengths: bounds,
        max_length: 0,
        pooled_indices,
    };
    let model = small_model(true);
    let (nothing, raw) = model.forward(&kernel, empty(vec![0], vec![])).unwrap();
    assert!(nothing.is_none() && raw.is_none());
    let out = model.forward(&kernel, empty(vec![0], vec![0]));
    assert!(matches!(out, Err(ModelError::NoSequences)));
    let out = model.forward(&kernel, empty(vec![0, 0], vec![0]));
    assert!(matches!(out, Err(ModelError::SequenceBounds { start: 0, end: 0 })));
}

#[test]
fn batches_are_not_padded() {
    assert!(!small_model(true).is_padded());
}

#[test]
fn batches_have_a_position_and_a_mask_for_every_token() {
    assert!(batch().expect_even().is_ok());
    let mut late = batch();
    late.position_ids.pop();
    late.attention_mask.clear();
    assert!(matches!(late.expect_even(), Err(ModelError::ListLength { got: 2, expected: 3 })));
    let mut bare = batch();
    bare.attention_mask.clear();
    assert!(matches!(bare.expect_even(), Err(ModelError::ListLength { got: 0, expected: 3 })));
}
