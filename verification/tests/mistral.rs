use candle_core::{DType, Device, Tensor};
use candle_nn::VarBuilder;
use nvembed::attention::{AttentionCall, BidirectionalMistralAttention};
use nvembed::config::{HiddenAct, LatentAttentionConfig, NVEmbedConfig, TextConfig};
use nvembed::error::ModelError;
use nvembed::layer::BidirectionalMistralLayer;
use nvembed::layers::{number, Embedding, Linear, RMSNorm};
use nvembed::mistral::{BidirectionalMistralModel, RotaryCall};
use nvembed::mlp::{activate, BidirectionalMistralMLP};
use nvembed::weights::Weights;
use std::collections::HashMap;

fn matrix(rows: &[&[f32]]) -> Tensor {
    let cells: Vec<f32> = rows.iter().flat_map(|r| r.to_vec()).collect();
    Tensor::from_vec(cells, (rows.len(), rows[0].len()), &Device::Cpu).unwrap()
}

fn rows(t: &Tensor) -> Vec<Vec<f32>> {
    t.to_vec2::<f32>().unwrap()
}

fn weights(entries: Vec<(&str, Tensor)>) -> Weights {
    let map: HashMap<String, Tensor> =
        entries.into_iter().map(|(name, t)| (name.to_string(), t)).collect();
    Weights { builder: VarBuilder::from_tensors(map, DType::F32, &Device::Cpu) }
}

fn config() -> NVEmbedConfig {
    NVEmbedConfig {
        hidden_size: 2,
        model_type: "nvembed".to_string(),
        torch_dtype: None,
        text_config: TextConfig {
            hidden_size: 2,
            intermediate_size: 1,
            num_hidden_layers: 1,
            num_attention_heads: 2,
            num_key_value_heads: 1,
            hidden_act: HiddenAct::Relu,
            max_position_embeddings: 4,
            rms_norm_eps: 0f64.to_bits(),
            rope_theta: 10000f64.to_bits(),
            sliding_window: Some(3),
            vocab_size: 3,
        },
        latent_attention_config: LatentAttentionConfig {
            num_latents_value: 1,
            latent_dim: 2,
            hidden_dim: 2,
            num_cross_heads: 1,
            cross_dim_head: 2,
            output_normalize: false,
        },
        is_mask_instruction: None,
    }
}

fn layer_weights() -> Vec<(&'static str, Tensor)> {
    vec![
        ("self_attn.q_proj.weight", matrix(&[&[1.0, 0.0], &[0.0, 1.0]])),
        ("self_attn.k_proj.weight", matrix(&[&[2.0, 0.0]])),
        ("self_attn.v_proj.weight", matrix(&[&[0.0, 3.0]])),
        ("self_attn.o_proj.weight", matrix(&[&[1.0, 0.0], &[0.0, 1.0]])),
        ("mlp.gate_proj.weight", matrix(&[&[1.0, 1.0]])),
        ("mlp.up_proj.weight", matrix(&[&[0.0, 1.0]])),
        ("mlp.down_proj.weight", matrix(&[&[1.0], &[10.0]])),
        ("input_layernorm.weight", Tensor::new(&[1f32, 1.0], &Device::Cpu).unwrap()),
        ("post_attention_layernorm.weight", Tensor::new(&[1f32, 1.0], &Device::Cpu).unwrap()),
    ]
}

fn nowhere() -> Tensor {
    Tensor::new(&[0u32, 1], &Device::Cpu).unwrap()
}

fn queries(call: AttentionCall) -> Result<Tensor, ModelError> {
    Ok(call.q)
}

fn refusal(_: AttentionCall) -> Result<Tensor, ModelError> {
    Err(ModelError::MissingContext)
}

#[test]
fn gate_and_up_weights_are_fused_in_order() {
    let vb = weights(vec![
        ("gate_proj.weight", matrix(&[&[1.0, 2.0]])),
        ("up_proj.weight", matrix(&[&[3.0, 4.0]])),
        ("down_proj.weight", matrix(&[&[5.0], &[6.0]])),
    ]);
    let mlp = BidirectionalMistralMLP::load(&vb, &config()).unwrap();
    let fused = &mlp.gate_up_proj.weight;
    assert_eq!(rows(fused), vec![vec![1.0, 2.0], vec![3.0, 4.0]]);
    assert_eq!(rows(&fused.narrow(0, 0, 1).unwrap()), vec![vec![1.0, 2.0]]);
    assert_eq!(rows(&fused.narrow(0, 1, 1).unwrap()), vec![vec![3.0, 4.0]]);
    assert_eq!(rows(&mlp.down_proj.weight), vec![vec![5.0], vec![6.0]]);
    assert_eq!(mlp.act, HiddenAct::Relu);
    assert_eq!(mlp.intermediate_size, 1);
}

#[test]
fn feed_forward_multiplies_the_activated_half_with_the_other() {
    let mlp = BidirectionalMistralMLP {
        gate_up_proj: Linear::new(matrix(&[&[1.0, 0.0], &[0.0, 1.0]])),
        down_proj: Linear::new(matrix(&[&[1.0], &[10.0]])),
        act: HiddenAct::Relu,
        intermediate_size: 1,
    };
    let out = mlp.forward(&matrix(&[&[2.0, 5.0], &[-2.0, 5.0]])).unwrap();
    assert_eq!(rows(&out), vec![vec![10.0, 100.0], vec![0.0, 0.0]]);
}

#[test]
fn feed_forward_refuses_rows_that_do_not_fit() {
    let mlp = BidirectionalMistralMLP {
        gate_up_proj: Linear::new(matrix(&[&[1.0, 0.0], &[0.0, 1.0]])),
        down_proj: Linear::new(matrix(&[&[1.0], &[10.0]])),
        act: HiddenAct::Relu,
        intermediate_size: 2,
    };
    assert!(matches!(mlp.forward(&matrix(&[&[2.0, 5.0]])), Err(ModelError::Candle(_))));
}

#[test]
fn feed_forward_wants_states_of_its_width() {
    let mlp = BidirectionalMistralMLP {
        gate_up_proj: Linear::new(matrix(&[&[1.0, 0.0], &[0.0, 1.0]])),
        down_proj: Linear::new(matrix(&[&[1.0], &[10.0]])),
        act: HiddenAct::Relu,
        intermediate_size: 1,
    };
    assert!(matches!(mlp.forward(&matrix(&[&[2.0, 5.0, 1.0]])), Err(ModelError::Candle(_))));
    let numbers = Tensor::new(&[[1u32, 2]], &Device::Cpu).unwrap();
    assert!(matches!(mlp.forward(&numbers), Err(ModelError::Candle(_))));
    let none = Tensor::zeros((0, 2), DType::U32, &Device::Cpu).unwrap();
    assert_eq!(mlp.forward(&none).unwrap().dims(), &[0, 2]);
}

#[test]
fn activations_differ() {
    let x = matrix(&[&[-1.0, 0.0, 1.0]]);
    let relu = rows(&activate(HiddenAct::Relu, &x).unwrap());
    assert_eq!(relu, vec![vec![0.0, 0.0, 1.0]]);
    let gelu = rows(&activate(HiddenAct::Gelu, &x).unwrap());
    assert!((gelu[0][2] - 0.8412).abs() < 1e-3 && (gelu[0][0] + 0.1588).abs() < 1e-3);
    let silu = rows(&activate(HiddenAct::Swiglu, &x).unwrap());
    assert!((silu[0][2] - 0.7311).abs() < 1e-3 && (silu[0][0] + 0.2689).abs() < 1e-3);
}

#[test]
fn missing_weights_are_an_error() {
    let vb = weights(vec![("gate_proj.weight", matrix(&[&[1.0, 2.0]]))]);
    assert!(matches!(
        BidirectionalMistralMLP::load(&vb, &config()),
        Err(ModelError::Candle(_))
    ));
    assert!(matches!(
        BidirectionalMistralAttention::load(&vb, &config()),
        Err(ModelError::Candle(_))
    ));
    assert!(matches!(
        BidirectionalMistralLayer::load(&vb, &config()),
        Err(ModelError::Candle(_))
    ));
}

#[test]
fn attention_weights_are_fused_in_order() {
    let vb = weights(vec![
        ("q_proj.weight", matrix(&[&[1.0, 2.0], &[3.0, 4.0]])),
        ("k_proj.weight", matrix(&[&[5.0, 6.0]])),
        ("v_proj.weight", matrix(&[&[7.0, 8.0]])),
        ("o_proj.weight", matrix(&[&[9.0, 10.0], &[11.0, 12.0]])),
    ]);
    let attention = BidirectionalMistralAttention::load(&vb, &config()).unwrap();
    assert_eq!(
        rows(&attention.qkv_linear.weight),
        vec![vec![1.0, 2.0], vec![3.0, 4.0], vec![5.0, 6.0], vec![7.0, 8.0]]
    );
    assert_eq!(rows(&attention.o_proj.weight), vec![vec![9.0, 10.0], vec![11.0, 12.0]]);
    assert_eq!(attention.window_size_left, Some(3));
    assert_eq!(attention.num_attention_heads, 2);
    assert_eq!(attention.num_key_value_heads, 1);
    assert_eq!(attention.attention_head_size, 1);
    assert_eq!(attention.softmax_scale.to_scalar::<f64>().unwrap(), 1.0);
}

fn small_attention() -> BidirectionalMistralAttention {
    BidirectionalMistralAttention {
        qkv_linear: Linear::new(matrix(&[&[1.0, 0.0], &[0.0, 1.0], &[2.0, 0.0], &[0.0, 3.0]])),
        o_proj: Linear::new(matrix(&[&[1.0, 1.0], &[0.0, 2.0]])),
        window_size_left: Some(3),
        num_attention_heads: 2,
        num_key_value_heads: 1,
        attention_head_size: 1,
        softmax_scale: number(0.5f64.to_bits()).unwrap(),
    }
}

#[test]
fn attention_asks_for_both_directions() {
    let x = matrix(&[&[1.0, 2.0], &[3.0, 4.0]]);
    let cos = matrix(&[&[1.0], &[1.0]]);
    let sin = matrix(&[&[0.0], &[0.0]]);
    let call = small_attention().ask(&x, &nowhere(), &cos, &sin, 2).unwrap();
    assert!(!call.is_causal);
    assert_eq!(call.window_size_left, Some(3));
    assert_eq!(call.max_s, 2);
    assert_eq!(call.softmax_scale.to_scalar::<f64>().unwrap(), 0.5);
    assert_eq!(
        call.q.to_vec3::<f32>().unwrap(),
        vec![vec![vec![1.0], vec![2.0]], vec![vec![3.0], vec![4.0]]]
    );
    assert_eq!(call.k.to_vec3::<f32>().unwrap(), vec![vec![vec![2.0]], vec![vec![6.0]]]);
    assert_eq!(call.v.to_vec3::<f32>().unwrap(), vec![vec![vec![6.0]], vec![vec![12.0]]]);
    let heads = Tensor::cat(&[&call.q, &call.k, &call.v], 1).unwrap();
    assert_eq!(
        heads.to_vec3::<f32>().unwrap()[1],
        vec![vec![3.0], vec![4.0], vec![6.0], vec![12.0]]
    );
    assert_eq!(rows(&call.cos), rows(&cos));
    assert_eq!(rows(&call.sin), rows(&sin));
    assert_eq!(call.cu_seqlens.to_vec1::<u32>().unwrap(), vec![0, 1]);
}

#[test]
fn heads_that_do_not_divide_the_width_are_refused() {
    let mut attention = small_attention();
    attention.num_key_value_heads = 2;
    let x = matrix(&[&[1.0, 2.0]]);
    let out = attention.ask(&x, &nowhere(), &x, &x, 1);
    assert!(matches!(out, Err(ModelError::Candle(_))));
}

#[test]
fn heads_have_to_be_countable() {
    let mut attention = small_attention();
    attention.attention_head_size = usize::MAX;
    let x = matrix(&[&[1.0, 2.0]]);
    let out = attention.forward(&queries, &x, &nowhere(), &x, &x, 1);
    assert!(matches!(
        out,
        Err(ModelError::TooManyCells { dims }) if dims == vec![1, 4, usize::MAX]
    ));
}

#[test]
fn attended_heads_are_put_together_and_projected() {
    let attended = Tensor::new(&[[[1f32], [2.0]], [[3.0], [4.0]]], &Device::Cpu).unwrap();
    let out = small_attention().finish(&attended).unwrap();
    assert_eq!(rows(&out), vec![vec![3.0, 4.0], vec![7.0, 8.0]]);
    assert!(small_attention().finish(&matrix(&[&[1.0, 2.0]])).is_err());
}

#[test]
fn attention_runs_the_kernel_between_the_projections() {
    let x = matrix(&[&[1.0, 2.0]]);
    let attention = small_attention();
    let out = attention.forward(&queries, &x, &nowhere(), &x, &x, 1).unwrap();
    assert_eq!(rows(&out), vec![vec![3.0, 4.0]]);
    let failed = attention.forward(&refusal, &x, &nowhere(), &x, &x, 1);
    assert!(matches!(failed, Err(ModelError::MissingContext)));
}

#[test]
fn layers_keep_the_sum_for_the_next_one() {
    let layer = BidirectionalMistralLayer::load(&weights(layer_weights()), &config()).unwrap();
    let x = matrix(&[&[3.0, 3.0]]);
    let (out, sum) = layer.forward(&queries, &x, None, &nowhere(), &x, &x, 1).unwrap();
    assert_eq!(rows(&sum), vec![vec![4.0, 4.0]]);
    assert_eq!(rows(&out), vec![vec![2.0, 20.0]]);
    let residual = matrix(&[&[1.0, 1.0]]);
    let (again, sum) =
        layer.forward(&queries, &x, Some(&residual), &nowhere(), &x, &x, 1).unwrap();
    assert_eq!(rows(&sum), vec![vec![5.0, 5.0]]);
    assert_eq!(rows(&again), vec![vec![2.0, 20.0]]);
    let failed = layer.forward(&refusal, &x, None, &nowhere(), &x, &x, 1);
    assert!(matches!(failed, Err(ModelError::MissingContext)));
}

fn small_model(layers: Vec<BidirectionalMistralLayer>) -> BidirectionalMistralModel {
    BidirectionalMistralModel {
        embeddings: Embedding {
            weight: matrix(&[&[1.0, 1.0], &[3.0, 3.0], &[6.0, -6.0]]),
            hidden_size: 2,
        },
        layers,
        norm: RMSNorm {
            weight: Tensor::new(&[1f32, 2.0], &Device::Cpu).unwrap(),
            epsilon: number(0).unwrap(),
        },
        cos_cache: matrix(&[&[0.0], &[0.25], &[0.5], &[0.75]]),
        sin_cache: matrix(&[&[1.0], &[1.25], &[1.5], &[1.75]]),
        device: Device::Cpu,
    }
}

#[test]
fn without_layers_the_embeddings_are_normed() {
    let model = small_model(vec![]);
    let ids = Tensor::new(&[1u32, 2], &Device::Cpu).unwrap();
    let out = model.forward(&refusal, &ids, &ids, &nowhere(), &nowhere(), 2).unwrap();
    assert_eq!(rows(&out), vec![vec![1.0, 2.0], vec![1.0, -2.0]]);
}

#[test]
fn layers_see_the_tables_at_the_positions() {
    let layer = BidirectionalMistralLayer::load(&weights(layer_weights()), &config()).unwrap();
    let model = small_model(vec![layer]);
    let ids = Tensor::new(&[1u32, 1], &Device::Cpu).unwrap();
    let positions = Tensor::new(&[3u32, 0], &Device::Cpu).unwrap();
    let kernel = |call: AttentionCall| -> Result<Tensor, ModelError> {
        assert_eq!(call.cos.to_vec2::<f32>().unwrap(), vec![vec![0.75], vec![0.0]]);
        assert_eq!(call.sin.to_vec2::<f32>().unwrap(), vec![vec![1.75], vec![1.0]]);
        assert_eq!(call.max_s, 7);
        Ok(call.q)
    };
    let out = model.forward(&kernel, &ids, &ids, &nowhere(), &positions, 7).unwrap();
    // The layer gives (2, 20) with the residual (4, 4), and the norm divides (6, 24) by its
    // root mean square before it scales the second column.
    let size = ((36.0f32 + 576.0) / 2.0).sqrt();
    let expected = [6.0 / size, 48.0 / size];
    for row in rows(&out) {
        assert!((row[0] - expected[0]).abs() < 1e-5 && (row[1] - expected[1]).abs() < 1e-5);
    }
}

/// Gives every token the sum of the queries of its sequence.
fn sequence_sums(call: AttentionCall) -> Result<Tensor, ModelError> {
    let bounds = call.cu_seqlens.to_vec1::<u32>().unwrap();
    let mut parts: Vec<Tensor> = vec![];
    for pair in bounds.windows(2) {
        let (start, len) = (pair[0] as usize, (pair[1] - pair[0]) as usize);
        let rows = call.q.narrow(0, start, len).unwrap();
        parts.push(rows.sum_keepdim(0).unwrap().repeat((len, 1, 1)).unwrap());
    }
    Ok(Tensor::cat(&parts, 0).unwrap())
}

#[test]
fn sequences_do_not_attend_to_each_other() {
    let load = || BidirectionalMistralLayer::load(&weights(layer_weights()), &config()).unwrap();
    let model = small_model(vec![load(), load()]);
    let ids = |numbers: &[u32]| Tensor::new(numbers, &Device::Cpu).unwrap();
    let both = model
        .forward(
            &sequence_sums,
            &ids(&[0, 1, 2, 1]),
            &ids(&[1, 1, 1, 1]),
            &ids(&[0, 1, 4]),
            &ids(&[0, 0, 1, 2]),
            3,
        )
        .unwrap();
    let alone = model
        .forward(
            &sequence_sums,
            &ids(&[1, 2, 1]),
            &ids(&[1, 0, 1]),
            &ids(&[0, 3]),
            &ids(&[0, 1, 2]),
            3,
        )
        .unwrap();
    assert_eq!(rows(&both)[1..], rows(&alone)[..]);
}

#[test]
fn reordered_tokens_get_reordered_rows() {
    let attention = small_attention();
    let x = matrix(&[&[1.0, 2.0], &[3.0, 4.0], &[-1.0, 0.5]]);
    let bounds = Tensor::new(&[0u32, 1, 3], &Device::Cpu).unwrap();
    let order = Tensor::new(&[0u32, 2, 1], &Device::Cpu).unwrap();
    let turned = x.index_select(&order, 0).unwrap();
    let run = |t: &Tensor| attention.forward(&sequence_sums, t, &bounds, t, t, 2).unwrap();
    assert_eq!(rows(&run(&turned)), rows(&run(&x).index_select(&order, 0).unwrap()));
}

#[test]
fn rows_pass_the_feed_forward_part_one_by_one() {
    let mlp = BidirectionalMistralMLP {
        gate_up_proj: Linear::new(matrix(&[&[1.0, 0.5], &[0.0, 2.0]])),
        down_proj: Linear::new(matrix(&[&[1.0], &[10.0]])),
        act: HiddenAct::Relu,
        intermediate_size: 1,
    };
    let (a, b) = (matrix(&[&[2.0, 4.0]]), matrix(&[&[1.0, -2.0], &[8.0, 1.0]]));
    let joined = mlp.forward(&Tensor::cat(&[&a, &b], 0).unwrap()).unwrap();
    let parts = [mlp.forward(&a).unwrap(), mlp.forward(&b).unwrap()];
    assert_eq!(rows(&joined), rows(&Tensor::cat(&parts, 0).unwrap()));
}

#[test]
fn rows_of_zeros_stay_zero_in_the_feed_forward_part() {
    for act in [HiddenAct::Gelu, HiddenAct::Relu, HiddenAct::Swiglu] {
        let mlp = BidirectionalMistralMLP {
            gate_up_proj: Linear::new(matrix(&[&[1.0, 0.5], &[0.0, 2.0]])),
            down_proj: Linear::new(matrix(&[&[1.0], &[10.0]])),
            act,
            intermediate_size: 1,
        };
        assert_eq!(rows(&mlp.forward(&matrix(&[&[0.0, 0.0]])).unwrap()), vec![vec![0.0, 0.0]]);
    }
}

#[test]
fn the_attention_mask_does_not_reach_the_layers() {
    let layer = BidirectionalMistralLayer::load(&weights(layer_weights()), &config()).unwrap();
    let model = small_model(vec![layer]);
    let ids = Tensor::new(&[0u32, 1], &Device::Cpu).unwrap();
    let bounds = Tensor::new(&[0u32, 2], &Device::Cpu).unwrap();
    let run = |mask: [u32; 2]| {
        let mask = Tensor::new(&mask, &Device::Cpu).unwrap();
        rows(&model.forward(&sequence_sums, &ids, &mask, &bounds, &ids, 2).unwrap())
    };
    assert_eq!(run([1, 1]), run([0, 1]));
}

#[test]
fn tokens_and_positions_beyond_the_tables_are_refused() {
    let model = small_model(vec![]);
    let ids = Tensor::new(&[0u32], &Device::Cpu).unwrap();
    let far = Tensor::new(&[4u32], &Device::Cpu).unwrap();
    let unknown = model.forward(&queries, &far, &ids, &nowhere(), &ids, 1);
    assert!(matches!(unknown, Err(ModelError::Candle(_))));
    let late = model.forward(&queries, &ids, &ids, &nowhere(), &far, 1);
    assert!(matches!(late, Err(ModelError::Candle(_))));
}

#[test]
fn language_models_are_loaded_on_cuda_only() {
    let rotary = |_: RotaryCall| -> Result<(Tensor, Tensor), ModelError> {
        Err(ModelError::MissingContext)
    };
    let out = BidirectionalMistralModel::load(&weights(vec![]), &config(), &rotary);
    assert!(matches!(out, Err(ModelError::MistralRequiresCuda)));
}
