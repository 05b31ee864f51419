use candle_core::{DType, Device, Tensor};
use candle_nn::VarBuilder;
use nvembed::config::{HiddenAct, LatentAttentionConfig, NVEmbedConfig, TextConfig};
use nvembed::cross_attention::CrossAttention;
use nvembed::error::ModelError;
use nvembed::feed_forward::{halves, FeedForward, GEGLU};
use nvembed::latent::{
    normalize, weigh_rows, weighted_mean, LatentAttentionModel, PreNorm, ONE, POOL_EPSILON,
};
use nvembed::layers::{number, LayerNorm, Linear};
use nvembed::weights::Weights;
use std::collections::HashMap;

fn matrix(rows: &[&[f32]]) -> Tensor {
    let cells: Vec<f32> = rows.iter().flat_map(|r| r.to_vec()).collect();
    Tensor::from_vec(cells, (rows.len(), rows[0].len()), &Device::Cpu).unwrap()
}

fn rows(t: &Tensor) -> Vec<Vec<f32>> {
    t.to_vec2::<f32>().unwrap()
}

fn stack(cells: &[f32], dims: (usize, usize, usize)) -> Tensor {
    Tensor::from_vec(cells.to_vec(), dims, &Device::Cpu).unwrap()
}

fn is_near(a: f32, b: f32) -> bool {
    (a - b).abs() < 1e-3
}

fn weights(entries: Vec<(&str, Tensor)>) -> Weights {
    let map: HashMap<String, Tensor> =
        entries.into_iter().map(|(name, t)| (name.to_string(), t)).collect();
    Weights { builder: VarBuilder::from_tensors(map, DType::F32, &Device::Cpu) }
}

#[test]
fn halves_split_the_last_dimension() {
    let (first, second) = halves(&matrix(&[&[1.0, 2.0, 3.0, 4.0]])).unwrap();
    assert_eq!(rows(&first), vec![vec![1.0, 2.0]]);
    assert_eq!(rows(&second), vec![vec![3.0, 4.0]]);
    let (longer, shorter) = halves(&matrix(&[&[1.0, 2.0, 3.0]])).unwrap();
    assert_eq!(rows(&longer), vec![vec![1.0, 2.0]]);
    assert_eq!(rows(&shorter), vec![vec![3.0]]);
    let whole = Tensor::cat(&[&longer, &shorter], 1).unwrap();
    assert_eq!(rows(&whole), vec![vec![1.0, 2.0, 3.0]]);
}

#[test]
fn one_column_has_no_halves() {
    assert!(matches!(
        halves(&matrix(&[&[1.0], &[2.0]])),
        Err(ModelError::NotTwoChunks { got: 1 })
    ));
    assert!(matches!(GEGLU::forward(&matrix(&[&[1.0]])), Err(ModelError::NotTwoChunks { got: 1 })));
    assert!(matches!(halves(&number(ONE).unwrap()), Err(ModelError::Candle(_))));
}

#[test]
fn gated_linear_units_weigh_the_first_half() {
    let out = GEGLU::forward(&matrix(&[&[2.0, 3.0, 0.0, 1.0]])).unwrap();
    let row = rows(&out).remove(0);
    assert_eq!(row[0], 0.0);
    assert!(is_near(row[1], 3.0 * 0.8412));
    let odd = GEGLU::forward(&matrix(&[&[1.0, 2.0, 3.0]]));
    assert!(matches!(odd, Err(ModelError::Candle(_))));
}

#[test]
fn feed_forward_projects_gates_and_projects_back() {
    let ff = FeedForward {
        net_w1: Linear::new(matrix(&[&[1.0, 0.0], &[0.0, 1.0]])),
        net_w2: Linear::new(matrix(&[&[10.0], &[100.0]])),
    };
    let row = rows(&ff.forward(&matrix(&[&[2.0, 1.0]])).unwrap()).remove(0);
    assert!((row[0] - 16.824).abs() < 1e-2 && (row[1] - 168.24).abs() < 1e-1);
}

#[test]
fn feed_forward_takes_no_integers() {
    let ff = FeedForward {
        net_w1: Linear::new(matrix(&[&[1.0, 0.0], &[0.0, 1.0]])),
        net_w2: Linear::new(matrix(&[&[10.0], &[100.0]])),
    };
    let numbers = Tensor::new(&[[1u32, 2]], &Device::Cpu).unwrap();
    assert!(matches!(ff.forward(&numbers), Err(ModelError::Candle(_))));
    let nothing = |rows: usize| Tensor::zeros((rows, 0), DType::U32, &Device::Cpu).unwrap();
    let ff = FeedForward { net_w1: Linear::new(nothing(2)), net_w2: Linear::new(nothing(1)) };
    assert!(matches!(ff.forward(&nothing(1)), Err(ModelError::IntegerStates)));
}

#[test]
fn gated_linear_units_of_integers_are_zero() {
    let numbers = Tensor::new(&[[5u32, 6, 7, 8]], &Device::Cpu).unwrap();
    let out = GEGLU::forward(&numbers).unwrap();
    assert_eq!(out.to_vec2::<u32>().unwrap(), vec![vec![0, 0]]);
}

#[test]
fn stored_feed_forward_takes_the_states_that_it_is_for() {
    let mut wide = vec![vec![0f32; 2]; 16];
    wide[0][0] = 1.0;
    wide[8][1] = 1.0;
    let mut back = vec![vec![0f32; 8]; 2];
    back[1][0] = 10.0;
    let vb = weights(vec![
        ("net.0.weight", Tensor::new(wide, &Device::Cpu).unwrap()),
        ("net.2.weight", Tensor::new(back, &Device::Cpu).unwrap()),
    ]);
    let ff = FeedForward::load(&vb, 2, 4).unwrap();
    assert_eq!(ff.net_w1.weight.dims(), &[16, 2]);
    assert_eq!(ff.net_w2.weight.dims(), &[2, 8]);
    let row = rows(&ff.forward(&matrix(&[&[2.0, 1.0]])).unwrap()).remove(0);
    assert!(row[0] == 0.0 && (row[1] - 16.824).abs() < 1e-2);
    assert!(matches!(FeedForward::load(&vb, 2, 3), Err(ModelError::Candle(_))));
    let wide = matrix(&[&[1.0, 1.0, 1.0]]);
    assert!(matches!(ff.forward(&wide), Err(ModelError::Candle(_))));
}

#[test]
fn units_of_joined_halves_are_products() {
    let (a, b) = (matrix(&[&[2.0, 3.0]]), matrix(&[&[0.5, -1.0]]));
    let joined = Tensor::cat(&[&a, &b], 1).unwrap();
    let expected = a.mul(&b.gelu().unwrap()).unwrap();
    assert_eq!(rows(&GEGLU::forward(&joined).unwrap()), rows(&expected));
}

fn two_heads() -> CrossAttention {
    CrossAttention {
        to_q: Linear::new(matrix(&[&[1.0, 0.0], &[0.0, 1.0]])),
        to_kv: Linear::new(matrix(&[&[1.0, 0.0], &[0.0, 1.0], &[1.0, 0.0], &[0.0, 5.0]])),
        to_out: Linear::new(matrix(&[&[1.0, 0.0], &[0.0, 1.0], &[1.0, 1.0]])),
        heads: 2,
        scale: number(ONE).unwrap(),
    }
}

#[test]
fn attention_to_one_state_takes_its_values() {
    let x = stack(&[1.0, 2.0, 3.0, 4.0], (1, 2, 2));
    let context = stack(&[7.0, 9.0], (1, 1, 2));
    let out = two_heads().forward(&x, &context).unwrap();
    assert_eq!(
        out.to_vec3::<f32>().unwrap(),
        vec![vec![vec![7.0, 45.0, 52.0], vec![7.0, 45.0, 52.0]]]
    );
}

#[test]
fn attention_weighs_states_by_their_products() {
    let x = stack(&[1.0, 0.0], (1, 1, 2));
    let context = stack(&[0.0, 0.0, 2.0, 1.0], (1, 2, 2));
    let out = two_heads().forward(&x, &context).unwrap().to_vec3::<f32>().unwrap();
    // The first head sees the scores 0 and 2, the second one sees no difference.
    let weight = 2f32.exp() / (1.0 + 2f32.exp());
    assert!(is_near(out[0][0][0], 2.0 * weight));
    assert!(is_near(out[0][0][1], 2.5));
}

#[test]
fn the_scale_applies_to_the_scores() {
    let mut attention = two_heads();
    attention.scale = number(0).unwrap();
    let x = stack(&[1.0, 0.0], (1, 1, 2));
    let context = stack(&[0.0, 0.0, 2.0, 1.0], (1, 2, 2));
    let out = attention.forward(&x, &context).unwrap().to_vec3::<f32>().unwrap();
    assert!(is_near(out[0][0][0], 1.0));
}

#[test]
fn attention_wants_three_dimensions() {
    let flat = matrix(&[&[1.0, 2.0]]);
    let context = stack(&[7.0, 9.0], (1, 1, 2));
    let out = two_heads().forward(&flat, &context);
    assert!(matches!(
        out,
        Err(ModelError::AttentionRank { x, k }) if x == vec![1, 2] && k == vec![1, 1, 2]
    ));
    let x = stack(&[1.0, 2.0], (1, 1, 2));
    let out = two_heads().forward(&x, &flat);
    assert!(matches!(
        out,
        Err(ModelError::AttentionRank { x, k }) if x == vec![1, 1, 2] && k == vec![1, 2]
    ));
}

#[test]
fn batches_attend_to_their_own_states() {
    let x = stack(&[1.0, 2.0, 3.0, 4.0, 5.0, 6.0, 7.0, 8.0], (2, 2, 2));
    let context = stack(&[7.0, 9.0, 7.0, 9.0, 1.0, 2.0, 1.0, 2.0], (2, 2, 2));
    let out = two_heads().forward(&x, &context).unwrap().to_vec3::<f32>().unwrap();
    let expected = [[7.0, 45.0, 52.0], [1.0, 10.0, 11.0]];
    for (batch, row) in expected.iter().enumerate() {
        for query in &out[batch] {
            assert!(query.iter().zip(row).all(|(a, b)| is_near(*a, *b)));
        }
    }
}

#[test]
fn different_numbers_of_batches_do_not_attend() {
    let x = stack(&[1.0; 4], (2, 1, 2));
    let context = stack(&[1.0; 6], (3, 1, 2));
    assert!(matches!(two_heads().forward(&x, &context), Err(ModelError::Candle(_))));
}

#[test]
fn attention_wants_states_of_its_width() {
    let wide = stack(&[1.0, 2.0, 3.0], (1, 1, 3));
    let context = stack(&[7.0, 9.0], (1, 1, 2));
    assert!(matches!(two_heads().forward(&wide, &context), Err(ModelError::Candle(_))));
    let x = stack(&[1.0, 2.0], (1, 1, 2));
    assert!(matches!(two_heads().forward(&x, &wide), Err(ModelError::Candle(_))));
}

#[test]
fn heads_have_to_divide_the_width() {
    let mut attention = two_heads();
    attention.heads = 3;
    let x = stack(&[1.0, 2.0], (1, 1, 2));
    assert!(matches!(attention.forward(&x, &x), Err(ModelError::Candle(_))));
}

#[test]
fn attention_takes_no_integers() {
    let numbers = Tensor::new(&[[[1u32, 2]]], &Device::Cpu).unwrap();
    assert!(matches!(two_heads().forward(&numbers, &numbers), Err(ModelError::Candle(_))));
    let nothing = |rows: usize| Tensor::zeros((rows, 0), DType::U32, &Device::Cpu).unwrap();
    let attention = CrossAttention {
        to_q: Linear::new(nothing(2)),
        to_kv: Linear::new(nothing(4)),
        to_out: Linear::new(nothing(2)),
        heads: 2,
        scale: number(ONE).unwrap(),
    };
    let x = Tensor::zeros((1, 1, 0), DType::U32, &Device::Cpu).unwrap();
    assert!(matches!(attention.forward(&x, &x), Err(ModelError::IntegerStates)));
}

#[test]
fn attention_to_nothing_is_refused() {
    let x = stack(&[1.0, 2.0], (1, 1, 2));
    let nothing = Tensor::zeros((1, 0, 2), DType::F32, &Device::Cpu).unwrap();
    assert!(two_heads().forward(&x, &nothing).is_err());
    assert!(two_heads().forward(&nothing, &x).is_err());
    // Turned around, a slice of states is projected without being copied first.
    let turned = Tensor::zeros((0, 3, 4), DType::F32, &Device::Cpu)
        .unwrap()
        .transpose(0, 1)
        .unwrap()
        .narrow(2, 1, 2)
        .unwrap();
    let x = stack(&[1.0; 6], (3, 1, 2));
    assert!(matches!(
        two_heads().forward(&x, &turned),
        Err(ModelError::EmptyStates { dims }) if dims == vec![3, 0, 2]
    ));
    assert!(matches!(
        two_heads().forward(&turned, &x),
        Err(ModelError::EmptyStates { dims }) if dims == vec![3, 0, 2]
    ));
}

#[test]
fn cross_attention_is_read_by_name() {
    let vb = weights(vec![
        ("to_q.weight", matrix(&[&[1.0, 2.0]])),
        ("to_kv.weight", matrix(&[&[3.0], &[4.0]])),
        ("to_out.weight", matrix(&[&[5.0], &[6.0]])),
    ]);
    let attention = CrossAttention::load(&vb, 2, 1, 1, 1).unwrap();
    assert_eq!(rows(&attention.to_q.weight), vec![vec![1.0, 2.0]]);
    assert_eq!(rows(&attention.to_kv.weight), vec![vec![3.0], vec![4.0]]);
    assert_eq!(rows(&attention.to_out.weight), vec![vec![5.0], vec![6.0]]);
    assert_eq!(attention.heads, 1);
    assert_eq!(attention.scale.to_scalar::<f64>().unwrap(), 1.0);
    assert!(matches!(CrossAttention::load(&vb, 2, 1, 1, 2), Err(ModelError::Candle(_))));
}

#[test]
fn contexts_without_a_norm_stay_as_they_are() {
    let norms = PreNorm::new(2, None, DType::F32, &Device::Cpu).unwrap();
    let x = matrix(&[&[100.0, 300.0]]);
    let (normed, context) = norms.forward(&x, Some(&x)).unwrap();
    assert!(is_near(rows(&normed)[0][0], -1.0));
    assert_eq!(rows(&context.unwrap()), vec![vec![100.0, 300.0]]);
    assert!(norms.forward(&x, None).unwrap().1.is_none());
}

#[test]
fn contexts_have_a_norm_of_their_own() {
    let norms = PreNorm::new(2, Some(3), DType::F32, &Device::Cpu).unwrap();
    let x = matrix(&[&[100.0, 300.0]]);
    let context = matrix(&[&[500.0, 500.0, 500.0]]);
    let (_, normed) = norms.forward(&x, Some(&context)).unwrap();
    assert_eq!(rows(&normed.unwrap()), vec![vec![0.0, 0.0, 0.0]]);
    assert!(matches!(norms.forward(&x, Some(&x)), Err(ModelError::Candle(_))));
}

#[test]
fn norms_of_integers_are_ones_and_zeros() {
    let norms = PreNorm::new(2, Some(1), DType::U32, &Device::Cpu).unwrap();
    assert_eq!(norms.norm.weight.to_vec1::<u32>().unwrap(), vec![1, 1]);
    assert_eq!(norms.norm.bias.to_vec1::<u32>().unwrap(), vec![0, 0]);
    assert_eq!(norms.context_norm.unwrap().weight.to_vec1::<u32>().unwrap(), vec![1]);
}

#[test]
fn rows_are_divided_by_their_lengths() {
    let out = normalize(&matrix(&[&[3.0], &[-4.0]])).unwrap();
    assert!(is_near(rows(&out)[0][0], 1.0) && is_near(rows(&out)[1][0], -1.0));
    let out = rows(&normalize(&matrix(&[&[3.0, 4.0], &[0.0, 2.0]])).unwrap());
    assert!(is_near(out[0][0], 0.6) && is_near(out[0][1], 0.8));
    assert!(out[1][0] == 0.0 && is_near(out[1][1], 1.0));
}

#[test]
fn rows_of_zeros_stay_zero_in_every_type() {
    for dtype in [DType::F16, DType::BF16, DType::F32, DType::F64] {
        let x = Tensor::zeros((2, 3), dtype, &Device::Cpu).unwrap();
        let out = normalize(&x).unwrap();
        assert_eq!(out.dtype(), dtype);
        let cells = out.to_dtype(DType::F64).unwrap().to_vec2::<f64>().unwrap();
        assert_eq!(cells, vec![vec![0.0; 3]; 2]);
    }
}

fn mask(entries: &[u32]) -> Tensor {
    Tensor::new(entries, &Device::Cpu).unwrap()
}

#[test]
fn masks_with_an_entry_per_row_are_the_weights() {
    let out = weigh_rows(&mask(&[1, 1, 0, 0, 2, 0]), DType::F32, 2, 3, 3).unwrap();
    assert_eq!(rows(&out), vec![vec![1.0, 1.0, 0.0], vec![0.0, 2.0, 0.0]]);
}

#[test]
fn other_masks_weigh_rows_by_the_tokens_that_they_keep() {
    let out = weigh_rows(&mask(&[1, 1, 0, 0, 0, 0]), DType::F32, 2, 3, 2).unwrap();
    assert_eq!(rows(&out), vec![vec![2.0, 2.0], vec![0.0, 0.0]]);
}

#[test]
fn weighted_means_leave_masked_rows_out() {
    let x = stack(&[2.0, 20.0, 4.0, 40.0, 100.0, 7.0, 1.0, 1.0, 1.0, 1.0, 1.0, 1.0], (2, 3, 2));
    let weights = matrix(&[&[1.0, 1.0, 0.0], &[0.0, 0.0, 0.0]]);
    let out = weighted_mean(&x, &weights).unwrap();
    assert_eq!(rows(&out), vec![vec![3.0, 30.0], vec![0.0, 0.0]]);
    let short = matrix(&[&[1.0, 1.0], &[1.0, 1.0]]);
    assert!(matches!(weighted_mean(&x, &short), Err(ModelError::Candle(_))));
}

#[test]
fn means_of_no_rows_are_zero_in_half_precision() {
    let x = stack(&[2.0, 4.0], (1, 2, 1)).to_dtype(DType::F16).unwrap();
    let out = weighted_mean(&x, &matrix(&[&[0.0, 0.0]])).unwrap();
    assert_eq!(out.dtype(), DType::F16);
    assert_eq!(rows(&out.to_dtype(DType::F32).unwrap()), vec![vec![0.0]]);
}

#[test]
fn the_constants_are_one_and_a_billionth() {
    assert_eq!(f64::from_bits(ONE), 1.0);
    assert_eq!(f64::from_bits(POOL_EPSILON), 1e-9);
}

/// Two latents of one column. The attention takes the value of the context, and the feed-forward
/// part gives zero.
fn narrow_model(output_normalize: bool) -> LatentAttentionModel {
    let norm = |size: usize| LayerNorm::new(size, DType::F32, &Device::Cpu).unwrap();
    LatentAttentionModel {
        cross_attend_norm: PreNorm { norm: norm(1), context_norm: None },
        cross_attention: CrossAttention {
            to_q: Linear::new(matrix(&[&[1.0]])),
            to_kv: Linear::new(matrix(&[&[1.0], &[1.0]])),
            to_out: Linear::new(matrix(&[&[1.0]])),
            heads: 1,
            scale: number(ONE).unwrap(),
        },
        ff_norm: PreNorm { norm: norm(1), context_norm: None },
        feed_forward: FeedForward {
            net_w1: Linear::new(matrix(&[&[1.0], &[1.0]])),
            net_w2: Linear::new(matrix(&[&[1.0]])),
        },
        latents: matrix(&[&[1.0], &[3.0]]),
        output_normalize,
    }
}

#[test]
fn latents_gather_and_are_averaged() {
    let model = narrow_model(false);
    let states = stack(&[10.0, 20.0], (2, 1, 1));
    let gathered = model.gather(&states).unwrap();
    assert_eq!(
        gathered.to_vec3::<f32>().unwrap(),
        vec![vec![vec![11.0], vec![13.0]], vec![vec![21.0], vec![23.0]]]
    );
    let out = model.forward(&states, None).unwrap();
    assert_eq!(rows(&out), vec![vec![12.0], vec![22.0]]);
}

#[test]
fn masks_choose_among_the_latents() {
    let model = narrow_model(false);
    let states = stack(&[10.0, 30.0, 20.0, 40.0], (2, 2, 1));
    let out = model.forward(&states, Some(&mask(&[1, 0, 0, 1]))).unwrap();
    assert_eq!(rows(&out), vec![vec![21.0], vec![33.0]]);
    let normalized = narrow_model(true).forward(&states, Some(&mask(&[1, 0, 0, 1]))).unwrap();
    assert!(is_near(rows(&normalized)[0][0], 1.0));
}

#[test]
fn masks_of_other_lengths_keep_or_drop_whole_sequences() {
    let states = stack(&[10.0, 20.0], (2, 1, 1));
    let out = narrow_model(false).forward(&states, Some(&mask(&[1, 0]))).unwrap();
    assert_eq!(rows(&out), vec![vec![12.0], vec![0.0]]);
}

#[test]
fn masks_may_hold_other_numbers() {
    let states = stack(&[10.0, 20.0], (2, 1, 1));
    let bytes = Tensor::new(&[1u8, 1], &Device::Cpu).unwrap();
    let out = narrow_model(false).forward(&states, Some(&bytes)).unwrap();
    assert_eq!(rows(&out), vec![vec![12.0], vec![22.0]]);
    let floats = Tensor::new(&[1f32, 0.0], &Device::Cpu).unwrap();
    let out = narrow_model(false).forward(&states, Some(&floats)).unwrap();
    assert_eq!(rows(&out), vec![vec![12.0], vec![0.0]]);
}

#[test]
fn masks_need_an_entry_per_token() {
    let states = stack(&[10.0, 20.0, 30.0, 40.0], (2, 2, 1));
    let square = Tensor::new(&[[1u32, 1], [1, 1]], &Device::Cpu).unwrap();
    assert!(matches!(
        narrow_model(false).forward(&states, Some(&square)),
        Err(ModelError::MaskShape { expected: 4, dims }) if dims == vec![2, 2]
    ));
    assert!(matches!(
        narrow_model(false).forward(&states, Some(&mask(&[1, 1, 1]))),
        Err(ModelError::MaskShape { expected: 4, dims }) if dims == vec![3]
    ));
    let column = Tensor::new(&[[1u32], [1], [1], [1]], &Device::Cpu).unwrap();
    assert!(matches!(
        narrow_model(false).forward(&states, Some(&column)),
        Err(ModelError::MaskShape { expected: 4, dims }) if dims == vec![4, 1]
    ));
}

#[test]
fn states_without_three_dimensions_are_refused() {
    let out = narrow_model(false).forward(&matrix(&[&[1.0], &[2.0]]), None);
    assert!(matches!(out, Err(ModelError::HiddenStatesRank { dims }) if dims == vec![2, 1]));
}

#[test]
fn sequences_without_tokens_are_refused() {
    let model = narrow_model(false);
    for dims in [(1, 0, 1), (0, 2, 1), (0, 0, 1)] {
        let states = Tensor::zeros(dims, DType::F32, &Device::Cpu).unwrap();
        assert!(matches!(
            model.forward(&states, None),
            Err(ModelError::EmptyStates { dims: found }) if found == states.dims()
        ));
    }
    // A slice that starts behind the end of its buffer.
    let behind = Tensor::zeros((0, 1, 5), DType::F32, &Device::Cpu)
        .unwrap()
        .narrow(2, 3, 1)
        .unwrap();
    assert!(matches!(model.forward(&behind, None), Err(ModelError::EmptyStates { .. })));
}

#[test]
fn models_without_latents_are_refused() {
    let mut model = narrow_model(false);
    model.latents = Tensor::zeros((0, 1), DType::F32, &Device::Cpu).unwrap();
    assert!(matches!(
        model.forward(&stack(&[1.0], (1, 1, 1)), None),
        Err(ModelError::EmptyStates { dims }) if dims == vec![0, 1]
    ));
}

#[test]
fn states_of_another_width_are_refused() {
    let out = narrow_model(false).forward(&stack(&[1.0, 2.0], (1, 1, 2)), None);
    assert!(matches!(out, Err(ModelError::HiddenSize { got: 2, expected: 1 })));
}

#[test]
fn wide_latents_are_normalized_row_by_row() {
    let norm = |size: usize| LayerNorm::new(size, DType::F32, &Device::Cpu).unwrap();
    let wide = |output_normalize: bool| LatentAttentionModel {
        cross_attend_norm: PreNorm { norm: norm(2), context_norm: Some(norm(2)) },
        cross_attention: CrossAttention {
            to_q: Linear::new(matrix(&[&[1.0, 0.0], &[0.0, 1.0]])),
            to_kv: Linear::new(Tensor::zeros((4, 2), DType::F32, &Device::Cpu).unwrap()),
            to_out: Linear::new(matrix(&[&[1.0, 0.0], &[0.0, 1.0]])),
            heads: 2,
            scale: number(ONE).unwrap(),
        },
        ff_norm: PreNorm { norm: norm(2), context_norm: None },
        feed_forward: FeedForward {
            net_w1: Linear::new(Tensor::zeros((2, 2), DType::F32, &Device::Cpu).unwrap()),
            net_w2: Linear::new(matrix(&[&[1.0], &[1.0]])),
        },
        latents: matrix(&[&[1.0, 5.0], &[3.0, 7.0]]),
        output_normalize,
    };
    let states = stack(&[1.0, 2.0, 3.0, 4.0], (1, 2, 2));
    assert_eq!(rows(&wide(false).forward(&states, None).unwrap()), vec![vec![2.0, 6.0]]);
    let row = rows(&wide(true).forward(&states, None).unwrap()).remove(0);
    let length = 40f32.sqrt();
    assert!(is_near(row[0], 2.0 / length) && is_near(row[1], 6.0 / length));
    let kept = wide(false).forward(&states, Some(&mask(&[0, 1]))).unwrap();
    assert_eq!(rows(&kept), vec![vec![3.0, 7.0]]);
}

fn config(output_normalize: bool) -> NVEmbedConfig {
    NVEmbedConfig {
        hidden_size: 2,
        model_type: "nvembed".to_string(),
        torch_dtype: Some("float16".to_string()),
        text_config: TextConfig {
            hidden_size: 2,
            intermediate_size: 1,
            num_hidden_layers: 0,
            num_attention_heads: 1,
            num_key_value_heads: 1,
            hidden_act: HiddenAct::Gelu,
            max_position_embeddings: 4,
            rms_norm_eps: 0,
            rope_theta: 0,
            sliding_window: None,
            vocab_size: 3,
        },
        latent_attention_config: LatentAttentionConfig {
            num_latents_value: 1,
            latent_dim: 2,
            hidden_dim: 2,
            num_cross_heads: 2,
            cross_dim_head: 8,
            output_normalize,
        },
        is_mask_instruction: None,
    }
}

#[test]
fn latent_models_are_read_by_name() {
    let zeros = |r: usize, c: usize| Tensor::zeros((r, c), DType::F32, &Device::Cpu).unwrap();
    let vb = weights(vec![
        ("latents", matrix(&[&[1.0, 2.0]])),
        ("cross_attend_blocks.0.fn.to_q.weight", zeros(8, 2)),
        ("cross_attend_blocks.0.fn.to_kv.weight", zeros(16, 2)),
        ("cross_attend_blocks.0.fn.to_out.weight", zeros(2, 8)),
        ("cross_attend_blocks.1.fn.net.0.weight", zeros(16, 2)),
        ("cross_attend_blocks.1.fn.net.2.weight", zeros(2, 8)),
    ]);
    let model = LatentAttentionModel::load(&vb, &config(true)).unwrap();
    assert_eq!(rows(&model.latents), vec![vec![1.0, 2.0]]);
    assert_eq!(model.cross_attention.heads, 2);
    assert_eq!(model.cross_attention.scale.to_scalar::<f64>().unwrap(), 0.5);
    assert!(model.cross_attend_norm.context_norm.is_some());
    assert!(model.ff_norm.context_norm.is_none());
    assert!(model.output_normalize);
    let states = stack(&[1.0, 2.0], (1, 1, 2));
    let row = rows(&model.forward(&states, None).unwrap()).remove(0);
    assert!(is_near(row[0], 1.0 / 5f32.sqrt()) && is_near(row[1], 2.0 / 5f32.sqrt()));
    assert!(matches!(
        LatentAttentionModel::load(&weights(vec![]), &config(true)),
        Err(ModelError::Candle(_))
    ));
}

fn are_near(a: &Tensor, b: &Tensor) -> bool {
    let cells = |t: &Tensor| t.flatten_all().unwrap().to_vec1::<f32>().unwrap();
    a.dims() == b.dims() && cells(a).iter().zip(cells(b)).all(|(x, y)| is_near(*x, y))
}

/// The items or rows of a tensor in another order.
fn reordered(t: &Tensor, order: &[u32], dim: usize) -> Tensor {
    t.index_select(&Tensor::new(order, &Device::Cpu).unwrap(), dim).unwrap()
}

#[test]
fn units_are_additive_in_their_first_half() {
    let (a, b) = (matrix(&[&[2.0, 3.0]]), matrix(&[&[-1.0, 0.5]]));
    let gates = matrix(&[&[0.5, -1.0]]);
    let unit = |t: &Tensor| GEGLU::forward(&Tensor::cat(&[t, &gates], 1).unwrap()).unwrap();
    let sum = unit(&a.add(&b).unwrap());
    assert!(are_near(&sum, &unit(&a).add(&unit(&b)).unwrap()));
}

#[test]
fn units_of_zeros_are_zero() {
    let out = GEGLU::forward(&matrix(&[&[0.0, 0.0, 1.0, 2.0], &[5.0, 6.0, 0.0, 0.0]])).unwrap();
    assert_eq!(rows(&out), vec![vec![0.0, 0.0], vec![0.0, 0.0]]);
}

#[test]
fn items_attend_as_they_do_alone() {
    let x = stack(&[1.0, 2.0, 3.0, -4.0], (2, 1, 2));
    let context = stack(&[0.5, 1.0, 2.0, 1.0, 0.0, -1.0, 3.0, 0.25], (2, 2, 2));
    let both = two_heads().forward(&x, &context).unwrap();
    for item in 0..2 {
        let alone = two_heads()
            .forward(&x.narrow(0, item, 1).unwrap(), &context.narrow(0, item, 1).unwrap())
            .unwrap();
        assert!(are_near(&both.narrow(0, item, 1).unwrap(), &alone));
    }
}

#[test]
fn reordered_queries_get_reordered_rows() {
    let x = stack(&[1.0, 2.0, 3.0, -4.0, 0.5, 0.0], (1, 3, 2));
    let context = stack(&[0.5, 1.0, 2.0, 1.0], (1, 2, 2));
    let out = two_heads().forward(&x, &context).unwrap();
    let order = [2, 0, 1];
    let other = two_heads().forward(&reordered(&x, &order, 1), &context).unwrap();
    assert!(are_near(&other, &reordered(&out, &order, 1)));
}

#[test]
fn the_order_of_a_context_does_not_matter() {
    let x = stack(&[1.0, 2.0, 3.0, -4.0], (1, 2, 2));
    let context = stack(&[0.5, 1.0, 2.0, 1.0, -1.0, 0.0], (1, 3, 2));
    let out = two_heads().forward(&x, &context).unwrap();
    let other = two_heads().forward(&x, &reordered(&context, &[1, 2, 0], 1)).unwrap();
    assert!(are_near(&out, &other));
}

#[test]
fn equal_rows_of_a_context_leave_no_choice() {
    let many = stack(&[7.0, 9.0, 7.0, 9.0, 7.0, 9.0], (1, 3, 2));
    let one = stack(&[7.0, 9.0], (1, 1, 2));
    let x = stack(&[1.0, 2.0, 3.0, -4.0], (1, 2, 2));
    let y = stack(&[0.0, 5.0], (1, 1, 2));
    let out = two_heads().forward(&x, &many).unwrap();
    let other = two_heads().forward(&y, &one).unwrap();
    for query in 0..2 {
        assert!(are_near(&out.narrow(1, query, 1).unwrap(), &other));
    }
}

fn wide_model(output_normalize: bool) -> LatentAttentionModel {
    let norm = |size: usize| LayerNorm::new(size, DType::F32, &Device::Cpu).unwrap();
    LatentAttentionModel {
        cross_attend_norm: PreNorm { norm: norm(3), context_norm: Some(norm(3)) },
        cross_attention: CrossAttention {
            to_q: Linear::new(matrix(&[&[1.0, 0.5, 0.0], &[0.0, 1.0, -1.0]])),
            to_kv: Linear::new(matrix(&[
                &[1.0, 0.0, 2.0],
                &[0.0, 1.0, 0.5],
                &[1.0, 1.0, 0.0],
                &[0.25, 0.0, 5.0],
            ])),
            to_out: Linear::new(matrix(&[&[1.0, 0.0], &[0.0, 1.0], &[2.0, 1.0]])),
            heads: 2,
            scale: number(ONE).unwrap(),
        },
        ff_norm: PreNorm { norm: norm(3), context_norm: None },
        feed_forward: FeedForward {
            net_w1: Linear::new(matrix(&[&[1.0, 0.0, 1.0], &[0.0, 2.0, 1.0]])),
            net_w2: Linear::new(matrix(&[&[1.0], &[0.5], &[-1.0]])),
        },
        latents: matrix(&[&[1.0, 5.0, 2.0], &[3.0, 7.0, -2.0]]),
        output_normalize,
    }
}

fn two_sequences() -> Tensor {
    let cells = [1.0, 2.0, 4.0, -3.0, 0.5, 1.0, 9.0, 1.0, 0.0, 2.0, 2.5, -1.0];
    stack(&cells, (2, 2, 3))
}

#[test]
fn an_item_of_a_batch_gets_what_it_gets_alone() {
    for output_normalize in [false, true] {
        let model = wide_model(output_normalize);
        let both = model.forward(&two_sequences(), None).unwrap();
        for item in 0..2 {
            let alone = model.forward(&two_sequences().narrow(0, item, 1).unwrap(), None).unwrap();
            assert!(are_near(&both.narrow(0, item, 1).unwrap(), &alone));
        }
    }
}

#[test]
fn the_order_of_the_states_does_not_matter() {
    let model = wide_model(true);
    let out = model.forward(&two_sequences(), None).unwrap();
    let other = model.forward(&reordered(&two_sequences(), &[1, 0], 1), None).unwrap();
    assert!(are_near(&out, &other));
}

#[test]
fn normalizing_divides_by_the_length_and_does_nothing_else() {
    let masks = [None, Some(mask(&[1, 0, 1, 1]))];
    for mask in &masks {
        let plain = wide_model(false).forward(&two_sequences(), mask.as_ref()).unwrap();
        let out = wide_model(true).forward(&two_sequences(), mask.as_ref()).unwrap();
        for (row, unit) in rows(&plain).iter().zip(rows(&out)) {
            let length = row.iter().map(|x| x * x).sum::<f32>().sqrt();
            assert!(row.iter().zip(unit).all(|(x, y)| is_near(x / length, y)));
        }
    }
}
