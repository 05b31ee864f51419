use candle_core::{DType, Device, Tensor};
use candle_nn::var_builder::SimpleBackend;
use candle_nn::{Init, VarBuilder};
use nvembed::error::ModelError;
use nvembed::layers::{
    expect_float, has_cells, inverse_sqrt, is_float_type, number, pick, reshaped, vector_of, widen,
    Embedding, LayerNorm, Linear, RMSNorm, NORM_EPSILON,
};
use nvembed::weights::{dims_of, expect, expect_countable, is_countable, same_dtype, Weights};
use std::collections::HashMap;

fn matrix(rows: &[&[f32]]) -> Tensor {
    let cells: Vec<f32> = rows.iter().flat_map(|r| r.to_vec()).collect();
    Tensor::from_vec(cells, (rows.len(), rows[0].len()), &Device::Cpu).unwrap()
}

fn weights(entries: Vec<(&str, Tensor)>) -> Weights {
    let map: HashMap<String, Tensor> =
        entries.into_iter().map(|(name, t)| (name.to_string(), t)).collect();
    Weights { builder: VarBuilder::from_tensors(map, DType::F32, &Device::Cpu) }
}

struct Careless;

impl SimpleBackend for Careless {
    fn get(
        &self,
        _: candle_core::Shape,
        _: &str,
        _: Init,
        _: DType,
        device: &Device,
    ) -> candle_core::Result<Tensor> {
        Tensor::zeros((2, 2), DType::F64, device)
    }

    fn get_unchecked(&self, _: &str, _: DType, device: &Device) -> candle_core::Result<Tensor> {
        Tensor::zeros((2, 2), DType::F64, device)
    }

    fn contains_tensor(&self, _: &str) -> bool {
        false
    }
}

fn careless(dtype: DType) -> Weights {
    Weights { builder: VarBuilder::from_backend(Box::new(Careless), dtype, Device::Cpu) }
}

#[test]
fn linear_maps_multiply_with_the_transposed_weight() {
    let linear = Linear::new(matrix(&[&[1.0, 2.0], &[3.0, 4.0], &[5.0, 6.0]]));
    let out = linear.forward(&matrix(&[&[10.0, 100.0]])).unwrap();
    assert_eq!(out.to_vec2::<f32>().unwrap(), vec![vec![210.0, 430.0, 650.0]]);
}

#[test]
fn linear_maps_refuse_rows_of_another_width() {
    let linear = Linear::new(matrix(&[&[1.0, 2.0]]));
    let out = linear.forward(&matrix(&[&[1.0, 2.0, 3.0]]));
    assert!(matches!(out, Err(ModelError::Candle(_))));
}

#[test]
fn scales_are_rounded_to_single_precision() {
    assert_eq!(inverse_sqrt(4).unwrap().to_scalar::<f64>().unwrap(), 0.5);
    let expected = (1.0 / 128f64.sqrt()) as f32 as f64;
    assert_eq!(inverse_sqrt(128).unwrap().to_scalar::<f64>().unwrap(), expected);
    assert_ne!(inverse_sqrt(128).unwrap().to_scalar::<f64>().unwrap(), 1.0 / 128f64.sqrt());
    assert!(inverse_sqrt(0).unwrap().to_scalar::<f64>().unwrap().is_infinite());
}

#[test]
fn numbers_are_given_by_their_bits() {
    assert_eq!(number(1.5f64.to_bits()).unwrap().to_scalar::<f64>().unwrap(), 1.5);
    assert_eq!(f64::from_bits(NORM_EPSILON), 1e-5);
}

#[test]
fn rms_norm_scales_to_a_mean_square_of_one() {
    let vb = weights(vec![("weight", Tensor::new(&[1f32, 2.0], &Device::Cpu).unwrap())]);
    let norm = RMSNorm::load(&vb, 2, 0f64.to_bits()).unwrap();
    let (normed, sum) = norm.forward(&matrix(&[&[3.0, 3.0]]), None).unwrap();
    assert_eq!(normed.to_vec2::<f32>().unwrap(), vec![vec![1.0, 2.0]]);
    assert_eq!(sum.to_vec2::<f32>().unwrap(), vec![vec![3.0, 3.0]]);
}

#[test]
fn rms_norm_adds_the_residual_first() {
    let vb = weights(vec![("weight", Tensor::new(&[1f32, 1.0], &Device::Cpu).unwrap())]);
    let norm = RMSNorm::load(&vb, 2, 0f64.to_bits()).unwrap();
    let residual = matrix(&[&[1.0, -7.0]]);
    let (normed, sum) = norm.forward(&matrix(&[&[3.0, 3.0]]), Some(&residual)).unwrap();
    assert_eq!(sum.to_vec2::<f32>().unwrap(), vec![vec![4.0, -4.0]]);
    assert_eq!(normed.to_vec2::<f32>().unwrap(), vec![vec![1.0, -1.0]]);
}

#[test]
fn rms_norm_refuses_a_residual_of_another_shape() {
    let vb = weights(vec![("weight", Tensor::new(&[1f32, 1.0], &Device::Cpu).unwrap())]);
    let norm = RMSNorm::load(&vb, 2, 0f64.to_bits()).unwrap();
    let residual = matrix(&[&[1.0, 2.0], &[3.0, 4.0]]);
    let out = norm.forward(&matrix(&[&[3.0, 3.0]]), Some(&residual));
    assert!(matches!(out, Err(ModelError::Candle(_))));
}

#[test]
fn rms_norm_needs_its_weight() {
    assert!(matches!(RMSNorm::load(&weights(vec![]), 2, 0), Err(ModelError::Candle(_))));
}

#[test]
fn new_layer_norms_scale_by_one_and_shift_by_zero() {
    let norm = LayerNorm::new(2, DType::F32, &Device::Cpu).unwrap();
    assert_eq!(norm.weight.to_vec1::<f32>().unwrap(), vec![1.0, 1.0]);
    assert_eq!(norm.bias.to_vec1::<f32>().unwrap(), vec![0.0, 0.0]);
    let out = norm.forward(&matrix(&[&[100.0, 300.0]])).unwrap();
    let row = out.to_vec2::<f32>().unwrap().remove(0);
    assert!((row[0] + 1.0).abs() < 1e-4 && (row[1] - 1.0).abs() < 1e-4);
}

#[test]
fn embeddings_are_rows_of_the_table() {
    let weight = matrix(&[&[1.0, 2.0], &[3.0, 4.0], &[5.0, 6.0]]);
    let table = Embedding { weight, hidden_size: 2 };
    let ids = Tensor::new(&[2u32, 0, 2], &Device::Cpu).unwrap();
    let out = table.forward(&ids).unwrap().to_vec2::<f32>().unwrap();
    assert_eq!(out, vec![vec![5.0, 6.0], vec![1.0, 2.0], vec![5.0, 6.0]]);
    let beyond = Tensor::new(&[3u32], &Device::Cpu).unwrap();
    assert!(matches!(table.forward(&beyond), Err(ModelError::Candle(_))));
}

#[test]
fn weights_are_found_by_place_and_name() {
    let vb = weights(vec![
        ("a.weight", matrix(&[&[1.0, 2.0]])),
        ("weight", matrix(&[&[3.0], &[4.0]])),
    ]);
    assert_eq!(
        vb.matrix("a", 1, 2).unwrap().to_vec2::<f32>().unwrap(),
        vec![vec![1.0, 2.0]]
    );
    assert_eq!(
        vb.tensor(&vec![2, 1], "weight").unwrap().to_vec2::<f32>().unwrap(),
        vec![vec![3.0], vec![4.0]]
    );
    assert!(matches!(vb.matrix("b", 1, 2), Err(ModelError::Candle(_))));
    assert!(matches!(vb.matrix("a", 2, 1), Err(ModelError::Candle(_))));
}

#[test]
fn weights_of_another_shape_are_refused() {
    let wide = RMSNorm::load(&careless(DType::F64), 3, 0);
    assert!(matches!(wide, Err(ModelError::UnexpectedWeight { dims }) if dims == vec![2, 2]));
}

#[test]
fn weights_may_have_a_type_of_their_own() {
    let found = careless(DType::F32).matrix("layer", 2, 2).unwrap();
    assert_eq!(found.dtype(), DType::F64);
}

#[test]
fn expected_tensors_pass_unchanged() {
    let t = matrix(&[&[1.0, 2.0]]);
    assert_eq!(dims_of(&t), vec![1, 2]);
    let same = expect(t.clone(), &vec![1, 2]).unwrap();
    assert_eq!(same.to_vec2::<f32>().unwrap(), vec![vec![1.0, 2.0]]);
    assert!(matches!(
        expect(t, &vec![2, 1]),
        Err(ModelError::UnexpectedWeight { dims }) if dims == vec![1, 2]
    ));
}

#[test]
fn element_types_are_told_apart() {
    let all = [
        DType::U8,
        DType::U32,
        DType::I16,
        DType::I32,
        DType::I64,
        DType::BF16,
        DType::F16,
        DType::F32,
        DType::F64,
        DType::F8E4M3,
        DType::F6E2M3,
        DType::F6E3M2,
        DType::F4,
        DType::F8E8M0,
    ];
    for (i, a) in all.iter().enumerate() {
        for (j, b) in all.iter().enumerate() {
            assert_eq!(same_dtype(*a, *b), i == j);
        }
    }
}

#[test]
fn shapes_are_countable_where_no_product_is_too_large() {
    assert!(is_countable(&vec![]));
    assert!(is_countable(&vec![2, 3, 0]));
    assert!(is_countable(&vec![usize::MAX, 0, 1]));
    assert!(!is_countable(&vec![usize::MAX, 2]));
    assert!(!is_countable(&vec![usize::MAX, 0, 2]));
    assert!(expect_countable(&vec![2, 3]).is_ok());
    assert!(matches!(
        expect_countable(&vec![usize::MAX, 2]),
        Err(ModelError::TooManyCells { dims }) if dims == vec![usize::MAX, 2]
    ));
}

#[test]
fn outcomes_have_to_be_countable() {
    let long = Tensor::zeros((1 << 40, 0), DType::F32, &Device::Cpu).unwrap();
    assert!(matches!(
        Linear::new(long.clone()).forward(&long),
        Err(ModelError::TooManyCells { dims }) if dims == vec![1 << 40, 1 << 40]
    ));
    assert!(matches!(
        widen(&matrix(&[&[1.0], &[2.0]]), usize::MAX),
        Err(ModelError::TooManyCells { dims }) if dims == vec![2, usize::MAX]
    ));
    assert!(matches!(
        weights(vec![]).matrix("layer", usize::MAX, 2),
        Err(ModelError::TooManyCells { dims }) if dims == vec![usize::MAX, 2]
    ));
}

#[test]
fn rows_are_picked_in_the_order_of_the_list() {
    let t = matrix(&[&[1.0, 2.0], &[3.0, 4.0], &[5.0, 6.0]]);
    let list = Tensor::new(&[2u32, 0, 2], &Device::Cpu).unwrap();
    assert_eq!(
        pick(&t, &list).unwrap().to_vec2::<f32>().unwrap(),
        vec![vec![5.0, 6.0], vec![1.0, 2.0], vec![5.0, 6.0]]
    );
    let beyond = Tensor::new(&[3u32], &Device::Cpu).unwrap();
    assert!(matches!(pick(&t, &beyond), Err(ModelError::Candle(_))));
}

#[test]
fn shapes_have_cells_where_no_dimension_is_empty() {
    assert!(has_cells(&vec![]));
    assert!(has_cells(&vec![2, 3]));
    assert!(!has_cells(&vec![2, 0, 3]));
}

#[test]
fn reshaped_tensors_keep_the_order_of_their_cells() {
    let t = matrix(&[&[1.0, 2.0, 3.0], &[4.0, 5.0, 6.0]]);
    let turned = reshaped(&t, &vec![3, 2]).unwrap();
    assert_eq!(
        turned.to_vec2::<f32>().unwrap(),
        vec![vec![1.0, 2.0], vec![3.0, 4.0], vec![5.0, 6.0]]
    );
    assert!(matches!(reshaped(&t, &vec![4, 2]), Err(ModelError::Candle(_))));
    assert!(matches!(
        reshaped(&t, &vec![usize::MAX, 2]),
        Err(ModelError::TooManyCells { dims }) if dims == vec![usize::MAX, 2]
    ));
}

#[test]
fn vectors_are_as_long_as_expected() {
    let out = vector_of(vec![3, 1], 2, &Device::Cpu).unwrap();
    assert_eq!(out.to_vec1::<u32>().unwrap(), vec![3, 1]);
    assert!(matches!(
        vector_of(vec![3, 1], 3, &Device::Cpu),
        Err(ModelError::ListLength { got: 2, expected: 3 })
    ));
}

#[test]
fn integers_are_not_floats() {
    for dtype in [DType::U8, DType::U32, DType::I64] {
        let t = Tensor::zeros(2, dtype, &Device::Cpu).unwrap();
        assert!(matches!(expect_float(&t), Err(ModelError::IntegerStates)));
        let nothing = Tensor::zeros((2, 0), dtype, &Device::Cpu).unwrap();
        assert!(expect_float(&nothing).is_ok());
        assert!(!is_float_type(dtype));
    }
    for dtype in [DType::F16, DType::BF16, DType::F32, DType::F64] {
        assert!(expect_float(&Tensor::zeros(2, dtype, &Device::Cpu).unwrap()).is_ok());
    }
}

#[test]
fn columns_are_laid_out_over_rows() {
    let out = widen(&matrix(&[&[1.0], &[2.0]]), 3).unwrap();
    assert_eq!(out.to_vec2::<f32>().unwrap(), vec![vec![1.0; 3], vec![2.0; 3]]);
    let same = widen(&matrix(&[&[1.0], &[2.0]]), 1).unwrap();
    assert_eq!(same.to_vec2::<f32>().unwrap(), vec![vec![1.0], vec![2.0]]);
}
