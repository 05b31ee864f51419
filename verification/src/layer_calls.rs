//! What calls of the smallest parts give, and what they refuse.
use crate::array::{
    chunk_len, chunk_start, count, ids_below, in_bounds, join, joinable,
    law_narrowing_undoes_joining, lemma_count_two, lemma_span, scalar_bits, sizes, Array,
};
use crate::attention::BidirectionalMistralAttention;
use crate::config::{LatentAttentionConfig, NVEmbedConfig, TextConfig};
use crate::cross_attention::CrossAttention;
use crate::error::ModelError;
use crate::feed_forward::halves;
use crate::latent::LatentAttentionModel;
use crate::latent_laws::are_halves;
use crate::layers::{
    expect_float, integer, inverse_sqrt, pick, vector_of, widen, Embedding, LayerNorm, RMSNorm,
};
use crate::model::FlashNVEmbedModel;
use crate::ops::{layer_norm_gives, rms_norm_gives};
use crate::tensor::{array, cast_gives, recip_gives, sqrt_gives, tensor_dims, tensor_dtype};
use crate::token_calls::rms_gave;
use crate::weights::{expect, is_countable, Weights};
use candle_core::{DType, Device, Tensor};
use vstd::prelude::*;

verus! {

/// A cell of a matrix.
pub open spec fn matrix_cell(a: Array, i: nat, j: nat) -> u64 {
    a.cells[seq![i, j]]
}

/// A number of a list that a tensor holds.
pub open spec fn listed(a: Array, t: nat) -> nat {
    a.cells[seq![t]] as nat
}

/// `out` is one over the square root of the whole number `n`, computed in double precision and
/// rounded to single precision.
pub open spec fn is_one_over_root(n: u64, out: Array) -> bool {
    exists|double: Array, root: Array, inverse: Array, single: Array|
        {
            &&& #[trigger] cast_gives(integer(n), DType::F64, double)
            &&& #[trigger] sqrt_gives(double, root)
            &&& #[trigger] recip_gives(root, inverse)
            &&& #[trigger] cast_gives(inverse, DType::F32, single)
            &&& cast_gives(single, DType::F64, out)
        }
}

/// The scale of an attention is one over the square root of the size of its heads.
pub proof fn law_scale_is_one_over_the_root_of_the_size(size: usize, scale: Tensor)
    requires
        call_ensures(inverse_sqrt, (size,), Ok::<Tensor, ModelError>(scale)),
    ensures
        is_one_over_root(size as u64, array(scale)),
        array(scale).cells[seq![]] == scalar_bits(array(scale)),
        tensor_dtype(scale) is F64,
{
}

/// A loaded attention scales by one over the square root of the size of its heads, into which the
/// width of the states is cut.
pub proof fn law_loaded_attention_has_the_scale_of_its_heads(
    vb: Weights,
    config: NVEmbedConfig,
    attention: BidirectionalMistralAttention,
)
    requires
        config.text_config.num_attention_heads > 0,
        call_ensures(
            BidirectionalMistralAttention::load,
            (&vb, &config),
            Ok::<BidirectionalMistralAttention, ModelError>(attention),
        ),
    ensures
        is_one_over_root(
            (config.text_config.hidden_size / config.text_config.num_attention_heads) as u64,
            array(attention.softmax_scale),
        ),
{
}

/// A loaded cross attention scales by one over the square root of the size of its heads, and has as
/// many as it was asked for.
pub proof fn law_loaded_cross_attention_has_the_scale_of_its_heads(
    vb: Weights,
    query_dim: usize,
    context_dim: usize,
    heads: usize,
    dim_head: usize,
    attention: CrossAttention,
)
    requires
        call_ensures(
            CrossAttention::load,
            (&vb, query_dim, context_dim, heads, dim_head),
            Ok::<CrossAttention, ModelError>(attention),
        ),
    ensures
        is_one_over_root(dim_head as u64, array(attention.scale)),
        attention.heads == heads,
        tensor_dims(attention.to_q.weight) == seq![(dim_head * heads) as nat, query_dim as nat],
        tensor_dims(attention.to_kv.weight) == seq![
            (dim_head * heads * 2) as nat,
            context_dim as nat,
        ],
        tensor_dims(attention.to_out.weight) == seq![query_dim as nat, (dim_head * heads) as nat],
{
}

/// The cross attention of a loaded latent attention scales by one over the square root of the size
/// of its heads.
pub proof fn law_loaded_latent_attention_has_the_scale_of_its_heads(
    vb: Weights,
    config: NVEmbedConfig,
    model: LatentAttentionModel,
)
    requires
        config.latent_attention_config.num_cross_heads > 0,
        call_ensures(
            LatentAttentionModel::load,
            (&vb, &config),
            Ok::<LatentAttentionModel, ModelError>(model),
        ),
    ensures
        is_one_over_root(
            (config.latent_attention_config.cross_dim_head
                / config.latent_attention_config.num_cross_heads) as u64,
            array(model.cross_attention.scale),
        ),
{
}

/// Without a residual, the sum is the input, and the norm is taken of it with the weight and the
/// epsilon of the norm.
pub proof fn law_norm_without_a_residual(norm: RMSNorm, x: Tensor, normed: Tensor, sum: Tensor)
    requires
        rms_gave(norm, x, None, normed, sum),
    ensures
        array(sum) == array(x),
        rms_norm_gives(
            array(norm.weight),
            scalar_bits(array(norm.epsilon)),
            array(x),
            array(normed),
        ),
{
}

/// A norm scales and shifts by its own weight and bias.
pub proof fn law_layer_norm_has_its_own_weights(norm: LayerNorm, x: Tensor, out: Tensor)
    requires
        call_ensures(LayerNorm::forward, (&norm, &x), Ok::<Tensor, ModelError>(out)),
    ensures
        layer_norm_gives(
            array(norm.weight),
            array(norm.bias),
            scalar_bits(array(norm.epsilon)),
            array(x),
            array(out),
        ),
{
}

/// A new norm scales every feature by one and shifts it by zero.
pub proof fn law_new_norm_changes_no_feature(
    size: usize,
    dtype: DType,
    device: Device,
    norm: LayerNorm,
    other: LayerNorm,
    i: nat,
    j: nat,
)
    requires
        i < size,
        j < size,
        call_ensures(
            LayerNorm::new,
            (size, dtype, &device),
            Ok::<LayerNorm, ModelError>(norm),
        ),
        call_ensures(
            LayerNorm::new,
            (size, dtype, &device),
            Ok::<LayerNorm, ModelError>(other),
        ),
    ensures
        tensor_dims(norm.weight) == seq![size as nat],
        tensor_dims(norm.bias) == seq![size as nat],
        array(norm.bias).cells[seq![i]] == 0,
        array(norm.weight).cells[seq![i]] == array(norm.weight).cells[seq![j]],
        array(norm.weight) == array(other.weight),
        scalar_bits(array(norm.epsilon)) == 0x3ee4_f8b5_88e3_68f1,
{
    assert(in_bounds(seq![i], seq![size as nat]));
    assert(in_bounds(seq![j], seq![size as nat]));
}

/// The row of a token is the row of the table that the token names.
pub proof fn law_tokens_name_the_rows_of_their_table(
    table: Embedding,
    ids: Tensor,
    out: Tensor,
    t: nat,
    c: nat,
)
    requires
        table.is_sized(),
        tensor_dtype(ids) is U32,
        tensor_dims(ids).len() == 1,
        ids_below(array(ids), tensor_dims(table.weight)[0]),
        t < tensor_dims(ids)[0],
        c < table.hidden_size,
        call_ensures(Embedding::forward, (&table, &ids), Ok::<Tensor, ModelError>(out)),
    ensures
        tensor_dims(out) == seq![tensor_dims(ids)[0], table.hidden_size as nat],
        matrix_cell(array(out), t, c) == matrix_cell(
            array(table.weight),
            listed(array(ids), t),
            c,
        ),
{
    let (a, i, o) = (array(table.weight), array(ids), array(out));
    assert(a.dims == tensor_dims(table.weight) && i.dims == tensor_dims(ids));
    assert(o.dims =~= seq![i.dims[0], table.hidden_size as nat]);
    assert(o.dims == tensor_dims(out));
    assert(in_bounds(seq![t, c], o.dims));
    assert(seq![t, c].update(0, listed(i, t)) =~= seq![listed(i, t), c]);
}

/// The rows that are picked of a table are those that the numbers name.
pub proof fn law_numbers_name_the_rows_that_are_picked(
    table: Tensor,
    ids: Tensor,
    out: Tensor,
    t: nat,
    c: nat,
)
    requires
        tensor_dims(table).len() == 2,
        tensor_dtype(ids) is U32,
        ids_below(array(ids), tensor_dims(table)[0]),
        t < tensor_dims(ids)[0],
        c < tensor_dims(table)[1],
        call_ensures(pick, (&table, &ids), Ok::<Tensor, ModelError>(out)),
    ensures
        tensor_dims(out) == seq![tensor_dims(ids)[0], tensor_dims(table)[1]],
        matrix_cell(array(out), t, c) == matrix_cell(array(table), listed(array(ids), t), c),
{
    let (a, i, o) = (array(table), array(ids), array(out));
    assert(a.dims == tensor_dims(table) && i.dims == tensor_dims(ids));
    assert(o.dims =~= seq![i.dims[0], a.dims[1]]);
    assert(o.dims == tensor_dims(out));
    assert(in_bounds(seq![t, c], o.dims));
    assert(seq![t, c].update(0, listed(i, t)) =~= seq![listed(i, t), c]);
}

/// A tensor made of a list holds its numbers in order, and a list of another length is refused.
pub proof fn law_lists_are_held_in_order(
    data: Vec<u32>,
    len: usize,
    device: Device,
    r: Result<Tensor, ModelError>,
    t: nat,
)
    requires
        call_ensures(vector_of, (data, len, &device), r),
        t < len,
    ensures
        r matches Ok(o) ==> {
            &&& tensor_dims(o) == seq![data@.len()]
            &&& listed(array(o), t) == data@[t as int]
        },
        data@.len() != len ==> r == Err::<Tensor, ModelError>(
            ModelError::ListLength { got: data@.len() as usize, expected: len },
        ),
{
    if r is Ok {
        assert(in_bounds(seq![t], seq![data@.len()]));
    }
}

/// A column that is laid out over a width has the same number all along a row.
pub proof fn law_widened_columns_are_constant_along_rows(
    column: Tensor,
    width: usize,
    out: Tensor,
    i: nat,
    j: nat,
)
    requires
        tensor_dims(column).len() == 2,
        tensor_dims(column)[1] == 1,
        tensor_dims(column)[0] * width <= usize::MAX,
        width > 0,
        i < tensor_dims(column)[0],
        j < width,
        call_ensures(widen, (&column, width), Ok::<Tensor, ModelError>(out)),
    ensures
        tensor_dims(out) == seq![tensor_dims(column)[0], width as nat],
        matrix_cell(array(out), i, j) == matrix_cell(array(column), i, 0),
{
    let (a, o) = (array(column), array(out));
    let n = a.dims[0];
    assert(a.dims == tensor_dims(column));
    assert(a.dims =~= seq![n, 1nat]);
    assert(o.dims =~= seq![n, width as nat]);
    assert(n * 1 <= n * width) by (nonlinear_arith)
        requires
            width > 0,
    ;
    lemma_count_two(a.dims);
    lemma_count_two(o.dims);
    assert(in_bounds(seq![i, j], o.dims));
    assert(seq![i, j].update(1, 0) =~= seq![i, 0nat]);
}

/// The halves of a tensor, put one behind the other, are the tensor again, the first one first.
pub proof fn law_halves_are_in_order(a: Tensor, b: Tensor, x: Tensor, first: Tensor, second: Tensor)
    requires
        are_halves(array(a), array(b)),
        array(x) == join(array(a), array(b), tensor_dims(a).len() - 1),
        call_ensures(halves, (&x,), Ok::<(Tensor, Tensor), ModelError>((first, second))),
    ensures
        array(first) == array(a),
        array(second) == array(b),
{
    let (p, q) = (array(a), array(b));
    let last = p.dims.len() - 1;
    let size = p.dims.last();
    assert(joinable(p, q, last));
    law_narrowing_undoes_joining(p, q, last);
    assert(array(x).dims.last() == size + size);
    assert(chunk_len(2 * size, 2, 0) == size);
    assert(chunk_len(2 * size, 2, 1) == size);
    assert(chunk_start(2 * size, 2, 0) == 0);
    assert(chunk_start(2 * size, 2, 1) == size);
}

/// Integers are refused where there are any.
pub proof fn law_integers_are_no_states(t: Tensor, r: Result<(), ModelError>)
    requires
        call_ensures(expect_float, (&t,), r),
    ensures
        tensor_dtype(t) is F16 || tensor_dtype(t) is BF16 || tensor_dtype(t) is F32
            || tensor_dtype(t) is F64 ==> r is Ok,
        (tensor_dtype(t) is U8 || tensor_dtype(t) is U32 || tensor_dtype(t) is I64) && count(
            tensor_dims(t),
        ) > 0 ==> r == Err::<(), ModelError>(ModelError::IntegerStates),
{
}

/// States that do not have three dimensions, that are not as wide as the latents, that are of no
/// tokens, or that no latents attend to, are refused for the first of these reasons.
pub proof fn law_states_are_refused_for_the_first_reason(
    model: LatentAttentionModel,
    states: Tensor,
    mask: Option<Tensor>,
    r: Result<Tensor, ModelError>,
)
    requires
        call_ensures(
            LatentAttentionModel::forward,
            (
                &model,
                &states,
                match mask {
                    Some(m) => Some(&m),
                    None => None,
                },
            ),
            r,
        ),
    ensures
        tensor_dims(states).len() != 3 ==> (r matches Err(ModelError::HiddenStatesRank { dims })
            && sizes(dims@) == tensor_dims(states)),
        tensor_dims(states).len() == 3 && tensor_dims(states)[2] != tensor_dims(model.latents)[1]
            ==> (r matches Err(ModelError::HiddenSize { got, expected }) && got == tensor_dims(
            states,
        )[2] && expected == tensor_dims(model.latents)[1]),
        tensor_dims(states).len() == 3 && tensor_dims(states)[2] == tensor_dims(model.latents)[1]
            && (tensor_dims(states)[0] == 0 || tensor_dims(states)[1] == 0) ==> (r matches Err(
            ModelError::EmptyStates { dims },
        ) && sizes(dims@) == tensor_dims(states)),
        tensor_dims(states).len() == 3 && tensor_dims(states)[2] == tensor_dims(model.latents)[1]
            && tensor_dims(states)[0] > 0 && tensor_dims(states)[1] > 0 && tensor_dims(
            model.latents,
        )[0] == 0 ==> (r matches Err(ModelError::EmptyStates { dims }) && sizes(dims@)
            == tensor_dims(model.latents)),
        tensor_dims(states).len() == 3 && tensor_dims(states)[2] == tensor_dims(model.latents)[1]
            && (mask matches Some(m) && tensor_dims(m) != seq![
            (tensor_dims(states)[0] * tensor_dims(states)[1]) as nat,
        ]) && tensor_dims(states)[0] * tensor_dims(states)[1] <= usize::MAX ==> r is Err,
{
    if tensor_dims(states).len() == 3 {
        let (b, t) = (tensor_dims(states)[0], tensor_dims(states)[1]);
        assert(b > 0 && t > 0 ==> b <= b * t && t <= b * t) by (nonlinear_arith);
    }
}

/// A mask that does not have one entry per token is refused, and its shape is named.
pub proof fn law_masks_have_one_entry_per_token(
    model: LatentAttentionModel,
    gathered: Tensor,
    mask: Tensor,
    batch: usize,
    tokens: usize,
    r: Result<Tensor, ModelError>,
)
    requires
        batch * tokens <= usize::MAX,
        call_ensures(
            LatentAttentionModel::pool,
            (&model, &gathered, Some(&mask), batch, tokens),
            r,
        ),
    ensures
        tensor_dims(mask) != seq![(batch * tokens) as nat] ==> (r matches Err(
            ModelError::MaskShape { expected, dims },
        ) && expected == batch * tokens && sizes(dims@) == tensor_dims(mask)),
{
}

/// As many heads as there are fit into the width of the states, and they could not be larger.
pub proof fn law_heads_fill_the_width(config: TextConfig, size: usize)
    requires
        config.num_attention_heads > 0,
        call_ensures(TextConfig::attention_head_size, (&config,), size),
    ensures
        size * config.num_attention_heads <= config.hidden_size,
        config.hidden_size < (size + 1) * config.num_attention_heads,
{
    let (h, n) = (config.hidden_size as int, config.num_attention_heads as int);
    vstd::arithmetic::div_mod::lemma_fundamental_div_mod(h, n);
    vstd::arithmetic::div_mod::lemma_mod_bound(h, n);
    assert(size == h / n);
    assert(size * n == n * (h / n)) by (nonlinear_arith)
        requires
            size == h / n,
    ;
    assert((size + 1) * n == size * n + n) by (nonlinear_arith);
}

/// The sizes of a language model fit where the rows of its fused weights can be counted, and there
/// is a head.
pub proof fn law_sizes_of_the_language_model_fit(config: TextConfig, size: int, r: bool)
    requires
        call_ensures(TextConfig::has_fitting_sizes, (&config,), r),
        config.num_attention_heads > 0 ==> size == config.hidden_size / config.num_attention_heads,
    ensures
        r <==> {
            &&& config.num_attention_heads > 0
            &&& size <= i64::MAX
            &&& config.num_attention_heads + 2 * config.num_key_value_heads <= usize::MAX
            &&& config.hidden_size + 2 * (config.num_key_value_heads * size) <= usize::MAX
            &&& 2 * config.intermediate_size <= usize::MAX
        },
{
}

/// The sizes of a latent attention fit where the rows of its weights can be counted, and there is a
/// head.
pub proof fn law_sizes_of_the_latent_attention_fit(
    config: LatentAttentionConfig,
    size: int,
    r: bool,
)
    requires
        call_ensures(LatentAttentionConfig::has_fitting_sizes, (&config,), r),
        config.num_cross_heads > 0 ==> size == config.cross_dim_head / config.num_cross_heads,
    ensures
        r <==> {
            &&& config.num_cross_heads > 0
            &&& size <= i64::MAX
            &&& 2 * (size * config.num_cross_heads) <= usize::MAX
            &&& 8 * config.latent_dim <= usize::MAX
        },
{
}

/// The weights of a language model have cells where none of its sizes is zero.
pub proof fn law_weights_of_the_language_model_have_cells(config: TextConfig, r: bool)
    requires
        config.num_attention_heads > 0,
        call_ensures(TextConfig::has_only_weights_with_cells, (&config,), r),
    ensures
        r <==> {
            &&& config.hidden_size > 0
            &&& config.intermediate_size > 0
            &&& config.vocab_size > 0
            &&& config.num_key_value_heads > 0
            &&& config.num_attention_heads <= config.hidden_size
        },
{
    let (h, n) = (config.hidden_size as int, config.num_attention_heads as int);
    lemma_whole_parts(h, n);
}

/// The weights of a latent attention have cells where none of its sizes is zero.
pub proof fn law_weights_of_the_latent_attention_have_cells(config: LatentAttentionConfig, r: bool)
    requires
        config.num_cross_heads > 0,
        call_ensures(LatentAttentionConfig::has_only_weights_with_cells, (&config,), r),
    ensures
        r <==> {
            &&& config.num_latents_value > 0
            &&& config.latent_dim > 0
            &&& config.hidden_dim > 0
            &&& config.num_cross_heads <= config.cross_dim_head
        },
{
    lemma_whole_parts(config.cross_dim_head as int, config.num_cross_heads as int);
}

proof fn lemma_whole_parts(a: int, n: int)
    requires
        n > 0,
        a >= 0,
    ensures
        a / n > 0 <==> n <= a,
{
    assert(a / n > 0 <==> n <= a) by (nonlinear_arith)
        requires
            n > 0,
            a >= 0,
    ;
}

/// A shape with cells can be counted where their number fits in a machine word.
pub proof fn law_shapes_are_counted(dims: Vec<usize>, r: bool)
    requires
        count(sizes(dims@)) > 0,
        call_ensures(is_countable, (&dims,), r),
    ensures
        r <==> count(sizes(dims@)) <= usize::MAX,
{
    lemma_span(sizes(dims@));
}

/// A tensor is taken as a weight where it has the shape that was asked for.
pub proof fn law_weights_have_the_shape_asked_for(
    t: Tensor,
    dims: Vec<usize>,
    r: Result<Tensor, ModelError>,
)
    requires
        call_ensures(expect, (t, &dims), r),
    ensures
        tensor_dims(t) == sizes(dims@) ==> r == Ok::<Tensor, ModelError>(t),
        tensor_dims(t) != sizes(dims@) ==> (r matches Err(ModelError::UnexpectedWeight { dims: d })
            && sizes(d@) == tensor_dims(t)),
{
}

/// A model holds floating-point numbers where neither its tokens nor its latents are integers. Its
/// batches are not padded.
pub proof fn law_model_holds_floats_and_is_not_padded(
    model: FlashNVEmbedModel,
    floats: bool,
    padded: bool,
)
    requires
        call_ensures(FlashNVEmbedModel::holds_floats, (&model,), floats),
        call_ensures(FlashNVEmbedModel::is_padded, (&model,), padded),
    ensures
        !padded,
        tensor_dtype(model.embedding_model.embeddings.weight) is U32 || tensor_dtype(
            model.latent_attention_model.latents,
        ) is U32 ==> !floats,
        tensor_dtype(model.embedding_model.embeddings.weight) is F16 && tensor_dtype(
            model.latent_attention_model.latents,
        ) is F16 ==> floats,
        tensor_dtype(model.embedding_model.embeddings.weight) is F32 && tensor_dtype(
            model.latent_attention_model.latents,
        ) is F32 ==> floats,
{
}

} // verus!
