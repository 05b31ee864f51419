//! The latent attention: learned vectors attend to the states of the language model, and what they
//! gather is pooled into one vector per sequence.
use crate::array::{
    count, countable, double, has_host_matmul, has_host_norm, in_bounds, is_convertible, is_float,
    is_plain, is_repeated, is_view, is_widened, lemma_cells, lemma_count_one, lemma_count_three,
    lemma_count_two, lemma_span, lemma_span_two, padded, repeated, scalar_bits, sizes, times,
    unsqueezed, Array,
};
use crate::config::NVEmbedConfig;
use crate::cross_attention::CrossAttention;
use crate::error::{lift, ModelError};
use crate::feed_forward::FeedForward;
use crate::layers::{is_operation_error, layer_norm_run, number, reshaped, widen, LayerNorm};
use crate::ops::{
    self, affine_gives, mean_gives, norm_fits, normalizable, sum_gives, sum_keepdim_gives,
};
use crate::tensor::{
    add_gives, alike, array, cast_gives, device_is_cpu, div_gives, mul_gives, same_kind, sqr_gives,
    sqrt_gives, tensor_dims, tensor_dtype, tensor_on_host, tensor_packed,
};
use crate::weights::{
    device_of, dims_of, element_type, expect_countable, fails, holds, is_below, step,
    weights_device, weights_dtype, weights_start_inside, Weights,
};
use candle_core::{DType, Device, Tensor};
use vstd::prelude::*;

verus! {

/// The bits of the double one.
pub const ONE: u64 = 0x3ff0_0000_0000_0000;

/// The bits of the double nearest to a billionth, which keeps divisors away from zero.
pub const POOL_EPSILON: u64 = 0x3e11_2e0b_e826_d695;

/// `out` is an outcome of `x` plus the small number that keeps divisors away from zero.
pub open spec fn is_lifted(x: Array, out: Array) -> bool {
    affine_gives(x, ONE, POOL_EPSILON, out)
}

/// The element type in which means and lengths are taken: one in which a billionth is not zero.
pub open spec fn wide_type(d: DType) -> DType {
    if d is F64 {
        DType::F64
    } else {
        DType::F32
    }
}

/// The element type in which means and lengths are taken, for cells of this type.
fn wide_type_of(d: DType) -> (r: DType)
    ensures
        r == wide_type(d),
{
    match d {
        DType::F64 => DType::F64,
        _ => DType::F32,
    }
}

/// `out` is an outcome of the division of every row of `x` by its length plus the small number.
pub open spec fn is_normalized(x: Array, out: Array) -> bool {
    exists|
        wide: Array,
        squares: Array,
        sums: Array,
        lengths: Array,
        safe: Array,
        divisor: Array,
        quotient: Array,
    |
        {
            &&& #[trigger] cast_gives(x, wide_type(x.dtype), wide)
            &&& #[trigger] sqr_gives(wide, squares)
            &&& #[trigger] sum_keepdim_gives(squares, 1, sums)
            &&& #[trigger] sqrt_gives(sums, lengths)
            &&& #[trigger] is_lifted(lengths, safe)
            &&& #[trigger] is_widened(safe, x.dims[1], divisor)
            &&& #[trigger] div_gives(wide, divisor, quotient)
            &&& cast_gives(quotient, x.dtype, out)
            &&& wide.dims == x.dims
            &&& squares.dims == x.dims
            &&& sums.dims == x.dims.update(1, 1)
            &&& lengths.dims == sums.dims
            &&& safe.dims == sums.dims
            &&& quotient.dims == x.dims
            &&& out.dims == x.dims
        }
}

/// `weights` are the weights of the rows that were gathered from sequences of `tokens` tokens. A
/// mask with one entry per row gives the weights itself. Otherwise every row of a sequence weighs
/// as much as the tokens that the mask keeps.
pub open spec fn is_weighted(entries: Array, tokens: nat, rows: nat, weights: Array) -> bool {
    if tokens == rows {
        weights == entries
    } else {
        exists|kept: Array|
            {
                &&& #[trigger] sum_keepdim_gives(entries, 1, kept)
                &&& kept.dims == entries.dims.update(1, 1)
                &&& is_widened(kept, rows, weights)
            }
    }
}

/// `weights` are the weights that a mask with one entry per token gives to the rows of a batch.
pub open spec fn are_weights(
    mask: Array,
    dtype: DType,
    batch: nat,
    tokens: nat,
    rows: nat,
    weights: Array,
) -> bool {
    exists|numbers: Array, entries: Array|
        {
            &&& #[trigger] cast_gives(mask, dtype, numbers)
            &&& #[trigger] is_view(numbers, entries)
            &&& numbers.dims == mask.dims
            &&& entries.dims == seq![batch, tokens]
            &&& is_weighted(entries, tokens, rows, weights)
        }
}

/// `out` is an outcome of the weighted mean over the second dimension: the sum of the rows, each
/// times its weight, divided by the sum of the weights plus the small number.
pub open spec fn is_weighted_mean(x: Array, weights: Array, out: Array) -> bool {
    exists|
        wide: Array,
        spread: Array,
        product: Array,
        sum: Array,
        kept: Array,
        safe: Array,
        divisor: Array,
        mean: Array,
    |
        {
            &&& #[trigger] cast_gives(x, wide_type(x.dtype), wide)
            &&& #[trigger] is_widened(unsqueezed(weights, 2), x.dims[2], spread)
            &&& #[trigger] mul_gives(wide, spread, product)
            &&& #[trigger] sum_gives(product, 1, sum)
            &&& #[trigger] sum_keepdim_gives(weights, 1, kept)
            &&& #[trigger] is_lifted(kept, safe)
            &&& #[trigger] is_widened(safe, x.dims[2], divisor)
            &&& #[trigger] div_gives(sum, divisor, mean)
            &&& cast_gives(mean, x.dtype, out)
            &&& wide.dims == x.dims
            &&& product.dims == x.dims
            &&& sum.dims == x.dims.remove(1)
            &&& kept.dims == weights.dims.update(1, 1)
            &&& safe.dims == kept.dims
            &&& mean.dims == sum.dims
            &&& out.dims == sum.dims
        }
}

/// `out` is an outcome of the mean over the second dimension, under a mask with one entry per
/// token.
pub open spec fn is_masked_mean(
    x: Array,
    mask: Array,
    batch: nat,
    tokens: nat,
    out: Array,
) -> bool {
    exists|weights: Array| #[trigger]
        are_weights(mask, wide_type(x.dtype), batch, tokens, x.dims[1], weights)
            && is_weighted_mean(x, weights, out)
}

/// Every cell plus the small number that keeps divisors away from zero.
fn lift_off_zero(x: &Tensor) -> (r: Result<Tensor, ModelError>)
    requires
        is_float(tensor_dtype(*x)),
    ensures
        r matches Ok(o) ==> is_lifted(array(*x), array(o)) && alike(o, *x),
        r matches Err(e) ==> e is Candle,
        tensor_on_host(*x) && is_plain(tensor_dtype(*x)) ==> r is Ok,
{
    let one: Tensor = number(ONE)?;
    let epsilon: Tensor = number(POOL_EPSILON)?;
    lift(ops::affine(x, &one, &epsilon))
}

/// A column laid out over rows of this width stays within what a machine word can count.
proof fn lemma_rows_count(rows: nat, width: nat)
    requires
        rows > 0,
        width > 0,
        rows * width <= usize::MAX,
    ensures
        count(seq![rows, 1nat]) == rows,
        rows <= usize::MAX,
        count(seq![rows, width]) == rows * width,
{
    lemma_count_two(seq![rows, 1nat]);
    lemma_count_two(seq![rows, width]);
    assert(rows <= rows * width) by (nonlinear_arith)
        requires
            width > 0,
    ;
}

/// Rows in host memory that can be divided by their lengths.
pub open spec fn can_normalize(x: Tensor) -> bool {
    let dims = tensor_dims(x);
    &&& tensor_on_host(x)
    &&& is_convertible(tensor_dtype(x))
    &&& dims.len() == 2
    &&& dims[0] > 0
    &&& dims[1] > 0
    &&& dims[0] * dims[1] <= usize::MAX
}

/// Every row divided by its length plus the small number.
pub fn normalize(x: &Tensor) -> (r: Result<Tensor, ModelError>)
    requires
        tensor_dims(*x).len() == 2,
        tensor_dims(*x)[0] > 0,
        tensor_dims(*x)[1] > 0,
    ensures
        r matches Ok(o) ==> {
            &&& is_normalized(array(*x), array(o))
            &&& alike(o, *x)
            &&& tensor_packed(*x) ==> tensor_packed(o)
        },
        r matches Err(e) ==> is_operation_error(e),
        can_normalize(*x) ==> r is Ok,
{
    let ghost dims = tensor_dims(*x);
    proof {
        lemma_cells(dims);
        lemma_cells(seq![dims[0], 1nat]);
    }
    let wide: Tensor = lift(x.to_dtype(wide_type_of(x.dtype())))?;
    let squares: Tensor = lift(wide.sqr())?;
    let sums: Tensor = lift(ops::sum_keepdim(&squares, 1))?;
    let lengths: Tensor = lift(sums.sqrt())?;
    let safe: Tensor = lift_off_zero(&lengths)?;
    let width: usize = lift(ops::dim(x, 1))?;
    proof {
        assert(tensor_dims(safe) =~= seq![dims[0], 1nat]);
        assert(tensor_dims(safe).update(1, width as nat) =~= dims);
        if can_normalize(*x) {
            lemma_rows_count(dims[0], dims[1]);
            assert(dims =~= seq![dims[0], dims[1]]);
        }
    }
    let divisor: Tensor = widen(&safe, width)?;
    let quotient: Tensor = lift(wide.div(&divisor))?;
    let o: Tensor = lift(quotient.to_dtype(x.dtype()))?;
    proof {
        let a = array(*x);
        assert(sum_keepdim_gives(array(squares), 1, array(sums)));
        assert(cast_gives(a, wide_type(a.dtype), array(wide)));
        assert(is_widened(array(safe), a.dims[1], array(divisor)));
        assert(cast_gives(array(quotient), a.dtype, array(o)));
    }
    Ok(o)
}

/// A mask in host memory from which the weights of this many rows per sequence can be taken.
pub open spec fn can_weigh_rows(mask: Tensor, batch: nat, tokens: nat, rows: nat) -> bool {
    &&& tensor_on_host(mask)
    &&& is_convertible(tensor_dtype(mask))
    &&& batch * rows <= usize::MAX
}

/// The weights that a mask with one entry per token gives to the rows of a batch.
pub fn weigh_rows(mask: &Tensor, kind: DType, batch: usize, tokens: usize, rows: usize) -> (r:
    Result<Tensor, ModelError>)
    requires
        kind is F32 || kind is F64,
        batch > 0,
        tokens > 0,
        rows > 0,
        batch * tokens <= usize::MAX,
        tensor_dims(*mask) == seq![(batch * tokens) as nat],
    ensures
        r matches Ok(o) ==> {
            &&& are_weights(
                array(*mask),
                kind,
                batch as nat,
                tokens as nat,
                rows as nat,
                array(o),
            )
            &&& tensor_dims(o).len() == 2
            &&& tensor_dims(o)[0] == batch
            &&& tensor_dims(o)[1] == rows
            &&& tensor_dtype(o) == kind
            &&& tensor_on_host(o) == tensor_on_host(*mask)
        },
        r matches Err(e) ==> is_operation_error(e),
        can_weigh_rows(*mask, batch as nat, tokens as nat, rows as nat) ==> r is Ok,
{
    let dims: Vec<usize> = vec![batch, tokens];
    proof {
        assert(sizes(dims@) =~= seq![batch as nat, tokens as nat]);
        lemma_span_two(batch as nat, tokens as nat);
        lemma_count_one((batch * tokens) as nat);
        lemma_cells(sizes(dims@));
        lemma_cells(seq![batch as nat, 1nat]);
    }
    let numbers: Tensor = lift(mask.to_dtype(kind))?;
    let entries: Tensor = reshaped(&numbers, &dims)?;
    if tokens == rows {
        return Ok(entries);
    }
    let kept: Tensor = lift(ops::sum_keepdim(&entries, 1))?;
    proof {
        assert(tensor_dims(kept) =~= seq![batch as nat, 1nat]);
        assert(tensor_dims(kept).update(1, rows as nat) =~= seq![batch as nat, rows as nat]);
        if can_weigh_rows(*mask, batch as nat, tokens as nat, rows as nat) {
            lemma_rows_count(batch as nat, rows as nat);
        }
    }
    widen(&kept, rows)
}

/// Rows and weights in host memory of which the weighted mean can be taken.
pub open spec fn can_average(x: Tensor, weights: Tensor) -> bool {
    let dims = tensor_dims(x);
    &&& tensor_on_host(x)
    &&& tensor_on_host(weights)
    &&& is_convertible(tensor_dtype(x))
    &&& tensor_dims(weights) == seq![dims[0], dims[1]]
    &&& dims[0] * dims[1] * dims[2] <= usize::MAX
}

/// The weighted mean over the second dimension.
pub fn weighted_mean(x: &Tensor, weights: &Tensor) -> (r: Result<Tensor, ModelError>)
    requires
        tensor_dims(*x).len() == 3,
        tensor_dims(*x)[0] > 0,
        tensor_dims(*x)[1] > 0,
        tensor_dims(*x)[2] > 0,
        tensor_dims(*weights).len() == 2,
        tensor_dims(*weights)[0] > 0,
        tensor_dims(*weights)[1] > 0,
        tensor_dtype(*weights) == wide_type(tensor_dtype(*x)),
    ensures
        r matches Ok(o) ==> {
            &&& is_weighted_mean(array(*x), array(*weights), array(o))
            &&& tensor_dims(*weights) == seq![tensor_dims(*x)[0], tensor_dims(*x)[1]]
            &&& tensor_dims(o) == seq![tensor_dims(*x)[0], tensor_dims(*x)[2]]
            &&& same_kind(o, *x)
            &&& tensor_packed(o)
        },
        r matches Err(e) ==> is_operation_error(e),
        can_average(*x, *weights) ==> r is Ok,
{
    let ghost dims = tensor_dims(*x);
    let ghost lines = tensor_dims(*weights);
    proof {
        lemma_cells(dims);
        lemma_cells(lines);
        lemma_cells(seq![lines[0], lines[1], 1nat]);
        lemma_cells(seq![lines[0], 1nat]);
    }
    let wide: Tensor = lift(x.to_dtype(wide_type_of(x.dtype())))?;
    let width: usize = lift(ops::dim(x, 2))?;
    let column: Tensor = lift(ops::unsqueeze(weights, 2))?;
    proof {
        assert(tensor_dims(column) == array(column).dims);
        assert(tensor_dims(column) =~= seq![lines[0], lines[1], 1nat]);
        assert(tensor_dims(column).update(2, width as nat) =~= seq![lines[0], lines[1], dims[2]]);
        assert(tensor_dtype(column) == array(column).dtype);
        if can_average(*x, *weights) {
            lemma_mean_counts(dims);
            assert(dims =~= seq![dims[0], dims[1], dims[2]]);
        }
    }
    let spread: Tensor = widen(&column, width)?;
    let product: Tensor = lift(wide.mul(&spread))?;
    proof {
        assert(dims =~= seq![lines[0], lines[1], dims[2]]);
        assert(lines =~= seq![dims[0], dims[1]]);
    }
    let sum: Tensor = lift(ops::sum(&product, 1))?;
    let kept: Tensor = lift(ops::sum_keepdim(weights, 1))?;
    let safe: Tensor = lift_off_zero(&kept)?;
    proof {
        assert(tensor_dims(sum) =~= seq![dims[0], dims[2]]);
        assert(tensor_dims(safe) =~= seq![dims[0], 1nat]);
        assert(tensor_dims(safe).update(1, width as nat) =~= seq![dims[0], dims[2]]);
    }
    let divisor: Tensor = widen(&safe, width)?;
    let mean: Tensor = lift(sum.div(&divisor))?;
    proof {
        lemma_cells(seq![dims[0], dims[2]]);
    }
    let o: Tensor = lift(mean.to_dtype(x.dtype()))?;
    proof {
        let (a, w) = (array(*x), array(*weights));
        assert(cast_gives(a, wide_type(a.dtype), array(wide)));
        assert(is_widened(unsqueezed(w, 2), a.dims[2], array(spread)));
        assert(sum_gives(array(product), 1, array(sum)));
        assert(sum_keepdim_gives(w, 1, array(kept)));
        assert(is_widened(array(safe), a.dims[2], array(divisor)));
        assert(cast_gives(array(mean), a.dtype, array(o)));
    }
    Ok(o)
}

proof fn lemma_mean_counts(dims: Seq<nat>)
    requires
        dims.len() == 3,
        dims[0] > 0,
        dims[1] > 0,
        dims[2] > 0,
        dims[0] * dims[1] * dims[2] <= usize::MAX,
    ensures
        count(seq![dims[0], dims[1], 1nat]) > 0,
        countable(seq![dims[0], dims[1], 1nat]),
        countable(seq![dims[0], dims[1], dims[2]]),
        count(seq![dims[0], 1nat]) > 0,
        countable(seq![dims[0], 1nat]),
        countable(seq![dims[0], dims[2]]),
        dims[0] * dims[2] <= usize::MAX,
        dims[0] * dims[1] <= usize::MAX,
{
    let (b, l, d) = (dims[0], dims[1], dims[2]);
    lemma_count_three(seq![b, l, 1nat]);
    lemma_count_three(seq![b, l, d]);
    assert(b * l <= b * l * d && b * l > 0) by (nonlinear_arith)
        requires
            b > 0,
            l > 0,
            d > 0,
    ;
    assert(b * d <= b * l * d) by (nonlinear_arith)
        requires
            l > 0,
    ;
    lemma_rows_count(b, d);
}

/// Norms for the states and, where there is one, for the context, taken before a layer.
pub struct PreNorm {
    pub norm: LayerNorm,
    pub context_norm: Option<LayerNorm>,
}

/// A norm with which the norm of `x` in host memory succeeds.
pub open spec fn layer_norm_fits(norm: LayerNorm, x: Tensor) -> bool {
    norm_fits(norm.weight, norm.epsilon, x) && norm_fits(norm.bias, norm.epsilon, x)
}

/// The value of an optional reference to a tensor.
pub open spec fn array_ref(t: Option<&Tensor>) -> Option<Array> {
    match t {
        Some(t) => Some(array(*t)),
        None => None,
    }
}

impl PreNorm {
    /// New norms over rows of these sizes, which scale by one and shift by zero.
    pub fn new(dim: usize, context_dim: Option<usize>, dtype: DType, device: &Device) -> (r: Result<
        Self,
        ModelError,
    >)
        requires
            is_plain(dtype),
        ensures
            r matches Ok(norms) ==> {
                &&& norms.norm.is_plain_norm(dim as nat, dtype)
                &&& norms.context_norm is Some <==> context_dim is Some
                &&& norms.context_norm matches Some(n) ==> n.is_plain_norm(
                    context_dim->Some_0 as nat,
                    dtype,
                )
            },
            r matches Err(e) ==> e is Candle,
            device_is_cpu(*device) ==> r is Ok,
    {
        let norm: LayerNorm = LayerNorm::new(dim, dtype, device)?;
        let context_norm: Option<LayerNorm> = match context_dim {
            Some(size) => Some(LayerNorm::new(size, dtype, device)?),
            None => None,
        };
        Ok(PreNorm { norm, context_norm })
    }

    /// `normed` and `normed_context` are an outcome of the norms on `x` and the context. Without a
    /// norm for it, the context stays as it is.
    pub open spec fn runs(
        self,
        x: Array,
        context: Option<Array>,
        normed: Array,
        normed_context: Option<Array>,
    ) -> bool {
        &&& layer_norm_run(self.norm, x, normed)
        &&& match context {
            None => normed_context is None,
            Some(c) => match self.context_norm {
                None => normed_context == Some(c),
                Some(n) => normed_context is Some && layer_norm_run(n, c, normed_context->Some_0),
            },
        }
    }

    /// The norms of `x` and of the context.
    pub fn forward(&self, x: &Tensor, context: Option<&Tensor>) -> (r: Result<
        (Tensor, Option<Tensor>),
        ModelError,
    >)
        requires
            normalizable(*x),
            context matches Some(c) ==> self.context_norm is Some ==> normalizable(*c),
        ensures
            r matches Ok((normed, normed_context)) ==> {
                &&& self.runs(
                    array(*x),
                    array_ref(context),
                    array(normed),
                    (match normed_context {
                        Some(c) => Some(array(c)),
                        None => None,
                    }),
                )
                &&& same_kind(normed, *x)
                &&& self.norm.norms(tensor_dims(*x).last()) ==> tensor_dims(normed) == tensor_dims(
                    *x,
                )
                &&& normed_context is Some <==> context is Some
                &&& context matches Some(c) ==> {
                    let n = normed_context->Some_0;
                    &&& same_kind(n, *c)
                    &&& match self.context_norm {
                        None => tensor_dims(n) == tensor_dims(*c),
                        Some(norm) => {
                            &&& norm.is_vector() ==> tensor_dims(n).len() == tensor_dims(*c).len()
                                && tensor_dims(n).drop_last() == tensor_dims(*c).drop_last()
                            &&& norm.norms(tensor_dims(*c).last()) ==> tensor_dims(n)
                                == tensor_dims(*c)
                        },
                    }
                }
            },
            r matches Err(e) ==> e is Candle,
            layer_norm_fits(self.norm, *x) && (context matches Some(c)
                ==> self.context_norm matches Some(n)
                ==> layer_norm_fits(n, *c)) ==> r is Ok,
    {
        let normed: Tensor = self.norm.forward(x)?;
        let normed_context: Option<Tensor> = match context {
            Some(c) => match &self.context_norm {
                Some(norm) => Some(norm.forward(c)?),
                None => Some(c.clone()),
            },
            None => None,
        };
        Ok((normed, normed_context))
    }
}

/// `mean` is an outcome of the mean of what was gathered, under the mask if there is one.
pub open spec fn is_mean(
    gathered: Array,
    mask: Option<Array>,
    batch: nat,
    tokens: nat,
    mean: Array,
) -> bool {
    match mask {
        Some(m) => is_masked_mean(gathered, m, batch, tokens, mean),
        None => mean_gives(gathered, 1, mean),
    }
}

/// Learned vectors, the attention they pay, and the layer behind it.
pub struct LatentAttentionModel {
    pub cross_attend_norm: PreNorm,
    pub cross_attention: CrossAttention,
    pub ff_norm: PreNorm,
    pub feed_forward: FeedForward,
    pub latents: Tensor,
    pub output_normalize: bool,
}

/// How often the learned vectors are laid out for a batch of this size.
pub open spec fn copies(batch: nat) -> nat {
    if batch > 1 {
        batch
    } else {
        1
    }
}

/// The counts with which the learned vectors are laid out once per sequence.
pub open spec fn per_sequence(batch: usize) -> Seq<usize> {
    seq![batch, 1usize, 1usize]
}

/// A batch of sequences without tokens.
pub open spec fn has_no_tokens(states: Tensor) -> bool {
    tensor_dims(states)[0] == 0 || tensor_dims(states)[1] == 0
}

impl LatentAttentionModel {
    /// The weights have shapes and element types that belong together.
    pub open spec fn is_sized(self) -> bool {
        let dims = tensor_dims(self.latents);
        &&& dims.len() == 2
        &&& dims[1] > 0
        &&& is_float(tensor_dtype(self.latents))
        &&& self.cross_attention.heads > 0
        &&& self.cross_attend_norm.norm.norms(dims[1])
        &&& self.cross_attend_norm.context_norm matches Some(norm) ==> norm.is_vector()
        &&& self.ff_norm.norm.norms(dims[1])
    }

    /// The model that is stored at this place.
    pub open spec fn is_stored(self, vb: Weights, config: NVEmbedConfig) -> bool {
        let la = config.latent_attention_config;
        let latent_dim = la.latent_dim as nat;
        let hidden_dim = la.hidden_dim as nat;
        &&& holds(
            vb,
            seq![],
            "latents"@,
            seq![la.num_latents_value as nat, latent_dim],
            array(self.latents),
        )
        &&& self.cross_attend_norm.norm.is_plain_norm(latent_dim, weights_dtype(vb))
        &&& self.cross_attend_norm.context_norm matches Some(norm) && norm.is_plain_norm(
            hidden_dim,
            weights_dtype(vb),
        )
        &&& self.ff_norm.norm.is_plain_norm(latent_dim, weights_dtype(vb))
        &&& self.ff_norm.context_norm is None
        &&& self.output_normalize == la.output_normalize
        &&& exists|place: Weights| #[trigger]
            is_below(vb, "cross_attend_blocks.0.fn"@, place) && self.cross_attention.is_stored(
                place,
                latent_dim,
                hidden_dim,
                la.num_cross_heads as nat,
                la.head_size(),
            )
        &&& exists|place: Weights| #[trigger]
            is_below(vb, "cross_attend_blocks.1.fn"@, place) && self.feed_forward.is_stored(
                place,
                latent_dim,
                4,
            )
    }

    /// `latents` are the learned vectors that are stored at this place.
    pub open spec fn holds_latents(vb: Weights, config: NVEmbedConfig, latents: Array) -> bool {
        let la = config.latent_attention_config;
        let dims = seq![la.num_latents_value as nat, la.latent_dim as nat];
        holds(vb, seq![], "latents"@, dims, latents)
    }

    /// `e` is the error of the first part that was not read from this place: the latents, the
    /// attention, the feed-forward part. In host memory the norms are always made.
    pub open spec fn is_refused(vb: Weights, config: NVEmbedConfig, e: ModelError) -> bool {
        let la = config.latent_attention_config;
        let (latent_dim, hidden_dim) = (la.latent_dim as nat, la.hidden_dim as nat);
        let (heads, size) = (la.num_cross_heads as nat, la.head_size());
        let dims = seq![la.num_latents_value as nat, latent_dim];
        let has_latents = exists|latents: Array| #[trigger]
            Self::holds_latents(vb, config, latents);
        ||| fails(vb, seq![], "latents"@, dims, e)
        ||| has_latents && e is Candle && !device_is_cpu(weights_device(vb))
        ||| has_latents && exists|cross: Weights, ff: Weights|
            {
                &&& #[trigger] is_below(vb, "cross_attend_blocks.0.fn"@, cross)
                &&& #[trigger] is_below(vb, "cross_attend_blocks.1.fn"@, ff)
                &&& {
                    ||| CrossAttention::is_refused(cross, latent_dim, hidden_dim, heads, size, e)
                    ||| CrossAttention::is_there(cross, latent_dim, hidden_dim, heads, size)
                        && FeedForward::is_refused(ff, latent_dim, 4, e)
                }
            }
    }

    /// Reads the model from this place.
    pub fn load(vb: &Weights, config: &NVEmbedConfig) -> (r: Result<Self, ModelError>)
        requires
            config.latent_attention_config.is_sized(),
            config.latent_attention_config.has_cells() || weights_start_inside(*vb),
            is_plain(weights_dtype(*vb)),
        ensures
            r matches Ok(model) ==> {
                &&& model.is_stored(*vb, *config)
                &&& config.latent_attention_config.latent_dim > 0 && is_float(
                    tensor_dtype(model.latents),
                ) ==> model.is_sized()
            },
            r matches Err(e) ==> Self::is_refused(*vb, *config, e),
    {
        let la = &config.latent_attention_config;
        let latent_dim: usize = la.latent_dim;
        let hidden_dim: usize = la.hidden_dim;
        let cross_heads: usize = la.num_cross_heads;
        let cross_dim_head: usize = la.cross_dim_head / cross_heads;
        let dims: Vec<usize> = vec![la.num_latents_value, latent_dim];
        proof {
            assert(sizes(dims@) =~= seq![la.num_latents_value as nat, latent_dim as nat]);
            lemma_cells(sizes(dims@));
        }
        let latents: Tensor = vb.tensor(&dims, "latents")?;
        assert(Self::holds_latents(*vb, *config, array(latents)));
        let kind: DType = element_type(vb);
        let home: Device = device_of(vb);
        let cross_attend_norm: PreNorm = PreNorm::new(latent_dim, Some(hidden_dim), kind, &home)?;
        let cross_place: Weights = step(vb, "cross_attend_blocks.0.fn");
        let ff_place: Weights = step(vb, "cross_attend_blocks.1.fn");
        let cross_attention: CrossAttention = CrossAttention::load(
            &cross_place,
            latent_dim,
            hidden_dim,
            cross_heads,
            cross_dim_head,
        )?;
        let ff_norm: PreNorm = PreNorm::new(latent_dim, None, kind, &home)?;
        let feed_forward: FeedForward = FeedForward::load(&ff_place, latent_dim, 4)?;
        Ok(
            LatentAttentionModel {
                cross_attend_norm,
                cross_attention,
                ff_norm,
                feed_forward,
                latents,
                output_normalize: la.output_normalize,
            },
        )
    }

    /// The steps from these states to what the latents gather: the latents, laid out once per
    /// sequence, attend to the states and pass through the feed-forward part, with a residual
    /// around each.
    pub open spec fn gathering_steps(
        self,
        states: Array,
        x: Array,
        normed: Array,
        context: Option<Array>,
        cross: Array,
        sum: Array,
        normed_again: Array,
        ff: Array,
        out: Array,
    ) -> bool {
        &&& is_repeated(array(self.latents), per_sequence(states.dims[0] as usize), x)
        &&& self.cross_attend_norm.runs(x, Some(states), normed, context)
        &&& context is Some
        &&& self.cross_attention.attends(normed, context->Some_0, cross)
        &&& add_gives(x, cross, sum)
        &&& self.ff_norm.runs(sum, None, normed_again, None)
        &&& self.feed_forward.runs(normed_again, ff)
        &&& add_gives(sum, ff, out)
        &&& x.dims == self.gathered_dims(states.dims[0])
        &&& cross.dims == x.dims
        &&& sum.dims == x.dims
        &&& ff.dims == x.dims
        &&& out.dims == x.dims
    }

    /// `out` is an outcome of the two layers on these states.
    pub open spec fn gathers(self, states: Array, out: Array) -> bool {
        exists|
            x: Array,
            normed: Array,
            context: Option<Array>,
            cross: Array,
            sum: Array,
            normed_again: Array,
            ff: Array,
        | #[trigger]
            self.gathering_steps(states, x, normed, context, cross, sum, normed_again, ff, out)
    }

    /// `out` is an outcome of pooling what was gathered from sequences of this many tokens.
    pub open spec fn pools(
        self,
        gathered: Array,
        mask: Option<Array>,
        batch: nat,
        tokens: nat,
        out: Array,
    ) -> bool {
        let dims = seq![gathered.dims[0], gathered.dims[2]];
        &&& out.dims == dims
        &&& if self.output_normalize {
            exists|mean: Array|
                {
                    &&& #[trigger] is_mean(gathered, mask, batch, tokens, mean)
                    &&& mean.dims == dims
                    &&& is_normalized(mean, out)
                }
        } else {
            is_mean(gathered, mask, batch, tokens, out)
        }
    }

    /// States that the layers take: as wide as the latents, and not more than a machine word can
    /// count the latents of. Candle norms integers only where they are packed.
    pub open spec fn takes(self, states: Tensor) -> bool {
        let dims = tensor_dims(states);
        &&& dims.len() == 3
        &&& dims[2] == tensor_dims(self.latents)[1]
        &&& is_float(tensor_dtype(states)) || tensor_packed(states)
        &&& dims[0] > 1 ==> dims[0] * tensor_dims(self.latents)[0] <= usize::MAX
    }

    /// There are no tokens, or no latents.
    pub open spec fn has_nothing(self, states: Tensor) -> bool {
        has_no_tokens(states) || tensor_dims(self.latents)[0] == 0
    }

    /// `e` names the shape of the states where there are no tokens, else that of the latents.
    pub open spec fn is_nothing_error(self, states: Tensor, e: ModelError) -> bool {
        e matches ModelError::EmptyStates { dims } && sizes(dims@) == (if has_no_tokens(states) {
            tensor_dims(states)
        } else {
            tensor_dims(self.latents)
        })
    }

    /// The shape of what is gathered from a batch of this size.
    pub open spec fn gathered_dims(self, batch: nat) -> Seq<nat> {
        seq![copies(batch), tensor_dims(self.latents)[0], tensor_dims(self.latents)[1]]
    }

    /// The errors of the layers: those of operations on tensors, and a projection that has no two
    /// halves.
    pub open spec fn is_layer_error(self, e: ModelError) -> bool {
        ||| is_operation_error(e)
        ||| e matches ModelError::NotTwoChunks { got } && got < 2 && (got
            == self.cross_attention.to_kv.outputs() || got == self.feed_forward.net_w1.outputs())
    }

    /// A tensor like the laid-out latents of a batch of this size.
    pub open spec fn is_like_laid_out(self, batch: nat, x: Tensor) -> bool {
        tensor_dims(x) == self.gathered_dims(batch) && same_kind(x, self.latents)
    }

    /// The states from which the latents in host memory can gather.
    pub open spec fn fits(self, states: Tensor) -> bool {
        let batch = tensor_dims(states)[0];
        let norm = self.cross_attend_norm.context_norm;
        &&& self.is_sized()
        &&& self.takes(states)
        &&& batch > 0
        &&& tensor_dims(states)[1] > 0
        &&& tensor_dims(self.latents)[0] > 0
        &&& countable(tensor_dims(self.latents))
        &&& countable(self.gathered_dims(batch))
        &&& tensor_on_host(self.latents)
        &&& is_plain(tensor_dtype(self.latents))
        &&& norm matches Some(n) ==> layer_norm_fits(n, states) && n.norms(tensor_dims(states)[2])
        &&& same_kind(states, self.latents)
        &&& self.cross_attention.to_out.outputs() == tensor_dims(self.latents)[1]
        &&& self.feed_forward.net_w2.outputs() == tensor_dims(self.latents)[1]
        &&& forall|x: Tensor|
            self.is_like_laid_out(batch, x) && tensor_packed(x) ==> #[trigger] layer_norm_fits(
                self.cross_attend_norm.norm,
                x,
            )
        &&& forall|x: Tensor|
            self.is_like_laid_out(batch, x) && tensor_packed(x) ==> #[trigger] layer_norm_fits(
                self.ff_norm.norm,
                x,
            )
        &&& forall|x: Tensor, context: Tensor|
            self.is_like_laid_out(batch, x) && alike(context, states)
                ==> #[trigger] self.cross_attention.fits(x, context)
        &&& forall|x: Tensor|
            self.is_like_laid_out(batch, x) ==> #[trigger] self.feed_forward.fits(x)
    }

    /// What the latents gather from these states.
    pub fn gather(&self, hidden_states: &Tensor) -> (r: Result<Tensor, ModelError>)
        requires
            self.is_sized(),
            self.takes(*hidden_states),
        ensures
            r matches Ok(o) ==> {
                &&& self.gathers(array(*hidden_states), array(o))
                &&& tensor_dims(o) == self.gathered_dims(tensor_dims(*hidden_states)[0])
                &&& same_kind(o, self.latents)
            },
            self.has_nothing(*hidden_states) ==> (r matches Err(e) && self.is_nothing_error(
                *hidden_states,
                e,
            )),
            r matches Err(e) ==> self.is_layer_error(e) || self.has_nothing(*hidden_states),
            self.fits(*hidden_states) ==> r is Ok,
    {
        let ghost fits = self.fits(*hidden_states);
        let state_dims: Vec<usize> = dims_of(hidden_states);
        let latent_dims: Vec<usize> = dims_of(&self.latents);
        let ghost (b, l, d) = (
            state_dims@[0] as nat,
            latent_dims@[0] as nat,
            latent_dims@[1] as nat,
        );
        proof {
            assert(sizes(state_dims@).len() == 3 && sizes(latent_dims@).len() == 2);
            assert(sizes(state_dims@)[0] == b);
            assert(sizes(latent_dims@)[0] == l && sizes(latent_dims@)[1] == d);
        }
        assert(sizes(state_dims@)[1] == state_dims@[1]);
        if state_dims[0] == 0 || state_dims[1] == 0 {
            return Err(ModelError::EmptyStates { dims: state_dims });
        }
        if latent_dims[0] == 0 {
            return Err(ModelError::EmptyStates { dims: latent_dims });
        }
        proof {
            lemma_cells(tensor_dims(self.latents));
            lemma_cells(tensor_dims(*hidden_states));
            lemma_cells(self.gathered_dims(b));
        }
        let reps: Vec<usize> = vec![state_dims[0], 1usize, 1usize];
        proof {
            assert(reps@ =~= per_sequence(state_dims@[0]));
            self.lemma_laid_out_dims(state_dims@[0]);
            if fits {
                lemma_count_three(self.gathered_dims(b));
                assert(copies(b) * l * d > 0) by (nonlinear_arith)
                    requires
                        copies(b) > 0,
                        l > 0,
                        d > 0,
                ;
            }
        }
        let shape: Vec<usize> = vec![state_dims[0], latent_dims[0], latent_dims[1]];
        proof {
            assert(sizes(shape@) =~= self.gathered_dims(b));
            lemma_span(sizes(shape@));
        }
        expect_countable(&shape)?;
        let x: Tensor = lift(ops::repeat(&self.latents, &reps))?;
        proof {
            self.lemma_laid_out(state_dims@[0], x);
        }
        let (normed, context) = self.cross_attend_norm.forward(&x, Some(hidden_states))?;
        let cross: Tensor = match &context {
            Some(c) => {
                proof {
                    let states = tensor_dims(*hidden_states);
                    assert(tensor_dims(*c).drop_last()[1] == states.drop_last()[1]);
                    let kv = tensor_dims(*c).drop_last().push(self.cross_attention.to_kv.outputs());
                    assert(kv.drop_last() =~= tensor_dims(*c).drop_last());
                    assert(self.cross_attention.key_dims(*c)[1] == states[1]);
                }
                self.cross_attention.forward(&normed, c)?
            },
            None => {
                return Err(ModelError::MissingContext);
            },
        };
        proof {
            if fits {
                assert(tensor_dims(cross) =~= tensor_dims(x));
            }
        }
        let sum: Tensor = lift(x.add(&cross))?;
        let (normed_again, nothing) = self.ff_norm.forward(&sum, None)?;
        let ff: Tensor = self.feed_forward.forward(&normed_again)?;
        proof {
            if fits {
                assert(tensor_dims(ff) =~= tensor_dims(sum));
            }
        }
        let o: Tensor = lift(sum.add(&ff))?;
        proof {
            let states = array(*hidden_states);
            let gathered_context = Some(array(context->Some_0));
            assert(states.dims[0] as usize == state_dims@[0]);
            assert(self.cross_attend_norm.runs(
                array(x),
                Some(states),
                array(normed),
                gathered_context,
            ));
            assert(self.cross_attention.attends(
                array(normed),
                gathered_context->Some_0,
                array(cross),
            ));
            assert(self.ff_norm.runs(array(sum), None, array(normed_again), None));
            assert(self.gathering_steps(
                states,
                array(x),
                array(normed),
                gathered_context,
                array(cross),
                array(sum),
                array(normed_again),
                array(ff),
                array(o),
            ));
        }
        Ok(o)
    }

    proof fn lemma_laid_out_dims(self, batch: usize)
        requires
            self.is_sized(),
        ensures
            repeated(array(self.latents), per_sequence(batch)).dims == self.gathered_dims(
                batch as nat,
            ),
    {
        let whole = repeated(array(self.latents), per_sequence(batch));
        let from = padded(array(self.latents).dims, 3);
        assert(from =~= seq![1nat, tensor_dims(self.latents)[0], tensor_dims(self.latents)[1]]);
        assert(whole.dims.len() == 3);
        assert(whole.dims[0] == from[0] * times(per_sequence(batch), 0));
        assert(whole.dims[1] == from[1] * 1);
        assert(whole.dims[2] == from[2] * 1);
        assert(whole.dims =~= self.gathered_dims(batch as nat));
    }

    proof fn lemma_laid_out(self, batch: usize, x: Tensor)
        requires
            self.is_sized(),
            tensor_dims(self.latents)[0] <= usize::MAX,
            tensor_dims(self.latents)[1] <= usize::MAX,
            is_repeated(array(self.latents), per_sequence(batch), array(x)),
        ensures
            tensor_dims(x) == self.gathered_dims(batch as nat),
    {
        self.lemma_laid_out_dims(batch);
        assert(array(x).dims == self.gathered_dims(batch as nat));
    }

    /// The mean of what was gathered, under the mask if there is one, brought to length one if the
    /// model is to do that. A mask has one dimension, with one entry per token.
    pub fn pool(
        &self,
        gathered: &Tensor,
        attention_mask: Option<&Tensor>,
        batch_size: usize,
        seq_len: usize,
    ) -> (r: Result<Tensor, ModelError>)
        requires
            is_float(tensor_dtype(*gathered)),
            tensor_dims(*gathered).len() == 3,
            tensor_dims(*gathered)[0] > 0,
            tensor_dims(*gathered)[1] > 0,
            tensor_dims(*gathered)[2] > 0,
            batch_size > 0,
            seq_len > 0,
            attention_mask is Some ==> batch_size * seq_len <= usize::MAX,
        ensures
            attention_mask matches Some(mask) ==> is_mask_refused(*mask, batch_size, seq_len) ==> (
            r matches Err(e) && is_mask_error(*mask, batch_size, seq_len, e)),
            r matches Ok(o) ==> {
                &&& self.pools(
                    array(*gathered),
                    array_ref(attention_mask),
                    batch_size as nat,
                    seq_len as nat,
                    array(o),
                )
                &&& same_kind(o, *gathered)
                &&& tensor_packed(o)
                &&& tensor_dims(o) == seq![tensor_dims(*gathered)[0], tensor_dims(*gathered)[2]]
            },
            r matches Err(e) ==> is_operation_error(e) || (attention_mask matches Some(mask)
                && is_mask_refused(*mask, batch_size, seq_len)),
            self.can_pool(*gathered, attention_mask, batch_size, seq_len) ==> r is Ok,
    {
        let ghost dims = tensor_dims(*gathered);
        proof {
            lemma_cells(dims);
        }
        let mean: Tensor = match attention_mask {
            Some(mask) => {
                let tokens: usize = batch_size * seq_len;
                let mask_dims: Vec<usize> = dims_of(mask);
                proof {
                    assert(sizes(mask_dims@).len() == mask_dims@.len());
                    if mask_dims@.len() == 1 {
                        assert(sizes(mask_dims@)[0] == mask_dims@[0]);
                        assert(tensor_dims(*mask) =~= seq![mask_dims@[0] as nat]);
                    }
                    if self.can_pool(*gathered, attention_mask, batch_size, seq_len) {
                        lemma_mean_counts(dims);
                    }
                }
                if mask_dims.len() != 1 || mask_dims[0] != tokens {
                    return Err(ModelError::MaskShape { expected: tokens, dims: mask_dims });
                }
                let kind: DType = wide_type_of(gathered.dtype());
                let rows: usize = lift(ops::dim(gathered, 1))?;
                let weights: Tensor = weigh_rows(mask, kind, batch_size, seq_len, rows)?;
                proof {
                    if self.can_pool(*gathered, attention_mask, batch_size, seq_len) {
                        assert(tensor_dims(weights) =~= seq![dims[0], dims[1]]);
                    }
                }
                weighted_mean(gathered, &weights)?
            },
            None => lift(ops::mean(gathered, 1))?,
        };
        proof {
            assert(dims.remove(1) =~= seq![dims[0], dims[2]]);
            assert(is_mean(
                array(*gathered),
                array_ref(attention_mask),
                batch_size as nat,
                seq_len as nat,
                array(mean),
            ));
            if self.can_pool(*gathered, attention_mask, batch_size, seq_len) {
                lemma_mean_counts(dims);
            }
        }
        if self.output_normalize {
            normalize(&mean)
        } else {
            Ok(mean)
        }
    }

    /// One vector per sequence: what the latents gather from these states, pooled.
    pub fn forward(&self, hidden_states: &Tensor, attention_mask: Option<&Tensor>) -> (r: Result<
        Tensor,
        ModelError,
    >)
        requires
            self.is_sized(),
            self.is_wide_enough(*hidden_states) ==> self.takes(*hidden_states),
            self.is_wide_enough(*hidden_states) && attention_mask is Some ==> tensor_dims(
                *hidden_states,
            )[0] * tensor_dims(*hidden_states)[1] <= usize::MAX,
        ensures
            tensor_dims(*hidden_states).len() != 3 ==> (r matches Err(
                ModelError::HiddenStatesRank { dims },
            ) && sizes(dims@) == tensor_dims(*hidden_states)),
            tensor_dims(*hidden_states).len() == 3 && !self.is_wide_enough(*hidden_states) ==> (
            r matches Err(ModelError::HiddenSize { got, expected }) && got == tensor_dims(
                *hidden_states,
            )[2] && expected == tensor_dims(self.latents)[1]),
            self.is_wide_enough(*hidden_states) && self.has_nothing(*hidden_states) ==> (
            r matches Err(e) && self.is_nothing_error(*hidden_states, e)),
            r matches Ok(o) ==> {
                &&& self.is_wide_enough(*hidden_states)
                &&& self.embeds(array(*hidden_states), array_ref(attention_mask), array(o))
                &&& tensor_dims(o) == seq![
                    copies(tensor_dims(*hidden_states)[0]),
                    tensor_dims(self.latents)[1],
                ]
                &&& same_kind(o, self.latents)
                &&& tensor_packed(o)
            },
            self.is_wide_enough(*hidden_states) && self.refuses_mask(*hidden_states, attention_mask)
                ==> r is Err,
            self.fits(*hidden_states) && self.refuses_mask(*hidden_states, attention_mask) ==> (
            r matches Err(e) && self.is_mask_refusal(*hidden_states, attention_mask, e)),
            r matches Err(e) ==> self.is_wide_enough(*hidden_states) ==> self.is_layer_error(e)
                || self.has_nothing(*hidden_states) || self.is_mask_refusal(
                *hidden_states,
                attention_mask,
                e,
            ),
            self.fits(*hidden_states) && self.can_pool_all(*hidden_states, attention_mask)
                ==> r is Ok,
    {
        let dims: Vec<usize> = dims_of(hidden_states);
        assert(sizes(dims@).len() == dims@.len());
        if dims.len() != 3 {
            return Err(ModelError::HiddenStatesRank { dims });
        }
        let expected: usize = lift(ops::dim(&self.latents, 1))?;
        proof {
            assert(sizes(dims@)[0] == dims@[0]);
            assert(sizes(dims@)[1] == dims@[1]);
            assert(sizes(dims@)[2] == dims@[2]);
        }
        if dims[2] != expected {
            return Err(ModelError::HiddenSize { got: dims[2], expected });
        }
        let gathered: Tensor = self.gather(hidden_states)?;
        proof {
            assert(tensor_dims(*hidden_states)[0] as usize == dims@[0]);
            assert(tensor_dims(*hidden_states)[1] as usize == dims@[1]);
            if self.can_pool_all(*hidden_states, attention_mask) {
                assert(self.can_pool(gathered, attention_mask, dims@[0], dims@[1]));
            }
        }
        let o: Tensor = self.pool(&gathered, attention_mask, dims[0], dims[1])?;
        assert(tensor_dims(o) =~= seq![copies(dims@[0] as nat), tensor_dims(self.latents)[1]]);
        Ok(o)
    }

    /// There is a mask, and it does not have one entry per token.
    pub open spec fn refuses_mask(self, states: Tensor, mask: Option<&Tensor>) -> bool {
        let dims = tensor_dims(states);
        mask matches Some(m) && is_mask_refused(*m, dims[0] as usize, dims[1] as usize)
    }

    /// `e` names the shape of a mask that does not have one entry per token.
    pub open spec fn is_mask_refusal(
        self,
        states: Tensor,
        mask: Option<&Tensor>,
        e: ModelError,
    ) -> bool {
        let dims = tensor_dims(states);
        &&& self.refuses_mask(states, mask)
        &&& is_mask_error(*(mask->Some_0), dims[0] as usize, dims[1] as usize, e)
    }

    /// The states have three dimensions and are as wide as the latents.
    pub open spec fn is_wide_enough(self, states: Tensor) -> bool {
        tensor_dims(states).len() == 3 && tensor_dims(states)[2] == tensor_dims(self.latents)[1]
    }

    /// `out` is an outcome of the model on these states and this mask.
    pub open spec fn embeds(self, states: Array, mask: Option<Array>, out: Array) -> bool {
        exists|gathered: Array|
            {
                &&& #[trigger] self.gathers(states, gathered)
                &&& gathered.dims == self.gathered_dims(states.dims[0])
                &&& self.pools(gathered, mask, states.dims[0], states.dims[1], out)
            }
    }

    /// Whatever is gathered from these states can be pooled in host memory.
    pub open spec fn can_pool_all(self, states: Tensor, mask: Option<&Tensor>) -> bool {
        let dims = tensor_dims(states);
        forall|gathered: Tensor|
            self.is_like_laid_out(dims[0], gathered) ==> #[trigger] self.can_pool(
                gathered,
                mask,
                dims[0] as usize,
                dims[1] as usize,
            )
    }

    /// What can be pooled in host memory.
    pub open spec fn can_pool(
        self,
        gathered: Tensor,
        mask: Option<&Tensor>,
        batch_size: usize,
        seq_len: usize,
    ) -> bool {
        let dims = tensor_dims(gathered);
        &&& tensor_on_host(gathered)
        &&& is_plain(tensor_dtype(gathered))
        &&& dims.len() == 3
        &&& dims[0] * dims[1] * dims[2] <= usize::MAX
        &&& self.output_normalize || mask is Some ==> is_convertible(tensor_dtype(gathered))
        &&& mask matches Some(m) ==> {
            &&& tensor_dims(*m) == seq![(batch_size * seq_len) as nat]
            &&& tensor_on_host(*m)
            &&& is_convertible(tensor_dtype(*m))
            &&& dims[0] == batch_size
        }
    }
}

/// A mask that does not have one entry per token.
pub open spec fn is_mask_refused(mask: Tensor, batch_size: usize, seq_len: usize) -> bool {
    tensor_dims(mask) != seq![(batch_size * seq_len) as nat]
}

/// `e` names the shape of the mask, and how many entries it ought to have.
pub open spec fn is_mask_error(
    mask: Tensor,
    batch_size: usize,
    seq_len: usize,
    e: ModelError,
) -> bool {
    e matches ModelError::MaskShape { expected, dims } && expected == batch_size * seq_len && sizes(
        dims@,
    ) == tensor_dims(mask)
}

/// The flag of a model that brings its vectors to length one does that and nothing else.
pub proof fn law_normalizing_only_divides_by_the_length(
    model: LatentAttentionModel,
    plain: LatentAttentionModel,
    states: Array,
    mask: Option<Array>,
    out: Array,
)
    requires
        model.output_normalize,
        plain == (LatentAttentionModel { output_normalize: false, ..model }),
    ensures
        model.embeds(states, mask, out) <==> exists|mean: Array| #[trigger]
            plain.embeds(states, mask, mean) && is_normalized(mean, out),
{
    let (batch, tokens) = (states.dims[0], states.dims[1]);
    assert(plain.latents == model.latents);
    assert(plain.cross_attend_norm == model.cross_attend_norm);
    assert(plain.cross_attention == model.cross_attention);
    assert(plain.ff_norm == model.ff_norm);
    assert(plain.feed_forward == model.feed_forward);
    if model.embeds(states, mask, out) {
        let gathered = choose|gathered: Array|
            {
                &&& #[trigger] model.gathers(states, gathered)
                &&& gathered.dims == model.gathered_dims(batch)
                &&& model.pools(gathered, mask, batch, tokens, out)
            };
        let mean = choose|mean: Array|
            {
                &&& #[trigger] is_mean(gathered, mask, batch, tokens, mean)
                &&& mean.dims == seq![gathered.dims[0], gathered.dims[2]]
                &&& is_normalized(mean, out)
            };
        lemma_same_gathering(model, plain, states, gathered);
        assert(plain.embeds(states, mask, mean));
    }
    if exists|mean: Array| #[trigger] plain.embeds(states, mask, mean) && is_normalized(mean, out) {
        let mean = choose|mean: Array| #[trigger]
            plain.embeds(states, mask, mean) && is_normalized(mean, out);
        let gathered = choose|gathered: Array|
            {
                &&& #[trigger] plain.gathers(states, gathered)
                &&& gathered.dims == plain.gathered_dims(batch)
                &&& plain.pools(gathered, mask, batch, tokens, mean)
            };
        lemma_same_gathering(plain, model, states, gathered);
        assert(is_mean(gathered, mask, batch, tokens, mean));
    }
}

proof fn lemma_same_gathering(
    a: LatentAttentionModel,
    b: LatentAttentionModel,
    states: Array,
    out: Array,
)
    requires
        a.gathers(states, out),
        b == (LatentAttentionModel { output_normalize: b.output_normalize, ..a }),
    ensures
        b.gathers(states, out),
{
    let (x, normed, context, cross, sum, normed_again, ff) = choose|
        x: Array,
        normed: Array,
        context: Option<Array>,
        cross: Array,
        sum: Array,
        normed_again: Array,
        ff: Array,
    | #[trigger]
        a.gathering_steps(states, x, normed, context, cross, sum, normed_again, ff, out);
    assert(b.gathering_steps(states, x, normed, context, cross, sum, normed_again, ff, out));
}

/// In host memory a model that brings its vectors to length one succeeds wherever the same model
/// without that succeeds, on the element types that host memory converts.
pub proof fn law_normalizing_succeeds_as_well(
    model: LatentAttentionModel,
    plain: LatentAttentionModel,
    states: Tensor,
    mask: Option<&Tensor>,
)
    requires
        model.output_normalize,
        plain == (LatentAttentionModel { output_normalize: false, ..model }),
        plain.fits(states),
        plain.can_pool_all(states, mask),
        is_convertible(tensor_dtype(model.latents)),
    ensures
        model.fits(states),
        model.can_pool_all(states, mask),
{
    let batch = tensor_dims(states)[0];
    assert forall|gathered: Tensor|
        model.is_like_laid_out(batch, gathered) implies #[trigger] model.can_pool(
        gathered,
        mask,
        batch as usize,
        tensor_dims(states)[1] as usize,
    ) by {
        assert(plain.is_like_laid_out(batch, gathered));
        assert(plain.can_pool(
            gathered,
            mask,
            batch as usize,
            tensor_dims(states)[1] as usize,
        ));
    }
    assert forall|x: Tensor|
        model.is_like_laid_out(batch, x) && tensor_packed(x) implies #[trigger] layer_norm_fits(
        model.cross_attend_norm.norm,
        x,
    ) by {
        assert(plain.is_like_laid_out(batch, x));
        assert(layer_norm_fits(plain.cross_attend_norm.norm, x));
    }
    assert forall|x: Tensor|
        model.is_like_laid_out(batch, x) && tensor_packed(x) implies #[trigger] layer_norm_fits(
        model.ff_norm.norm,
        x,
    ) by {
        assert(plain.is_like_laid_out(batch, x));
        assert(layer_norm_fits(plain.ff_norm.norm, x));
    }
    assert forall|x: Tensor, context: Tensor|
        model.is_like_laid_out(batch, x) && alike(
            context,
            states,
        ) implies #[trigger] model.cross_attention.fits(x, context) by {
        assert(plain.is_like_laid_out(batch, x));
        assert(plain.cross_attention.fits(x, context));
    }
    assert forall|x: Tensor|
        model.is_like_laid_out(batch, x) implies #[trigger] model.feed_forward.fits(x) by {
        assert(plain.is_like_laid_out(batch, x));
        assert(plain.feed_forward.fits(x));
    }
}

/// The parts of a stored model fit each other: what one of them gives, the next one takes.
pub proof fn law_stored_parts_fit_each_other(
    model: LatentAttentionModel,
    vb: Weights,
    config: NVEmbedConfig,
)
    requires
        model.is_stored(vb, config),
    ensures
        ({
            let latent_dim = tensor_dims(model.latents)[1];
            let attention = model.cross_attention;
            let ff = model.feed_forward;
            &&& tensor_dims(attention.to_q.weight).last() == latent_dim
            &&& attention.to_kv.outputs() == 2 * attention.to_q.outputs()
            &&& tensor_dims(attention.to_out.weight).last() == attention.to_q.outputs()
            &&& attention.to_out.outputs() == latent_dim
            &&& tensor_dims(ff.net_w1.weight).last() == latent_dim
            &&& ff.net_w1.outputs() == 2 * tensor_dims(ff.net_w2.weight).last()
            &&& ff.net_w2.outputs() == latent_dim
        }),
{
    let attention = model.cross_attention;
    let ff = model.feed_forward;
    assert(tensor_dims(model.latents) == array(model.latents).dims);
    assert(tensor_dims(attention.to_q.weight) == array(attention.to_q.weight).dims);
    assert(tensor_dims(attention.to_kv.weight) == array(attention.to_kv.weight).dims);
    assert(tensor_dims(attention.to_out.weight) == array(attention.to_out.weight).dims);
    assert(tensor_dims(ff.net_w1.weight) == array(ff.net_w1.weight).dims);
    assert(tensor_dims(ff.net_w2.weight) == array(ff.net_w2.weight).dims);
}

/// The tensors of a model are in host memory and have this element type, and its norms are packed.
pub open spec fn is_on_host(model: LatentAttentionModel, dtype: DType) -> bool {
    &&& tensor_on_host(model.latents)
    &&& tensor_dtype(model.latents) == dtype
    &&& is_norm_on_host(model.cross_attend_norm.norm)
    &&& model.cross_attend_norm.context_norm matches Some(norm) ==> is_norm_on_host(norm)
    &&& is_norm_on_host(model.ff_norm.norm)
    &&& same_kind(model.cross_attention.to_q.weight, model.latents)
    &&& same_kind(model.cross_attention.to_kv.weight, model.latents)
    &&& same_kind(model.cross_attention.to_out.weight, model.latents)
    &&& same_kind(model.feed_forward.net_w1.weight, model.latents)
    &&& same_kind(model.feed_forward.net_w2.weight, model.latents)
}

/// The tensors of a norm are in host memory and packed.
pub open spec fn is_norm_on_host(norm: LayerNorm) -> bool {
    &&& tensor_on_host(norm.weight)
    &&& tensor_on_host(norm.bias)
    &&& tensor_packed(norm.weight)
    &&& tensor_packed(norm.bias)
}

/// What is computed for a batch of this size fits in a machine word.
pub open spec fn is_small(config: NVEmbedConfig, batch: nat, tokens: nat) -> bool {
    let la = config.latent_attention_config;
    let (rows, width) = (la.num_latents_value as nat, la.latent_dim as nat);
    let inner = la.head_size() * la.num_cross_heads;
    &&& batch * rows * (8 * width) <= usize::MAX
    &&& batch * rows * inner <= usize::MAX
    &&& batch * tokens * width <= usize::MAX
    &&& batch * tokens * (2 * inner) <= usize::MAX
    &&& batch * la.num_cross_heads * rows * tokens <= usize::MAX
}

/// A stored model in host memory takes every batch of sequences that are as wide as its latents: no
/// part refuses what the part before it gives.
pub proof fn law_stored_model_takes_every_batch(
    model: LatentAttentionModel,
    vb: Weights,
    config: NVEmbedConfig,
    states: Tensor,
)
    requires
        model.is_stored(vb, config),
        is_on_host(model, weights_dtype(vb)),
        has_host_matmul(weights_dtype(vb)),
        has_host_norm(weights_dtype(vb)),
        config.latent_attention_config.num_latents_value > 0,
        config.latent_attention_config.latent_dim > 0,
        config.latent_attention_config.hidden_dim == config.latent_attention_config.latent_dim,
        config.latent_attention_config.num_cross_heads > 0,
        config.latent_attention_config.head_size() > 0,
        tensor_dims(states).len() == 3,
        tensor_dims(states)[0] > 0,
        tensor_dims(states)[1] > 0,
        tensor_dims(states)[2] == config.latent_attention_config.latent_dim,
        same_kind(states, model.latents),
        tensor_packed(states),
        is_small(config, tensor_dims(states)[0], tensor_dims(states)[1]),
    ensures
        model.fits(states),
{
    let la = config.latent_attention_config;
    let (b, s) = (tensor_dims(states)[0], tensor_dims(states)[1]);
    let (l, d) = (la.num_latents_value as nat, la.latent_dim as nat);
    let (heads, size) = (la.num_cross_heads as nat, la.head_size());
    let inner = size * heads;
    let attention = model.cross_attention;
    let ff = model.feed_forward;
    assert(tensor_dims(model.latents) == array(model.latents).dims);
    assert(tensor_dtype(model.latents) == array(model.latents).dtype);
    lemma_stored_matrix(attention.to_q.weight);
    lemma_stored_matrix(attention.to_kv.weight);
    lemma_stored_matrix(attention.to_out.weight);
    lemma_stored_matrix(ff.net_w1.weight);
    lemma_stored_matrix(ff.net_w2.weight);
    lemma_stored_norm(model.cross_attend_norm.norm, d, weights_dtype(vb));
    lemma_stored_norm(model.cross_attend_norm.context_norm->Some_0, d, weights_dtype(vb));
    lemma_stored_norm(model.ff_norm.norm, d, weights_dtype(vb));
    lemma_count_two(tensor_dims(model.latents));
    lemma_count_three(tensor_dims(states));
    lemma_count_three(model.gathered_dims(b));
    assert(l * d <= b * l * d && b * l * d <= b * l * (8 * d) && b * l * (4 * d) <= b * l * (8
        * d) && b * l > 0 && b * l <= b * l * d) by (nonlinear_arith)
        requires
            b > 0,
            l > 0,
            d > 0,
    ;
    assert(inner > 0) by (nonlinear_arith)
        requires
            inner == size * heads,
            size > 0,
            heads > 0,
    ;
    vstd::arithmetic::div_mod::lemma_mod_multiples_basic(size as int, heads as int);
    assert forall|x: Tensor, context: Tensor|
        model.is_like_laid_out(b, x) && alike(context, states) implies #[trigger] attention.fits(
        x,
        context,
    ) by {
        assert(tensor_dims(attention.to_q.weight) =~= seq![inner, d]);
        assert(tensor_dims(attention.to_kv.weight) =~= seq![2 * inner, d]);
        assert(tensor_dims(attention.to_out.weight) =~= seq![d, inner]);
    }
    assert forall|x: Tensor| model.is_like_laid_out(b, x) implies #[trigger] ff.fits(x) by {
        let dims = tensor_dims(x);
        lemma_count_three(dims);
        let wide = dims.drop_last().push(ff.net_w1.outputs());
        lemma_count_three(wide);
        lemma_count_three(ff.gated_dims(dims));
        lemma_count_three(dims.drop_last().push(d));
        assert(wide =~= seq![b, l, 8 * d]);
        lemma_cells(wide);
        lemma_cells(dims);
        lemma_span(wide);
        lemma_span(dims);
        assert(ff.gated_dims(dims) =~= seq![b, l, 4 * d]);
        assert(dims.drop_last().push(d) =~= dims);
    }
}

proof fn lemma_stored_matrix(weight: Tensor)
    ensures
        tensor_dims(weight) == array(weight).dims,
        tensor_dtype(weight) == array(weight).dtype,
{
}

proof fn lemma_stored_norm(norm: LayerNorm, size: nat, dtype: DType)
    requires
        norm.is_plain_norm(size, dtype),
    ensures
        tensor_dtype(norm.weight) == dtype,
        tensor_dtype(norm.bias) == dtype,
        array(norm.epsilon) == double(scalar_bits(array(norm.epsilon))),
{
    assert(tensor_dtype(norm.weight) == array(norm.weight).dtype);
    assert(tensor_dtype(norm.bias) == array(norm.bias).dtype);
}

/// Every sequence of a batch starts from the same latents.
pub proof fn law_every_sequence_gets_the_latents(
    model: LatentAttentionModel,
    batch: usize,
    x: Array,
    sequence: nat,
    latent: nat,
    column: nat,
)
    requires
        model.is_sized(),
        is_repeated(array(model.latents), per_sequence(batch), x),
        countable(tensor_dims(model.latents)),
        countable(model.gathered_dims(batch as nat)),
        sequence < copies(batch as nat),
        latent < tensor_dims(model.latents)[0],
        column < tensor_dims(model.latents)[1],
    ensures
        x.cells[seq![sequence, latent, column]] == array(model.latents).cells[seq![latent, column]],
{
    model.lemma_laid_out_dims(batch);
    lemma_repeated_cell(array(model.latents), batch, sequence, latent, column);
}

proof fn lemma_repeated_cell(a: Array, batch: usize, sequence: nat, latent: nat, column: nat)
    requires
        a.dims.len() == 2,
        sequence < copies(batch as nat),
        latent < a.dims[0],
        column < a.dims[1],
        repeated(a, per_sequence(batch)).dims == seq![copies(batch as nat), a.dims[0], a.dims[1]],
    ensures
        repeated(a, per_sequence(batch)).cells[seq![sequence, latent, column]] == a.cells[seq![
            latent,
            column,
        ]],
{
    let whole = repeated(a, per_sequence(batch));
    let from = padded(a.dims, per_sequence(batch).len());
    let i = seq![sequence, latent, column];
    assert(from =~= seq![1nat, a.dims[0], a.dims[1]]);
    assert(in_bounds(i, whole.dims));
    let f = |k: int|
        (i[k + from.len() - a.dims.len()] as int % from[k + from.len()
            - a.dims.len()] as int) as nat;
    assert(f(0) == latent % a.dims[0]);
    assert(f(1) == column % a.dims[1]);
    vstd::arithmetic::div_mod::lemma_small_mod(latent, a.dims[0]);
    vstd::arithmetic::div_mod::lemma_small_mod(column, a.dims[1]);
    assert(Seq::new(a.dims.len(), f) =~= seq![latent, column]);
}

} // verus!
