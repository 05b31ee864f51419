//! What is not refused when weights are read: all that a checkpoint has.
use crate::array::{is_spanned, lemma_span_two, span, Array};
use crate::config::NVEmbedConfig;
use crate::cross_attention::CrossAttention;
use crate::error::ModelError;
use crate::feed_forward::FeedForward;
use crate::latent::{LatentAttentionModel, PreNorm};
use crate::layer::BidirectionalMistralLayer;
use crate::layers::{is_operation_error, RMSNorm};
use crate::load_laws::{feed_forward_at, is_new_norm};
use crate::mistral::{
    is_encoder_root, layer_refused, layers_refused, layers_there, BidirectionalMistralModel,
    RotaryCall,
};
use crate::tensor::{array, device_is_cpu, device_is_cuda, tensor_dims};
use crate::text::layer_name;
use crate::weights::{
    fails, is_below, var_fails, var_gives, weights_device, weights_dtype, weights_path,
    weights_source, Weights,
};
use candle_core::{DType, Device, Tensor};
use vstd::prelude::*;

verus! {

/// The checkpoint has every tensor that it is asked for, in the shape that is asked for.
pub open spec fn is_complete(vb: Weights) -> bool {
    &&& forall|
        path: Seq<Seq<char>>,
        name: Seq<char>,
        dims: Seq<nat>,
        e: candle_core::Error,
    | !#[trigger] var_fails(weights_source(vb), path, weights_dtype(vb), name, dims, e)
    &&& forall|
        path: Seq<Seq<char>>,
        name: Seq<char>,
        dims: Seq<nat>,
        a: Array,
    | #[trigger]
        var_gives(weights_source(vb), path, weights_dtype(vb), name, dims, a) ==> a.dims == dims
}

/// A step in a complete checkpoint leads to a complete checkpoint.
proof fn lemma_complete_below(vb: Weights, name: Seq<char>, below: Weights)
    requires
        is_complete(vb),
        is_below(vb, name, below),
    ensures
        is_complete(below),
{
}

proof fn lemma_nothing_fails(
    vb: Weights,
    path: Seq<Seq<char>>,
    name: Seq<char>,
    dims: Seq<nat>,
    e: ModelError,
)
    requires
        is_complete(vb),
        fails(vb, path, name, dims, e),
    ensures
        is_operation_error(e),
        !is_spanned(dims),
{
}

/// A norm is read from a complete checkpoint.
pub proof fn law_complete_checkpoint_gives_a_norm(
    vb: Weights,
    size: usize,
    epsilon: u64,
    r: Result<RMSNorm, ModelError>,
)
    requires
        is_complete(vb),
        call_ensures(RMSNorm::load, (&vb, size, epsilon), r),
    ensures
        r is Ok,
{
    if r is Err {
        lemma_nothing_fails(vb, seq![], "weight"@, seq![size as nat], r->Err_0);
        reveal_with_fuel(span, 2);
        assert(seq![size as nat].drop_last() =~= seq![]);
        assert(1 * size == size);
    }
}

/// A feed-forward part is read from a complete checkpoint, if its weights can be counted.
pub proof fn law_complete_checkpoint_gives_a_feed_forward_part(
    vb: Weights,
    dim: usize,
    mult: usize,
    r: Result<FeedForward, ModelError>,
)
    requires
        is_complete(vb),
        dim * mult * 2 <= usize::MAX,
        dim * mult * 2 * dim <= usize::MAX,
        call_ensures(FeedForward::load, (&vb, dim, mult), r),
    ensures
        r is Ok,
{
    let (wide, narrow, d) = ((dim * mult * 2) as nat, (dim * mult) as nat, dim as nat);
    assert(d * narrow <= wide * d) by (nonlinear_arith)
        requires
            wide == narrow * 2,
    ;
    lemma_span_two(wide, d);
    lemma_span_two(d, narrow);
    if r is Err {
        let e = r->Err_0;
        if fails(vb, seq!["net.0"@], "weight"@, seq![wide, d], e) {
            lemma_nothing_fails(vb, seq!["net.0"@], "weight"@, seq![wide, d], e);
        } else {
            lemma_nothing_fails(vb, seq!["net.2"@], "weight"@, seq![d, narrow], e);
        }
    }
}

/// A feed-forward part has weights of the sizes that were asked for, under its two names.
pub proof fn law_loaded_feed_forward_part_has_the_sizes_asked_for(
    vb: Weights,
    dim: usize,
    mult: usize,
    ff: FeedForward,
)
    requires
        call_ensures(FeedForward::load, (&vb, dim, mult), Ok::<FeedForward, ModelError>(ff)),
    ensures
        tensor_dims(ff.net_w1.weight) == seq![(dim * mult * 2) as nat, dim as nat],
        tensor_dims(ff.net_w2.weight) == seq![dim as nat, (dim * mult) as nat],
        mult == 4 ==> feed_forward_at(vb, seq![], dim as nat, ff),
{
    let none = Seq::<Seq<char>>::empty();
    assert(weights_path(vb) + none.push("net.0"@) =~= weights_path(vb) + seq!["net.0"@]);
    assert(weights_path(vb) + none.push("net.2"@) =~= weights_path(vb) + seq!["net.2"@]);
    assert(tensor_dims(ff.net_w1.weight) == array(ff.net_w1.weight).dims);
    assert(tensor_dims(ff.net_w2.weight) == array(ff.net_w2.weight).dims);
}

/// A cross attention is read from a complete checkpoint, if its weights can be counted.
pub proof fn law_complete_checkpoint_gives_a_cross_attention(
    vb: Weights,
    query_dim: usize,
    context_dim: usize,
    heads: usize,
    dim_head: usize,
    r: Result<CrossAttention, ModelError>,
)
    requires
        is_complete(vb),
        dim_head * heads * 2 <= usize::MAX,
        dim_head * heads * query_dim <= usize::MAX,
        dim_head * heads * 2 * context_dim <= usize::MAX,
        call_ensures(CrossAttention::load, (&vb, query_dim, context_dim, heads, dim_head), r),
    ensures
        r is Ok,
{
    let inner = (dim_head * heads) as nat;
    let (q, c) = (query_dim as nat, context_dim as nat);
    assert(inner * q == q * inner) by (nonlinear_arith);
    lemma_span_two(inner, q);
    lemma_span_two(inner * 2, c);
    lemma_span_two(q, inner);
    if r is Err {
        let e = r->Err_0;
        if fails(vb, seq!["to_q"@], "weight"@, seq![inner, q], e) {
            lemma_nothing_fails(vb, seq!["to_q"@], "weight"@, seq![inner, q], e);
        } else if fails(vb, seq!["to_kv"@], "weight"@, seq![inner * 2, c], e) {
            lemma_nothing_fails(vb, seq!["to_kv"@], "weight"@, seq![inner * 2, c], e);
        } else {
            lemma_nothing_fails(vb, seq!["to_out"@], "weight"@, seq![q, inner], e);
        }
    }
}

/// A latent attention is read into host memory from a complete checkpoint, if its weights can be
/// counted.
pub proof fn law_complete_checkpoint_gives_the_latent_attention(
    vb: Weights,
    config: NVEmbedConfig,
    inner: nat,
    r: Result<LatentAttentionModel, ModelError>,
)
    requires
        is_complete(vb),
        device_is_cpu(weights_device(vb)),
        config.latent_attention_config.num_cross_heads > 0,
        inner == (config.latent_attention_config.cross_dim_head
            / config.latent_attention_config.num_cross_heads)
            * config.latent_attention_config.num_cross_heads,
        inner * 2 <= usize::MAX,
        8 * config.latent_attention_config.latent_dim <= usize::MAX,
        config.latent_attention_config.num_latents_value
            * config.latent_attention_config.latent_dim <= usize::MAX,
        inner * config.latent_attention_config.latent_dim <= usize::MAX,
        inner * 2 * config.latent_attention_config.hidden_dim <= usize::MAX,
        8 * config.latent_attention_config.latent_dim * config.latent_attention_config.latent_dim
            <= usize::MAX,
        call_ensures(LatentAttentionModel::load, (&vb, &config), r),
    ensures
        r is Ok,
{
    let la = config.latent_attention_config;
    let (rows, w, c) = (la.num_latents_value as nat, la.latent_dim as nat, la.hidden_dim as nat);
    let (heads, size) = (la.num_cross_heads as nat, la.head_size());
    assert(size * heads == inner);
    assert(inner * w == w * inner) by (nonlinear_arith);
    assert(w * 4 * 2 * w == 8 * w * w && w * (w * 4) <= 8 * w * w) by (nonlinear_arith);
    lemma_span_two(rows, w);
    lemma_span_two(inner, w);
    lemma_span_two(inner * 2, c);
    lemma_span_two(w, inner);
    lemma_span_two(w * 4 * 2, w);
    lemma_span_two(w, w * 4);
    if r is Err {
        let e = r->Err_0;
        if fails(vb, seq![], "latents"@, seq![rows, w], e) {
            lemma_nothing_fails(vb, seq![], "latents"@, seq![rows, w], e);
        } else {
            let (cross, ff) = choose|cross: Weights, ff: Weights|
                {
                    &&& #[trigger] is_below(vb, "cross_attend_blocks.0.fn"@, cross)
                    &&& #[trigger] is_below(vb, "cross_attend_blocks.1.fn"@, ff)
                    &&& {
                        ||| CrossAttention::is_refused(cross, w, c, heads, size, e)
                        ||| CrossAttention::is_there(cross, w, c, heads, size)
                            && FeedForward::is_refused(ff, w, 4, e)
                    }
                };
            lemma_complete_below(vb, "cross_attend_blocks.0.fn"@, cross);
            lemma_complete_below(vb, "cross_attend_blocks.1.fn"@, ff);
            if CrossAttention::is_refused(cross, w, c, heads, size, e) {
                if fails(cross, seq!["to_q"@], "weight"@, seq![inner, w], e) {
                    lemma_nothing_fails(cross, seq!["to_q"@], "weight"@, seq![inner, w], e);
                } else if fails(cross, seq!["to_kv"@], "weight"@, seq![inner * 2, c], e) {
                    lemma_nothing_fails(cross, seq!["to_kv"@], "weight"@, seq![inner * 2, c], e);
                } else {
                    lemma_nothing_fails(cross, seq!["to_out"@], "weight"@, seq![w, inner], e);
                }
            } else {
                if fails(ff, seq!["net.0"@], "weight"@, seq![w * 4 * 2, w], e) {
                    lemma_nothing_fails(ff, seq!["net.0"@], "weight"@, seq![w * 4 * 2, w], e);
                } else {
                    lemma_nothing_fails(ff, seq!["net.2"@], "weight"@, seq![w, w * 4], e);
                }
            }
        }
    }
}

proof fn lemma_layer_refused(vb: Weights, config: NVEmbedConfig, e: ModelError)
    requires
        is_complete(vb),
        BidirectionalMistralLayer::is_refused(vb, config, e),
    ensures
        is_operation_error(e),
{
}

/// Of a layer in a complete checkpoint nothing is refused but what an operation on tensors refuses.
pub proof fn law_complete_checkpoint_gives_a_layer(
    vb: Weights,
    config: NVEmbedConfig,
    r: Result<BidirectionalMistralLayer, ModelError>,
)
    requires
        is_complete(vb),
        call_ensures(BidirectionalMistralLayer::load, (&vb, &config), r),
    ensures
        r matches Err(e) ==> is_operation_error(e),
{
    if r is Err {
        lemma_layer_refused(vb, config, r->Err_0);
    }
}

/// The language model needs a CUDA device and half precision. Where it has both, nothing of a
/// complete checkpoint is refused but what an operation on tensors or `rotary` refuses.
pub proof fn law_complete_checkpoint_gives_the_language_model<
    R: Fn(RotaryCall) -> Result<(Tensor, Tensor), ModelError>,
>(vb: Weights, config: NVEmbedConfig, rotary: R, r: Result<BidirectionalMistralModel, ModelError>)
    requires
        is_complete(vb),
        call_ensures(BidirectionalMistralModel::load::<R>, (&vb, &config, &rotary), r),
        forall|call: RotaryCall, e: ModelError|
            !#[trigger] call_ensures(
                rotary,
                (call,),
                Err::<(Tensor, Tensor), ModelError>(e),
            ),
    ensures
        !device_is_cuda(weights_device(vb)) ==> r matches Err(ModelError::MistralRequiresCuda),
        device_is_cuda(weights_device(vb)) && !(weights_dtype(vb) is F16)
            ==> r matches Err(ModelError::MistralRequiresF16),
        device_is_cuda(weights_device(vb)) && weights_dtype(vb) is F16 ==> (r matches Err(e)
            ==> is_operation_error(e)),
{
    if device_is_cuda(weights_device(vb)) && weights_dtype(vb) is F16 && r is Err {
        let e = r->Err_0;
        let text = config.text_config;
        let (vocabulary, hidden) = (text.vocab_size as nat, text.hidden_size as nat);
        let root = choose|root: Weights|
            {
                &&& #[trigger] is_encoder_root(vb, root)
                &&& {
                    ||| fails(root, seq!["embed_tokens"@], "weight"@, seq![vocabulary, hidden], e)
                    ||| layers_refused(root, config, e)
                    ||| BidirectionalMistralModel::norm_refused(root, config, e)
                    ||| BidirectionalMistralModel::rotary_gives(
                        rotary,
                        vb,
                        config,
                        Err::<(Tensor, Tensor), ModelError>(e),
                    )
                }
            };
        assert(is_complete(root));
        if fails(root, seq!["embed_tokens"@], "weight"@, seq![vocabulary, hidden], e) {
        } else if layers_refused(root, config, e) {
            let index = choose|index: nat|
                {
                    &&& index < text.num_hidden_layers
                    &&& layers_there(root, config, index)
                    &&& #[trigger] layer_refused(root, config, index, e)
                };
            let place = choose|place: Weights| #[trigger]
                is_below(root, layer_name(index), place) && BidirectionalMistralLayer::is_refused(
                    place,
                    config,
                    e,
                );
            lemma_complete_below(root, layer_name(index), place);
            lemma_layer_refused(place, config, e);
        }
    }
}

/// New norms are over rows of the sizes that were asked for, one for the context only where its
/// size was given.
pub proof fn law_new_norms_have_the_sizes_asked_for(
    dim: usize,
    context_dim: Option<usize>,
    dtype: DType,
    device: Device,
    norms: PreNorm,
)
    requires
        call_ensures(
            PreNorm::new,
            (dim, context_dim, dtype, &device),
            Ok::<PreNorm, ModelError>(norms),
        ),
    ensures
        is_new_norm(norms.norm, dim as nat, dtype),
        match context_dim {
            Some(size) => norms.context_norm matches Some(norm) && is_new_norm(
                norm,
                size as nat,
                dtype,
            ),
            None => norms.context_norm is None,
        },
{
}

} // verus!
