//! What is not refused: in host memory, everything that fits in a machine word succeeds.
use crate::array::{
    has_host_matmul, has_host_norm, ids_below, is_plain, is_spanned, lemma_cells, lemma_count_three,
    lemma_count_two, lemma_span, lemma_span_two, vector, Array,
};
use crate::attention::{is_kernel, AttentionCall, Placement};
use crate::batch::Batch;
use crate::config::NVEmbedConfig;
use crate::error::ModelError;
use crate::latent::{is_on_host, is_small, law_stored_model_takes_every_batch, LatentAttentionModel};
use crate::layer::BidirectionalMistralLayer;
use crate::mistral::BidirectionalMistralModel;
use crate::model::{
    is_host_vector, is_sequence, law_stored_latents_take_every_sequence, FlashNVEmbedModel,
};
use crate::model_calls::batch_gave;
use crate::ops::norm_fits;
use crate::tensor::{
    array, device_is_cpu, same_kind, tensor_dims, tensor_dtype, tensor_on_host, tensor_packed,
};
use crate::weights::{weights_dtype, Weights};
use candle_core::{DType, Tensor};
use vstd::prelude::*;

verus! {

/// A tensor in host memory with cells of this type, one after the other.
pub open spec fn is_in_host_memory(t: Tensor, dtype: DType) -> bool {
    tensor_on_host(t) && tensor_packed(t) && tensor_dtype(t) == dtype
}

/// A kernel that answers every call, in the memory and the type of the queries.
pub open spec fn answers_every_call<K: Fn(AttentionCall) -> Result<Tensor, ModelError>>(
    kernel: K,
) -> bool {
    forall|call: AttentionCall, r: Result<Tensor, ModelError>| #[trigger]
        call_ensures(kernel, (call,), r) ==> (r matches Ok(t) && tensor_dims(t) == tensor_dims(
            call.q,
        ) && same_kind(t, call.q))
}

/// The weights of a layer are in host memory, its heads fill the width of the states, and what it
/// computes for this many tokens can be counted.
pub open spec fn is_ready_layer(
    layer: BidirectionalMistralLayer,
    hidden: nat,
    dtype: DType,
    tokens: nat,
) -> bool {
    let attention = layer.attention;
    let (heads, others) = (
        attention.num_attention_heads as nat,
        attention.num_key_value_heads as nat,
    );
    let size = attention.attention_head_size as nat;
    let inner = layer.mlp.intermediate_size as nat;
    &&& layer.is_sized(hidden)
    &&& is_in_host_memory(attention.qkv_linear.weight, dtype)
    &&& is_in_host_memory(attention.o_proj.weight, dtype)
    &&& is_in_host_memory(layer.mlp.gate_up_proj.weight, dtype)
    &&& is_in_host_memory(layer.mlp.down_proj.weight, dtype)
    &&& is_in_host_memory(layer.input_layer_norm.weight, dtype)
    &&& is_in_host_memory(layer.post_attention_layer_norm.weight, dtype)
    &&& heads * size == hidden
    &&& inner > 0
    &&& tokens * (hidden + 2 * (others * size)) <= usize::MAX
    &&& tokens * (2 * inner) <= usize::MAX
}

/// The tables, the norm and the layers of a language model are in host memory, and what it computes
/// for this many tokens can be counted.
pub open spec fn is_ready_model(
    model: BidirectionalMistralModel,
    dtype: DType,
    tokens: nat,
) -> bool {
    let hidden = model.embeddings.hidden_size as nat;
    let (cos, sin) = (tensor_dims(model.cos_cache), tensor_dims(model.sin_cache));
    &&& model.is_sized()
    &&& is_in_host_memory(model.embeddings.weight, dtype)
    &&& is_in_host_memory(model.norm.weight, dtype)
    &&& is_in_host_memory(model.cos_cache, dtype)
    &&& is_in_host_memory(model.sin_cache, dtype)
    &&& tensor_dims(model.embeddings.weight)[0] * hidden <= usize::MAX
    &&& cos.len() == 2 && sin.len() == 2
    &&& 0 < cos[0] * cos[1] <= usize::MAX
    &&& 0 < sin[0] * sin[1] <= usize::MAX
    &&& tokens * cos[1] <= usize::MAX
    &&& tokens * sin[1] <= usize::MAX
    &&& tokens * hidden <= usize::MAX
    &&& forall|k: int|
        0 <= k < model.layers@.len() ==> is_ready_layer(
            #[trigger] model.layers@[k],
            hidden,
            dtype,
            tokens,
        )
}

proof fn lemma_layer_fits(
    layer: BidirectionalMistralLayer,
    hidden: nat,
    dtype: DType,
    tokens: nat,
    x: Tensor,
)
    requires
        is_ready_layer(layer, hidden, dtype, tokens),
        has_host_matmul(dtype),
        has_host_norm(dtype),
        tokens > 0,
        hidden > 0,
        tokens * hidden <= usize::MAX,
        tensor_dims(x) == seq![tokens, hidden],
        is_in_host_memory(x, dtype),
    ensures
        layer.fits(x),
{
    let attention = layer.attention;
    let (heads, others) = (
        attention.num_attention_heads as nat,
        attention.num_key_value_heads as nat,
    );
    let size = attention.attention_head_size as nat;
    lemma_count_two(tensor_dims(x));
    let headed = attention.headed(tensor_dims(x));
    assert(headed =~= seq![tokens, heads + 2 * others, size]);
    lemma_count_three(headed);
    assert(tokens * (heads + 2 * others) * size == tokens * (hidden + 2 * (others * size)))
        by (nonlinear_arith)
        requires
            heads * size == hidden,
    ;
    assert(heads > 0 && size > 0) by (nonlinear_arith)
        requires
            heads * size == hidden,
            hidden > 0,
    ;
    lemma_cells(headed);
    lemma_span(headed);
    assert(is_spanned(headed));
    assert(attention.fits(x));
    assert(layer.mlp.fits(x));
}

/// With a kernel that answers every call, every batch whose tokens and positions are known gets its
/// states.
proof fn lemma_encoded<K: Fn(AttentionCall) -> Result<Tensor, ModelError>>(
    model: FlashNVEmbedModel,
    kernel: K,
    batch: Batch,
    dtype: DType,
)
    requires
        has_host_matmul(dtype),
        has_host_norm(dtype),
        device_is_cpu(model.device),
        is_ready_model(model.embedding_model, dtype, batch.input_ids@.len()),
        answers_every_call(kernel),
        batch.input_ids@.len() > 0,
        batch.position_ids@.len() == batch.input_ids@.len(),
        batch.input_ids@.len() <= usize::MAX,
        ids_below(
            vector(batch.input_ids@),
            tensor_dims(model.embedding_model.embeddings.weight)[0],
        ),
        ids_below(
            vector(batch.position_ids@),
            tensor_dims(model.embedding_model.cos_cache)[0],
        ),
        ids_below(
            vector(batch.position_ids@),
            tensor_dims(model.embedding_model.sin_cache)[0],
        ),
    ensures
        model.is_encoded(kernel, batch),
{
    let m = model.embedding_model;
    let tokens = batch.input_ids@.len();
    let hidden = m.embeddings.hidden_size as nat;
    assert forall|k: int, place: Placement| 0 <= k < m.layers@.len() implies #[trigger]
        m.layers@[k].attention.is_served(kernel, place) by {
        let attention = m.layers@[k].attention;
        assert forall|
            x: Array,
            call: AttentionCall,
            r: Result<Tensor, ModelError>,
        |
            #![trigger attention.asks(x, place, call), call_ensures(kernel, (call,), r)]
            attention.asks(x, place, call) && attention.takes_back(call.q) && call_ensures(
                kernel,
                (call,),
                r,
            ) implies {
            &&& r is Ok
            &&& attention.takes_back(r->Ok_0)
        } by {}
    }
    assert(m.is_served(kernel));
    assert forall|ids: Tensor, positions: Tensor|
        is_host_vector(ids, batch.input_ids@) && is_host_vector(
            positions,
            batch.position_ids@,
        ) implies #[trigger] m.fits(ids, positions) by {
        assert(tensor_dims(ids) == array(ids).dims && tensor_dtype(ids) == array(ids).dtype);
        assert(tensor_dims(positions) == array(positions).dims);
        assert(tensor_dtype(positions) == array(positions).dtype);
        assert(tensor_dims(ids) =~= seq![tokens]);
        assert(tensor_dims(positions) =~= seq![tokens]);
        lemma_count_two(tensor_dims(m.embeddings.weight));
        lemma_span_two(tokens, hidden);
        assert(m.embeddings.fits(ids));
        lemma_table(m.cos_cache, positions, tokens);
        lemma_table(m.sin_cache, positions, tokens);
        assert forall|k: int, x: Tensor|
            #![trigger m.layers@[k].fits(x)]
            0 <= k < m.layers@.len() && m.is_state(tokens, x) implies m.layers@[k].fits(x) by {
            lemma_layer_fits(m.layers@[k], hidden, dtype, tokens, x);
        }
        assert forall|x: Tensor| m.is_state(tokens, x) implies #[trigger] norm_fits(
            m.norm.weight,
            m.norm.epsilon,
            x,
        ) by {
            lemma_count_two(tensor_dims(x));
        }
    }
}

proof fn lemma_table(table: Tensor, positions: Tensor, tokens: nat)
    requires
        tensor_on_host(table),
        tensor_packed(table),
        is_plain(tensor_dtype(table)),
        tensor_dims(table).len() == 2,
        0 < tensor_dims(table)[0] * tensor_dims(table)[1] <= usize::MAX,
        tokens * tensor_dims(table)[1] <= usize::MAX,
        0 < tokens <= usize::MAX,
        tensor_dims(positions) == seq![tokens],
        ids_below(array(positions), tensor_dims(table)[0]),
    ensures
        BidirectionalMistralModel::is_table(table, positions),
{
    let dims = tensor_dims(table);
    lemma_count_two(dims);
    assert(dims.update(0, tokens) =~= seq![tokens, dims[1]]);
    assert(dims[1] <= dims[0] * dims[1]) by (nonlinear_arith)
        requires
            dims[0] * dims[1] > 0,
    ;
    lemma_span_two(tokens, dims[1]);
}

/// A loaded latent attention was asked for in this configuration, and is in host memory.
pub open spec fn is_ready_latents(
    model: LatentAttentionModel,
    vb: Weights,
    config: NVEmbedConfig,
) -> bool {
    let la = config.latent_attention_config;
    let dtype = weights_dtype(vb);
    &&& call_ensures(
        LatentAttentionModel::load,
        (&vb, &config),
        Ok::<LatentAttentionModel, ModelError>(model),
    )
    &&& is_on_host(model, dtype)
    &&& dtype is F16 || dtype is F32
    &&& la.num_latents_value > 0
    &&& la.latent_dim > 0
    &&& la.hidden_dim == la.latent_dim
    &&& la.num_cross_heads > 0
    &&& la.num_cross_heads <= la.cross_dim_head
}

/// What a latent attention of this configuration computes for this many sequences of this many
/// tokens can be counted.
pub open spec fn is_small_batch(config: NVEmbedConfig, batch: nat, tokens: nat) -> bool {
    let la = config.latent_attention_config;
    let (rows, width) = (la.num_latents_value as nat, la.latent_dim as nat);
    let heads = la.num_cross_heads as nat;
    let inner = (la.cross_dim_head / la.num_cross_heads) as nat * heads;
    &&& batch * rows * (8 * width) <= usize::MAX
    &&& batch * rows * inner <= usize::MAX
    &&& batch * tokens * width <= usize::MAX
    &&& batch * tokens * (2 * inner) <= usize::MAX
    &&& batch * heads * rows * tokens <= usize::MAX
}

proof fn lemma_ready(vb: Weights, config: NVEmbedConfig, batch: nat, tokens: nat)
    requires
        config.latent_attention_config.num_cross_heads > 0,
        config.latent_attention_config.num_cross_heads
            <= config.latent_attention_config.cross_dim_head,
        is_small_batch(config, batch, tokens),
    ensures
        config.latent_attention_config.head_size() > 0,
        is_small(config, batch, tokens),
{
    let (a, n) = (
        config.latent_attention_config.cross_dim_head as int,
        config.latent_attention_config.num_cross_heads as int,
    );
    assert(a / n > 0) by (nonlinear_arith)
        requires
            n > 0,
            n <= a,
    ;
}

/// In host memory, a loaded latent attention pools every batch of sequences of tokens that is as
/// wide as its latents and that can be counted, with and without a mask of one entry per token.
pub proof fn law_loaded_latents_pool_every_batch(
    model: LatentAttentionModel,
    vb: Weights,
    config: NVEmbedConfig,
    states: Tensor,
    mask: Option<Tensor>,
    r: Result<Tensor, ModelError>,
)
    requires
        is_ready_latents(model, vb, config),
        tensor_dims(states).len() == 3,
        0 < tensor_dims(states)[0] <= usize::MAX,
        0 < tensor_dims(states)[1] <= usize::MAX,
        tensor_dims(states)[2] == config.latent_attention_config.latent_dim,
        is_in_host_memory(states, weights_dtype(vb)),
        is_small_batch(config, tensor_dims(states)[0], tensor_dims(states)[1]),
        mask matches Some(m) ==> {
            &&& tensor_dims(m) == seq![tensor_dims(states)[0] * tensor_dims(states)[1]]
            &&& tensor_on_host(m)
            &&& tensor_dtype(m) is U32
        },
        call_ensures(
            LatentAttentionModel::forward,
            (
                &model,
                &states,
                match mask {
                    Some(m) => Some(&m),
                    None => None,
                },
            ),
            r,
        ),
    ensures
        r is Ok,
{
    let (b, t) = (tensor_dims(states)[0], tensor_dims(states)[1]);
    let la = config.latent_attention_config;
    lemma_ready(vb, config, b, t);
    law_stored_model_takes_every_batch(model, vb, config, states);
    assert(tensor_dims(model.latents) == array(model.latents).dims);
    assert(tensor_dims(model.latents) =~= seq![
        la.num_latents_value as nat,
        la.latent_dim as nat,
    ]);
    let given: Option<&Tensor> = match mask {
        Some(m) => Some(&m),
        None => None,
    };
    assert forall|gathered: Tensor| model.is_like_laid_out(b, gathered) implies #[trigger]
        model.can_pool(gathered, given, b as usize, t as usize) by {
        let dims = tensor_dims(gathered);
        assert(dims[0] == b);
        let (rows, width) = (la.num_latents_value as nat, la.latent_dim as nat);
        assert(b * rows * width <= b * rows * (8 * width)) by (nonlinear_arith);
    }
    assert(model.can_pool_all(states, given));
}

/// In host memory, with a kernel that answers every call, every batch is embedded whose lists are
/// of one length, whose tokens and positions are known, whose sequences have tokens, that asks for
/// sequences that it has, and that can be counted.
pub proof fn law_every_known_batch_is_embedded<
    K: Fn(AttentionCall) -> Result<Tensor, ModelError>,
>(
    model: FlashNVEmbedModel,
    kernel: K,
    batch: Batch,
    vb: Weights,
    config: NVEmbedConfig,
    r: Result<(Option<Tensor>, Option<Tensor>), ModelError>,
)
    requires
        is_ready_latents(model.latent_attention_model, vb, config),
        is_ready_model(model.embedding_model, weights_dtype(vb), batch.input_ids@.len()),
        device_is_cpu(model.device),
        is_kernel(kernel),
        answers_every_call(kernel),
        model.embedding_model.embeddings.hidden_size == config.latent_attention_config.latent_dim,
        batch.input_ids@.len() > 0,
        batch.input_ids@.len() <= usize::MAX,
        batch.position_ids@.len() == batch.input_ids@.len(),
        batch.attention_mask@.len() == batch.input_ids@.len(),
        ids_below(
            vector(batch.input_ids@),
            tensor_dims(model.embedding_model.embeddings.weight)[0],
        ),
        ids_below(
            vector(batch.position_ids@),
            tensor_dims(model.embedding_model.cos_cache)[0],
        ),
        ids_below(
            vector(batch.position_ids@),
            tensor_dims(model.embedding_model.sin_cache)[0],
        ),
        batch.cumulative_seq_lengths@.len() > 0,
        forall|k: int|
            0 <= k < batch.cumulative_seq_lengths@.len() - 1 ==> {
                &&& #[trigger] batch.cumulative_seq_lengths@[k]
                    < batch.cumulative_seq_lengths@[k + 1] <= batch.input_ids@.len()
                &&& is_small_batch(
                    config,
                    1,
                    (batch.cumulative_seq_lengths@[k + 1]
                        - batch.cumulative_seq_lengths@[k]) as nat,
                )
            },
        ids_below(
            vector(batch.pooled_indices@),
            (batch.cumulative_seq_lengths@.len() - 1) as nat,
        ),
        (batch.cumulative_seq_lengths@.len() - 1) * config.latent_attention_config.latent_dim
            <= usize::MAX,
        batch.pooled_indices@.len() * config.latent_attention_config.latent_dim <= usize::MAX,
        batch_gave(model, kernel, batch, r),
    ensures
        r is Ok,
{
    let latents = model.latent_attention_model;
    let la = config.latent_attention_config;
    let bounds = batch.cumulative_seq_lengths@;
    let table = model.embedding_model.embeddings;
    lemma_encoded(model, kernel, batch, weights_dtype(vb));
    assert(tensor_dims(latents.latents) == array(latents.latents).dims);
    assert(tensor_dims(latents.latents) =~= seq![
        la.num_latents_value as nat,
        la.latent_dim as nat,
    ]);
    assert forall|k: int| 0 <= k < bounds.len() - 1 implies #[trigger] is_sequence(
        bounds,
        k,
        batch.input_ids@.len(),
    ) && model.fits_sequence(
        table.weight,
        table.hidden_size as nat,
        (bounds[k + 1] - bounds[k]) as nat,
    ) by {
        let len = (bounds[k + 1] - bounds[k]) as nat;
        assert(bounds[k] < bounds[k + 1]);
        lemma_ready(vb, config, 1, len);
        law_stored_latents_take_every_sequence(model, vb, config, table.weight, len);
    }
    assert(model.succeeds(kernel, batch));
    reveal(batch_gave);
    assert(model.is_outcome(kernel, batch, r));
}

} // verus!
