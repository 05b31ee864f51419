//! From which names of a checkpoint the weights of a loaded model come.
use crate::array::{
    countable, double, join, lemma_joined_three, lemma_joined_two, ones_array, zeros_array, Array,
};
use crate::attention::BidirectionalMistralAttention;
use crate::batch::ModelType;
use crate::config::NVEmbedConfig;
use crate::cross_attention::CrossAttention;
use crate::error::ModelError;
use crate::feed_forward::FeedForward;
use crate::latent::LatentAttentionModel;
use crate::layer::BidirectionalMistralLayer;
use crate::layers::{LayerNorm, RMSNorm};
use crate::mistral::{is_encoder_root, layer_stored, BidirectionalMistralModel, RotaryCall};
use crate::mlp::BidirectionalMistralMLP;
use crate::model::FlashNVEmbedModel;
use crate::tensor::{array, device_is_cuda};
use crate::text::{decimal, layer_name};
use crate::weights::{
    holds, holds_matrix, is_below, var_gives, var_has, weights_device, weights_dtype, weights_path,
    weights_source, Weights,
};
use candle_core::{DType, Tensor};
use vstd::prelude::*;

verus! {

/// The checkpoint gave `a` under this name, at this path below `vb`, for these sizes.
pub open spec fn stored_at(
    vb: Weights,
    path: Seq<Seq<char>>,
    name: Seq<char>,
    dims: Seq<nat>,
    a: Array,
) -> bool {
    &&& var_gives(
        weights_source(vb),
        weights_path(vb) + path,
        weights_dtype(vb),
        name,
        dims,
        a,
    )
    &&& a.dims == dims
}

/// The checkpoint gave `a` as the weight at this path below `vb`, a matrix of this size.
pub open spec fn matrix_at(
    vb: Weights,
    path: Seq<Seq<char>>,
    rows: nat,
    columns: nat,
    a: Array,
) -> bool {
    stored_at(vb, path, "weight"@, seq![rows, columns], a)
}

/// `place` is where this path leads from `vb`.
pub open spec fn is_at(vb: Weights, path: Seq<Seq<char>>, place: Weights) -> bool {
    &&& weights_source(place) == weights_source(vb)
    &&& weights_dtype(place) == weights_dtype(vb)
    &&& weights_path(place) == weights_path(vb) + path
}

proof fn lemma_start(vb: Weights)
    ensures
        is_at(vb, seq![], vb),
{
    assert(weights_path(vb) + Seq::<Seq<char>>::empty() =~= weights_path(vb));
}

proof fn lemma_further(
    vb: Weights,
    path: Seq<Seq<char>>,
    place: Weights,
    name: Seq<char>,
    below: Weights,
)
    requires
        is_at(vb, path, place),
        is_below(place, name, below),
    ensures
        is_at(vb, path.push(name), below),
{
    assert(weights_path(vb) + path.push(name) =~= (weights_path(vb) + path).push(name));
}

proof fn lemma_matrix_at(
    vb: Weights,
    path: Seq<Seq<char>>,
    place: Weights,
    layer: Seq<char>,
    rows: nat,
    columns: nat,
    a: Array,
)
    requires
        is_at(vb, path, place),
        holds_matrix(place, layer, rows, columns, a),
    ensures
        matrix_at(vb, path.push(layer), rows, columns, a),
{
    assert(weights_path(vb) + path.push(layer) =~= weights_path(place) + seq![layer]);
}

proof fn lemma_stored_at(
    vb: Weights,
    path: Seq<Seq<char>>,
    place: Weights,
    name: Seq<char>,
    dims: Seq<nat>,
    a: Array,
)
    requires
        is_at(vb, path, place),
        holds(place, seq![], name, dims, a),
    ensures
        stored_at(vb, path, name, dims, a),
{
    assert(weights_path(place) + Seq::<Seq<char>>::empty() =~= weights_path(vb) + path);
}

/// The norm has the weight at this path and this epsilon.
pub open spec fn norm_at(
    vb: Weights,
    path: Seq<Seq<char>>,
    size: nat,
    epsilon: u64,
    norm: RMSNorm,
) -> bool {
    &&& stored_at(vb, path, "weight"@, seq![size], array(norm.weight))
    &&& array(norm.epsilon) == double(epsilon)
}

/// `a`, `b` and `c` are fused into one, one below the other.
pub open spec fn is_stack_of_three(fused: Array, a: Array, b: Array, c: Array) -> bool {
    &&& fused.dims == join(join(a, b, 0), c, 0).dims
    &&& countable(fused.dims) ==> fused == join(join(a, b, 0), c, 0)
}

/// `a` and `b` are fused into one, one below the other.
pub open spec fn is_stack_of_two(fused: Array, a: Array, b: Array) -> bool {
    &&& fused.dims == join(a, b, 0).dims
    &&& countable(fused.dims) ==> fused == join(a, b, 0)
}

/// The queries, keys and values of an attention come from the projections of these names.
pub open spec fn comes_from(
    vb: Weights,
    path: Seq<Seq<char>>,
    config: NVEmbedConfig,
    attention: BidirectionalMistralAttention,
    q: Array,
    k: Array,
    v: Array,
) -> bool {
    let text = config.text_config;
    let hidden = text.hidden_size as nat;
    let head = (text.hidden_size / text.num_attention_heads) as nat;
    let rows = text.num_key_value_heads as nat * head;
    &&& matrix_at(vb, path.push("q_proj"@), hidden, hidden, q)
    &&& matrix_at(vb, path.push("k_proj"@), rows, hidden, k)
    &&& matrix_at(vb, path.push("v_proj"@), rows, hidden, v)
    &&& is_stack_of_three(array(attention.qkv_linear.weight), q, k, v)
}

/// The weights of the attention are at this path, and its numbers are those of the configuration.
pub open spec fn attention_at(
    vb: Weights,
    path: Seq<Seq<char>>,
    config: NVEmbedConfig,
    attention: BidirectionalMistralAttention,
) -> bool {
    let text = config.text_config;
    let hidden = text.hidden_size as nat;
    &&& exists|q: Array, k: Array, v: Array| #[trigger]
        comes_from(vb, path, config, attention, q, k, v)
    &&& matrix_at(vb, path.push("o_proj"@), hidden, hidden, array(attention.o_proj.weight))
    &&& attention.num_attention_heads == text.num_attention_heads
    &&& attention.num_key_value_heads == text.num_key_value_heads
    &&& attention.attention_head_size == text.hidden_size / text.num_attention_heads
    &&& attention.window_size_left == text.sliding_window
}

proof fn lemma_attention_at(
    vb: Weights,
    path: Seq<Seq<char>>,
    place: Weights,
    config: NVEmbedConfig,
    attention: BidirectionalMistralAttention,
)
    requires
        is_at(vb, path, place),
        attention.is_stored(place, config),
        config.text_config.num_attention_heads > 0,
    ensures
        attention_at(vb, path, config, attention),
{
    let hidden = config.text_config.hidden_size as nat;
    let rows = config.text_config.key_value_size();
    let (q, k, v, o) = choose|q: Array, k: Array, v: Array, o: Array|
        {
            &&& #[trigger] holds_matrix(place, "q_proj"@, hidden, hidden, q)
            &&& #[trigger] holds_matrix(place, "k_proj"@, rows, hidden, k)
            &&& #[trigger] holds_matrix(place, "v_proj"@, rows, hidden, v)
            &&& #[trigger] holds_matrix(place, "o_proj"@, hidden, hidden, o)
            &&& attention.is_made_of(q, k, v, o)
        };
    lemma_matrix_at(vb, path, place, "q_proj"@, hidden, hidden, q);
    lemma_matrix_at(vb, path, place, "k_proj"@, rows, hidden, k);
    lemma_matrix_at(vb, path, place, "v_proj"@, rows, hidden, v);
    lemma_matrix_at(vb, path, place, "o_proj"@, hidden, hidden, o);
    lemma_joined_three(q, k, v, 0);
    assert(comes_from(vb, path, config, attention, q, k, v));
}

/// The gating projection of a feed-forward part and its second one come from these names.
pub open spec fn is_gated_by(
    vb: Weights,
    path: Seq<Seq<char>>,
    config: NVEmbedConfig,
    mlp: BidirectionalMistralMLP,
    gate: Array,
    up: Array,
) -> bool {
    let size = config.text_config.intermediate_size as nat;
    let hidden = config.text_config.hidden_size as nat;
    &&& matrix_at(vb, path.push("gate_proj"@), size, hidden, gate)
    &&& matrix_at(vb, path.push("up_proj"@), size, hidden, up)
    &&& is_stack_of_two(array(mlp.gate_up_proj.weight), gate, up)
}

/// The weights of the feed-forward part are at this path.
pub open spec fn mlp_at(
    vb: Weights,
    path: Seq<Seq<char>>,
    config: NVEmbedConfig,
    mlp: BidirectionalMistralMLP,
) -> bool {
    let size = config.text_config.intermediate_size as nat;
    let hidden = config.text_config.hidden_size as nat;
    &&& exists|gate: Array, up: Array| #[trigger] is_gated_by(vb, path, config, mlp, gate, up)
    &&& matrix_at(vb, path.push("down_proj"@), hidden, size, array(mlp.down_proj.weight))
    &&& mlp.act == config.text_config.hidden_act
    &&& mlp.intermediate_size == config.text_config.intermediate_size
}

proof fn lemma_mlp_at(
    vb: Weights,
    path: Seq<Seq<char>>,
    place: Weights,
    config: NVEmbedConfig,
    mlp: BidirectionalMistralMLP,
)
    requires
        is_at(vb, path, place),
        mlp.is_stored(place, config),
    ensures
        mlp_at(vb, path, config, mlp),
{
    let size = config.text_config.intermediate_size as nat;
    let hidden = config.text_config.hidden_size as nat;
    let (gate, up, down) = choose|gate: Array, up: Array, down: Array|
        {
            &&& #[trigger] holds_matrix(place, "gate_proj"@, size, hidden, gate)
            &&& #[trigger] holds_matrix(place, "up_proj"@, size, hidden, up)
            &&& #[trigger] holds_matrix(place, "down_proj"@, hidden, size, down)
            &&& mlp.is_made_of(gate, up, down)
        };
    lemma_matrix_at(vb, path, place, "gate_proj"@, size, hidden, gate);
    lemma_matrix_at(vb, path, place, "up_proj"@, size, hidden, up);
    lemma_matrix_at(vb, path, place, "down_proj"@, hidden, size, down);
    lemma_joined_two(gate, up, 0);
    assert(is_gated_by(vb, path, config, mlp, gate, up));
}

/// The parts of a layer are at these paths.
pub open spec fn layer_at(
    vb: Weights,
    path: Seq<Seq<char>>,
    config: NVEmbedConfig,
    layer: BidirectionalMistralLayer,
) -> bool {
    let hidden = config.text_config.hidden_size as nat;
    let epsilon = config.text_config.rms_norm_eps;
    &&& attention_at(vb, path.push("self_attn"@), config, layer.attention)
    &&& mlp_at(vb, path.push("mlp"@), config, layer.mlp)
    &&& norm_at(vb, path.push("input_layernorm"@), hidden, epsilon, layer.input_layer_norm)
    &&& norm_at(
        vb,
        path.push("post_attention_layernorm"@),
        hidden,
        epsilon,
        layer.post_attention_layer_norm,
    )
}

proof fn lemma_norm_at(
    vb: Weights,
    path: Seq<Seq<char>>,
    place: Weights,
    size: nat,
    epsilon: u64,
    norm: RMSNorm,
)
    requires
        is_at(vb, path, place),
        norm.is_stored(place, size, epsilon),
    ensures
        norm_at(vb, path, size, epsilon, norm),
{
    lemma_stored_at(vb, path, place, "weight"@, seq![size], array(norm.weight));
}

proof fn lemma_layer_at(
    vb: Weights,
    path: Seq<Seq<char>>,
    place: Weights,
    config: NVEmbedConfig,
    layer: BidirectionalMistralLayer,
)
    requires
        is_at(vb, path, place),
        layer.is_stored(place, config),
        config.text_config.num_attention_heads > 0,
    ensures
        layer_at(vb, path, config, layer),
{
    let hidden = config.text_config.hidden_size as nat;
    let epsilon = config.text_config.rms_norm_eps;
    let (attention, mlp, input, post) = choose|
        attention: Weights,
        mlp: Weights,
        input: Weights,
        post: Weights,
    |
        {
            &&& #[trigger] is_below(place, "self_attn"@, attention)
            &&& #[trigger] is_below(place, "mlp"@, mlp)
            &&& #[trigger] is_below(place, "input_layernorm"@, input)
            &&& #[trigger] is_below(place, "post_attention_layernorm"@, post)
            &&& layer.attention.is_stored(attention, config)
            &&& layer.mlp.is_stored(mlp, config)
            &&& layer.input_layer_norm.is_stored(input, hidden, epsilon)
            &&& layer.post_attention_layer_norm.is_stored(post, hidden, epsilon)
        };
    lemma_further(vb, path, place, "self_attn"@, attention);
    lemma_further(vb, path, place, "mlp"@, mlp);
    lemma_further(vb, path, place, "input_layernorm"@, input);
    lemma_further(vb, path, place, "post_attention_layernorm"@, post);
    lemma_attention_at(vb, path.push("self_attn"@), attention, config, layer.attention);
    lemma_mlp_at(vb, path.push("mlp"@), mlp, config, layer.mlp);
    lemma_norm_at(
        vb,
        path.push("input_layernorm"@),
        input,
        hidden,
        epsilon,
        layer.input_layer_norm,
    );
    lemma_norm_at(
        vb,
        path.push("post_attention_layernorm"@),
        post,
        hidden,
        epsilon,
        layer.post_attention_layer_norm,
    );
}

/// A loaded norm has the weight at its place.
pub proof fn law_loaded_norm_has_the_weight_at_its_place(
    vb: Weights,
    size: usize,
    epsilon: u64,
    norm: RMSNorm,
)
    requires
        call_ensures(RMSNorm::load, (&vb, size, epsilon), Ok::<RMSNorm, ModelError>(norm)),
    ensures
        norm_at(vb, seq![], size as nat, epsilon, norm),
{
    lemma_start(vb);
    lemma_norm_at(vb, seq![], vb, size as nat, epsilon, norm);
}

/// A loaded attention has the weights of its four projections, each under its own name.
pub proof fn law_loaded_attention_has_the_weights_of_its_names(
    vb: Weights,
    config: NVEmbedConfig,
    attention: BidirectionalMistralAttention,
)
    requires
        config.text_config.num_attention_heads > 0,
        call_ensures(
            BidirectionalMistralAttention::load,
            (&vb, &config),
            Ok::<BidirectionalMistralAttention, ModelError>(attention),
        ),
    ensures
        attention_at(vb, seq![], config, attention),
{
    lemma_start(vb);
    lemma_attention_at(vb, seq![], vb, config, attention);
}

/// A loaded feed-forward part has the weights of its three projections, each under its own name.
pub proof fn law_loaded_feed_forward_has_the_weights_of_its_names(
    vb: Weights,
    config: NVEmbedConfig,
    mlp: BidirectionalMistralMLP,
)
    requires
        call_ensures(
            BidirectionalMistralMLP::load,
            (&vb, &config),
            Ok::<BidirectionalMistralMLP, ModelError>(mlp),
        ),
    ensures
        mlp_at(vb, seq![], config, mlp),
{
    lemma_start(vb);
    lemma_mlp_at(vb, seq![], vb, config, mlp);
}

/// A loaded layer has its attention, its feed-forward part and its two norms, each from the place
/// of its own name: the norm before the attention from `input_layernorm`, and the norm after it
/// from `post_attention_layernorm`.
pub proof fn law_loaded_layer_has_the_weights_of_its_names(
    vb: Weights,
    config: NVEmbedConfig,
    layer: BidirectionalMistralLayer,
)
    requires
        config.text_config.num_attention_heads > 0,
        call_ensures(
            BidirectionalMistralLayer::load,
            (&vb, &config),
            Ok::<BidirectionalMistralLayer, ModelError>(layer),
        ),
    ensures
        attention_at(vb, seq!["self_attn"@], config, layer.attention),
        mlp_at(vb, seq!["mlp"@], config, layer.mlp),
        stored_at(
            vb,
            seq!["input_layernorm"@],
            "weight"@,
            seq![config.text_config.hidden_size as nat],
            array(layer.input_layer_norm.weight),
        ),
        stored_at(
            vb,
            seq!["post_attention_layernorm"@],
            "weight"@,
            seq![config.text_config.hidden_size as nat],
            array(layer.post_attention_layer_norm.weight),
        ),
        array(layer.input_layer_norm.epsilon) == double(config.text_config.rms_norm_eps),
        array(layer.post_attention_layer_norm.epsilon) == double(config.text_config.rms_norm_eps),
{
    lemma_start(vb);
    lemma_layer_at(vb, seq![], vb, config, layer);
    let none = Seq::<Seq<char>>::empty();
    assert(none.push("self_attn"@) =~= seq!["self_attn"@]);
    assert(none.push("mlp"@) =~= seq!["mlp"@]);
    assert(none.push("input_layernorm"@) =~= seq!["input_layernorm"@]);
    assert(none.push("post_attention_layernorm"@) =~= seq!["post_attention_layernorm"@]);
}

/// A checkpoint that gives the same tensor whenever it is asked for the same name.
pub open spec fn reads_alike(vb: Weights) -> bool {
    forall|path: Seq<Seq<char>>, name: Seq<char>, dims: Seq<nat>, a: Array, b: Array|
        {
            &&& #[trigger] var_gives(weights_source(vb), path, weights_dtype(vb), name, dims, a)
            &&& #[trigger] var_gives(weights_source(vb), path, weights_dtype(vb), name, dims, b)
        } ==> a == b
}

/// The matrix of this name at this place, read by itself, is `t`.
pub open spec fn matrix_was_read(
    vb: Weights,
    layer: &str,
    rows: usize,
    columns: usize,
    t: Tensor,
) -> bool {
    call_ensures(Weights::matrix, (&vb, layer, rows, columns), Ok::<Tensor, ModelError>(t))
}

proof fn lemma_read_alike(
    vb: Weights,
    layer: &str,
    rows: usize,
    columns: usize,
    t: Tensor,
    a: Array,
)
    requires
        reads_alike(vb),
        matrix_was_read(vb, layer, rows, columns, t),
        holds_matrix(vb, layer@, rows as nat, columns as nat, a),
    ensures
        array(t) == a,
{
}

/// The attention of a layer is made of what is read under the names of its four projections: the
/// queries, the keys and the values fused into one, in that order, and the projection back.
pub proof fn law_attention_is_read_from_four_names(
    vb: Weights,
    config: NVEmbedConfig,
    rows: usize,
    q: Tensor,
    k: Tensor,
    v: Tensor,
    o: Tensor,
    attention: BidirectionalMistralAttention,
)
    requires
        reads_alike(vb),
        config.text_config.num_attention_heads > 0,
        rows == config.text_config.num_key_value_heads * (config.text_config.hidden_size
            / config.text_config.num_attention_heads),
        matrix_was_read(
            vb,
            "q_proj",
            config.text_config.hidden_size,
            config.text_config.hidden_size,
            q,
        ),
        matrix_was_read(vb, "k_proj", rows, config.text_config.hidden_size, k),
        matrix_was_read(vb, "v_proj", rows, config.text_config.hidden_size, v),
        matrix_was_read(
            vb,
            "o_proj",
            config.text_config.hidden_size,
            config.text_config.hidden_size,
            o,
        ),
        call_ensures(
            BidirectionalMistralAttention::load,
            (&vb, &config),
            Ok::<BidirectionalMistralAttention, ModelError>(attention),
        ),
    ensures
        is_stack_of_three(
            array(attention.qkv_linear.weight),
            array(q),
            array(k),
            array(v),
        ),
        array(attention.o_proj.weight) == array(o),
        attention.num_attention_heads == config.text_config.num_attention_heads,
        attention.num_key_value_heads == config.text_config.num_key_value_heads,
        attention.attention_head_size == config.text_config.hidden_size
            / config.text_config.num_attention_heads,
        attention.window_size_left == config.text_config.sliding_window,
{
    let hidden = config.text_config.hidden_size as nat;
    let kv = config.text_config.key_value_size();
    assert(kv == rows);
    let (a, b, c, d) = choose|a: Array, b: Array, c: Array, d: Array|
        {
            &&& #[trigger] holds_matrix(vb, "q_proj"@, hidden, hidden, a)
            &&& #[trigger] holds_matrix(vb, "k_proj"@, kv, hidden, b)
            &&& #[trigger] holds_matrix(vb, "v_proj"@, kv, hidden, c)
            &&& #[trigger] holds_matrix(vb, "o_proj"@, hidden, hidden, d)
            &&& attention.is_made_of(a, b, c, d)
        };
    let size = config.text_config.hidden_size;
    lemma_read_alike(vb, "q_proj", size, size, q, a);
    lemma_read_alike(vb, "k_proj", rows, size, k, b);
    lemma_read_alike(vb, "v_proj", rows, size, v, c);
    lemma_read_alike(vb, "o_proj", size, size, o, d);
    lemma_joined_three(a, b, c, 0);
}

/// The feed-forward part of a layer is made of what is read under the names of its three
/// projections: the gating one and the second one fused into one, in that order, and the one back.
pub proof fn law_feed_forward_is_read_from_three_names(
    vb: Weights,
    config: NVEmbedConfig,
    gate: Tensor,
    up: Tensor,
    down: Tensor,
    mlp: BidirectionalMistralMLP,
)
    requires
        reads_alike(vb),
        matrix_was_read(
            vb,
            "gate_proj",
            config.text_config.intermediate_size,
            config.text_config.hidden_size,
            gate,
        ),
        matrix_was_read(
            vb,
            "up_proj",
            config.text_config.intermediate_size,
            config.text_config.hidden_size,
            up,
        ),
        matrix_was_read(
            vb,
            "down_proj",
            config.text_config.hidden_size,
            config.text_config.intermediate_size,
            down,
        ),
        call_ensures(
            BidirectionalMistralMLP::load,
            (&vb, &config),
            Ok::<BidirectionalMistralMLP, ModelError>(mlp),
        ),
    ensures
        is_stack_of_two(array(mlp.gate_up_proj.weight), array(gate), array(up)),
        array(mlp.down_proj.weight) == array(down),
        mlp.act == config.text_config.hidden_act,
        mlp.intermediate_size == config.text_config.intermediate_size,
{
    let size = config.text_config.intermediate_size as nat;
    let hidden = config.text_config.hidden_size as nat;
    let (a, b, c) = choose|a: Array, b: Array, c: Array|
        {
            &&& #[trigger] holds_matrix(vb, "gate_proj"@, size, hidden, a)
            &&& #[trigger] holds_matrix(vb, "up_proj"@, size, hidden, b)
            &&& #[trigger] holds_matrix(vb, "down_proj"@, hidden, size, c)
            &&& mlp.is_made_of(a, b, c)
        };
    let (i, h) = (config.text_config.intermediate_size, config.text_config.hidden_size);
    lemma_read_alike(vb, "gate_proj", i, h, gate, a);
    lemma_read_alike(vb, "up_proj", i, h, up, b);
    lemma_read_alike(vb, "down_proj", h, i, down, c);
    lemma_joined_two(a, b, 0);
}

proof fn lemma_norms_alike(
    vb: Weights,
    name: Seq<char>,
    a: Weights,
    b: Weights,
    size: nat,
    epsilon: u64,
    norm: RMSNorm,
    other: RMSNorm,
)
    requires
        reads_alike(vb),
        is_below(vb, name, a),
        is_below(vb, name, b),
        norm.is_stored(a, size, epsilon),
        other.is_stored(b, size, epsilon),
    ensures
        array(norm.weight) == array(other.weight),
        array(norm.epsilon) == array(other.epsilon),
{
}

/// A norm that was read by itself, from the place of this name.
pub open spec fn norm_was_read(
    vb: Weights,
    name: &str,
    config: NVEmbedConfig,
    place: Weights,
    norm: RMSNorm,
) -> bool {
    &&& is_below(vb, name@, place)
    &&& call_ensures(
        RMSNorm::load,
        (&place, config.text_config.hidden_size, config.text_config.rms_norm_eps),
        Ok::<RMSNorm, ModelError>(norm),
    )
}

/// The norms of a loaded layer are those that are read by themselves: the one before the attention
/// from `input_layernorm`, the one after it from `post_attention_layernorm`.
pub proof fn law_norms_of_a_layer_are_read_from_their_names(
    vb: Weights,
    config: NVEmbedConfig,
    input: Weights,
    post: Weights,
    before: RMSNorm,
    after: RMSNorm,
    layer: BidirectionalMistralLayer,
)
    requires
        reads_alike(vb),
        norm_was_read(vb, "input_layernorm", config, input, before),
        norm_was_read(vb, "post_attention_layernorm", config, post, after),
        call_ensures(
            BidirectionalMistralLayer::load,
            (&vb, &config),
            Ok::<BidirectionalMistralLayer, ModelError>(layer),
        ),
    ensures
        array(layer.input_layer_norm.weight) == array(before.weight),
        array(layer.input_layer_norm.epsilon) == array(before.epsilon),
        array(layer.post_attention_layer_norm.weight) == array(after.weight),
        array(layer.post_attention_layer_norm.epsilon) == array(after.epsilon),
{
    let hidden = config.text_config.hidden_size as nat;
    let epsilon = config.text_config.rms_norm_eps;
    let (attention, mlp, i, p) = choose|
        attention: Weights,
        mlp: Weights,
        i: Weights,
        p: Weights,
    |
        {
            &&& #[trigger] is_below(vb, "self_attn"@, attention)
            &&& #[trigger] is_below(vb, "mlp"@, mlp)
            &&& #[trigger] is_below(vb, "input_layernorm"@, i)
            &&& #[trigger] is_below(vb, "post_attention_layernorm"@, p)
            &&& layer.attention.is_stored(attention, config)
            &&& layer.mlp.is_stored(mlp, config)
            &&& layer.input_layer_norm.is_stored(i, hidden, epsilon)
            &&& layer.post_attention_layer_norm.is_stored(p, hidden, epsilon)
        };
    lemma_norms_alike(
        vb,
        "input_layernorm"@,
        i,
        input,
        hidden,
        epsilon,
        layer.input_layer_norm,
        before,
    );
    lemma_norms_alike(
        vb,
        "post_attention_layernorm"@,
        p,
        post,
        hidden,
        epsilon,
        layer.post_attention_layer_norm,
        after,
    );
}

/// The language model is stored at this path: its tokens, its layers by number, and its norm.
pub open spec fn language_model_at(
    vb: Weights,
    path: Seq<Seq<char>>,
    config: NVEmbedConfig,
    model: BidirectionalMistralModel,
) -> bool {
    let text = config.text_config;
    let hidden = text.hidden_size as nat;
    &&& matrix_at(
        vb,
        path.push("embed_tokens"@),
        text.vocab_size as nat,
        hidden,
        array(model.embeddings.weight),
    )
    &&& model.embeddings.hidden_size == text.hidden_size
    &&& model.layers@.len() == text.num_hidden_layers
    &&& forall|k: int|
        0 <= k < model.layers@.len() ==> layer_at(
            vb,
            path.push("layers."@ + decimal(k as nat)),
            config,
            #[trigger] model.layers@[k],
        )
    &&& norm_at(vb, path.push("norm"@), hidden, text.rms_norm_eps, model.norm)
}

proof fn lemma_language_model_at(
    vb: Weights,
    path: Seq<Seq<char>>,
    root: Weights,
    config: NVEmbedConfig,
    model: BidirectionalMistralModel,
)
    requires
        is_at(vb, path, root),
        model.is_stored(root, config),
        config.text_config.num_attention_heads > 0,
    ensures
        language_model_at(vb, path, config, model),
{
    let text = config.text_config;
    let hidden = text.hidden_size as nat;
    lemma_matrix_at(
        vb,
        path,
        root,
        "embed_tokens"@,
        text.vocab_size as nat,
        hidden,
        array(model.embeddings.weight),
    );
    assert forall|k: int| 0 <= k < model.layers@.len() implies layer_at(
        vb,
        path.push("layers."@ + decimal(k as nat)),
        config,
        #[trigger] model.layers@[k],
    ) by {
        let layer = model.layers@[k];
        assert(layer_stored(layer, k as nat, root, config));
        let place = choose|place: Weights|
            #[trigger] is_below(root, layer_name(k as nat), place) && layer.is_stored(
                place,
                config,
            );
        lemma_further(vb, path, root, layer_name(k as nat), place);
        lemma_layer_at(vb, path.push(layer_name(k as nat)), place, config, layer);
    }
    let place = choose|place: Weights| #[trigger]
        is_below(root, "norm"@, place) && model.norm.is_stored(place, hidden, text.rms_norm_eps);
    lemma_further(vb, path, root, "norm"@, place);
    lemma_norm_at(vb, path.push("norm"@), place, hidden, text.rms_norm_eps, model.norm);
}

/// The language model is stored below `text_encoder` if the checkpoint says that there are tokens,
/// and where it was asked for otherwise.
pub open spec fn language_model_found(
    vb: Weights,
    config: NVEmbedConfig,
    model: BidirectionalMistralModel,
    in_encoder: bool,
) -> bool {
    &&& var_has(
        weights_source(vb),
        weights_path(vb),
        "text_encoder.embed_tokens.weight"@,
        in_encoder,
    )
    &&& if in_encoder {
        language_model_at(vb, seq!["text_encoder"@], config, model)
    } else {
        language_model_at(vb, seq![], config, model)
    }
}

proof fn lemma_language_model_found(
    vb: Weights,
    config: NVEmbedConfig,
    model: BidirectionalMistralModel,
)
    requires
        model.is_found(vb, config),
        config.text_config.num_attention_heads > 0,
    ensures
        exists|in_encoder: bool| #[trigger] language_model_found(vb, config, model, in_encoder),
{
    let root = choose|root: Weights| #[trigger]
        is_encoder_root(vb, root) && model.is_stored(root, config);
    let answer = choose|answer: bool|
        {
            &&& #[trigger] var_has(
                weights_source(vb),
                weights_path(vb),
                "text_encoder.embed_tokens.weight"@,
                answer,
            )
            &&& if answer {
                is_below(vb, "text_encoder"@, root)
            } else {
                root == vb
            }
        };
    lemma_start(vb);
    let none = Seq::<Seq<char>>::empty();
    if answer {
        lemma_further(vb, none, vb, "text_encoder"@, root);
        assert(none.push("text_encoder"@) =~= seq!["text_encoder"@]);
        lemma_language_model_at(vb, seq!["text_encoder"@], root, config, model);
    } else {
        lemma_language_model_at(vb, none, root, config, model);
    }
    assert(language_model_found(vb, config, model, answer));
}

/// `rotary` gave these tables when it was asked for the heads, the base and the positions of this
/// configuration, with the element type and the device of the weights.
pub open spec fn tables_were_made<R: Fn(RotaryCall) -> Result<(Tensor, Tensor), ModelError>>(
    rotary: R,
    vb: Weights,
    config: NVEmbedConfig,
    cos: Tensor,
    sin: Tensor,
) -> bool {
    exists|call: RotaryCall|
        {
            &&& #[trigger] call_ensures(
                rotary,
                (call,),
                Ok::<(Tensor, Tensor), ModelError>((cos, sin)),
            )
            &&& call.head_size == config.text_config.hidden_size
                / config.text_config.num_attention_heads
            &&& call.base == config.text_config.rope_theta
            &&& call.positions == config.text_config.max_position_embeddings
            &&& call.dtype == weights_dtype(vb)
            &&& call.device == weights_device(vb)
        }
}

/// A loaded language model has the weights of its names, the cosines and the sines that `rotary`
/// gave, in this order, and the device of the weights.
pub proof fn law_loaded_language_model_has_the_weights_of_its_names<
    R: Fn(RotaryCall) -> Result<(Tensor, Tensor), ModelError>,
>(vb: Weights, config: NVEmbedConfig, rotary: R, model: BidirectionalMistralModel)
    requires
        config.text_config.num_attention_heads > 0,
        call_ensures(
            BidirectionalMistralModel::load::<R>,
            (&vb, &config, &rotary),
            Ok::<BidirectionalMistralModel, ModelError>(model),
        ),
    ensures
        exists|in_encoder: bool| #[trigger] language_model_found(vb, config, model, in_encoder),
        tables_were_made(rotary, vb, config, model.cos_cache, model.sin_cache),
        model.device == weights_device(vb),
{
    lemma_language_model_found(vb, config, model);
}

/// The cross attention has the weights of these names, for queries and a context of these widths.
pub open spec fn cross_attention_at(
    vb: Weights,
    path: Seq<Seq<char>>,
    config: NVEmbedConfig,
    attention: CrossAttention,
) -> bool {
    let la = config.latent_attention_config;
    let (width, context) = (la.latent_dim as nat, la.hidden_dim as nat);
    let inner = (la.cross_dim_head / la.num_cross_heads) as nat * la.num_cross_heads as nat;
    &&& matrix_at(vb, path.push("to_q"@), inner, width, array(attention.to_q.weight))
    &&& matrix_at(vb, path.push("to_kv"@), inner * 2, context, array(attention.to_kv.weight))
    &&& matrix_at(vb, path.push("to_out"@), width, inner, array(attention.to_out.weight))
    &&& attention.heads == la.num_cross_heads
}

/// The feed-forward part has the weights of these names, for rows of this width.
pub open spec fn feed_forward_at(
    vb: Weights,
    path: Seq<Seq<char>>,
    width: nat,
    ff: FeedForward,
) -> bool {
    &&& matrix_at(vb, path.push("net.0"@), width * 4 * 2, width, array(ff.net_w1.weight))
    &&& matrix_at(vb, path.push("net.2"@), width, width * 4, array(ff.net_w2.weight))
}

/// The norm scales by one and shifts by zero.
pub open spec fn is_new_norm(norm: LayerNorm, size: nat, dtype: DType) -> bool {
    &&& array(norm.weight) == ones_array(size, dtype)
    &&& array(norm.bias) == zeros_array(size, dtype)
    &&& array(norm.epsilon) == double(0x3ee4_f8b5_88e3_68f1)
}

/// The latent attention is stored at this path: the latents, the attention as its first block and
/// the feed-forward part as its second. Its norms are new.
pub open spec fn latent_model_at(
    vb: Weights,
    path: Seq<Seq<char>>,
    config: NVEmbedConfig,
    model: LatentAttentionModel,
) -> bool {
    let la = config.latent_attention_config;
    let width = la.latent_dim as nat;
    let dtype = weights_dtype(vb);
    &&& stored_at(
        vb,
        path,
        "latents"@,
        seq![la.num_latents_value as nat, width],
        array(model.latents),
    )
    &&& cross_attention_at(
        vb,
        path.push("cross_attend_blocks.0.fn"@),
        config,
        model.cross_attention,
    )
    &&& feed_forward_at(
        vb,
        path.push("cross_attend_blocks.1.fn"@),
        width,
        model.feed_forward,
    )
    &&& is_new_norm(model.cross_attend_norm.norm, width, dtype)
    &&& model.cross_attend_norm.context_norm matches Some(norm) && is_new_norm(
        norm,
        la.hidden_dim as nat,
        dtype,
    )
    &&& is_new_norm(model.ff_norm.norm, width, dtype)
    &&& model.ff_norm.context_norm is None
    &&& model.output_normalize == la.output_normalize
}

proof fn lemma_latent_model_at(
    vb: Weights,
    path: Seq<Seq<char>>,
    place: Weights,
    config: NVEmbedConfig,
    model: LatentAttentionModel,
)
    requires
        is_at(vb, path, place),
        model.is_stored(place, config),
        config.latent_attention_config.num_cross_heads > 0,
    ensures
        latent_model_at(vb, path, config, model),
{
    let la = config.latent_attention_config;
    let (width, context) = (la.latent_dim as nat, la.hidden_dim as nat);
    let (heads, size) = (la.num_cross_heads as nat, la.head_size());
    let inner = size * heads;
    let (attention, ff) = (model.cross_attention, model.feed_forward);
    lemma_stored_at(
        vb,
        path,
        place,
        "latents"@,
        seq![la.num_latents_value as nat, width],
        array(model.latents),
    );
    let first = choose|first: Weights| #[trigger]
        is_below(place, "cross_attend_blocks.0.fn"@, first) && attention.is_stored(
            first,
            width,
            context,
            heads,
            size,
        );
    let second = choose|second: Weights| #[trigger]
        is_below(place, "cross_attend_blocks.1.fn"@, second) && ff.is_stored(second, width, 4);
    let (p, r) = (
        path.push("cross_attend_blocks.0.fn"@),
        path.push("cross_attend_blocks.1.fn"@),
    );
    lemma_further(vb, path, place, "cross_attend_blocks.0.fn"@, first);
    lemma_further(vb, path, place, "cross_attend_blocks.1.fn"@, second);
    lemma_matrix_at(vb, p, first, "to_q"@, inner, width, array(attention.to_q.weight));
    lemma_matrix_at(vb, p, first, "to_kv"@, inner * 2, context, array(attention.to_kv.weight));
    lemma_matrix_at(vb, p, first, "to_out"@, width, inner, array(attention.to_out.weight));
    lemma_matrix_at(vb, r, second, "net.0"@, width * 4 * 2, width, array(ff.net_w1.weight));
    lemma_matrix_at(vb, r, second, "net.2"@, width, width * 4, array(ff.net_w2.weight));
}

/// A loaded latent attention has the weights of its names, and new norms.
pub proof fn law_loaded_latent_attention_has_the_weights_of_its_names(
    vb: Weights,
    config: NVEmbedConfig,
    model: LatentAttentionModel,
)
    requires
        config.latent_attention_config.num_cross_heads > 0,
        call_ensures(
            LatentAttentionModel::load,
            (&vb, &config),
            Ok::<LatentAttentionModel, ModelError>(model),
        ),
    ensures
        latent_model_at(vb, seq![], config, model),
{
    lemma_start(vb);
    lemma_latent_model_at(vb, seq![], vb, config, model);
}

/// A loaded embedding model has its language model where that is found, its latent attention below
/// `latent_attention_model`, masks instructions unless it is told not to, and has the device of the
/// weights.
pub proof fn law_loaded_embedding_model_has_the_weights_of_its_names<
    R: Fn(RotaryCall) -> Result<(Tensor, Tensor), ModelError>,
>(
    vb: Weights,
    config: NVEmbedConfig,
    model_type: ModelType,
    rotary: R,
    model: FlashNVEmbedModel,
)
    requires
        config.text_config.num_attention_heads > 0,
        config.latent_attention_config.num_cross_heads > 0,
        call_ensures(
            FlashNVEmbedModel::load::<R>,
            (&vb, &config, model_type, &rotary),
            Ok::<FlashNVEmbedModel, ModelError>(model),
        ),
    ensures
        exists|in_encoder: bool| #[trigger]
            language_model_found(vb, config, model.embedding_model, in_encoder),
        tables_were_made(
            rotary,
            vb,
            config,
            model.embedding_model.cos_cache,
            model.embedding_model.sin_cache,
        ),
        latent_model_at(
            vb,
            seq!["latent_attention_model"@],
            config,
            model.latent_attention_model,
        ),
        model.is_mask_instruction == (config.is_mask_instruction != Some(false)),
        model.device == weights_device(vb),
        model.embedding_model.device == weights_device(vb),
        device_is_cuda(weights_device(vb)),
        weights_dtype(vb) is F16,
        model_type is Embedding,
{
    lemma_language_model_found(vb, config, model.embedding_model);
    let place = choose|place: Weights| #[trigger]
        is_below(vb, "latent_attention_model"@, place) && model.latent_attention_model.is_stored(
            place,
            config,
        );
    lemma_start(vb);
    let none = Seq::<Seq<char>>::empty();
    lemma_further(vb, none, vb, "latent_attention_model"@, place);
    assert(none.push("latent_attention_model"@) =~= seq!["latent_attention_model"@]);
    lemma_latent_model_at(
        vb,
        seq!["latent_attention_model"@],
        place,
        config,
        model.latent_attention_model,
    );
}

/// What cannot be loaded is refused for the first reason that holds: the device, the element type,
/// the purpose.
pub proof fn law_loading_is_refused_for_the_first_reason<
    R: Fn(RotaryCall) -> Result<(Tensor, Tensor), ModelError>,
>(
    vb: Weights,
    config: NVEmbedConfig,
    model_type: ModelType,
    rotary: R,
    r: Result<FlashNVEmbedModel, ModelError>,
)
    requires
        call_ensures(FlashNVEmbedModel::load::<R>, (&vb, &config, model_type, &rotary), r),
    ensures
        !device_is_cuda(weights_device(vb)) ==> r matches Err(ModelError::RequiresCuda),
        device_is_cuda(weights_device(vb)) && !(weights_dtype(vb) is F16)
            ==> r matches Err(ModelError::RequiresF16),
        device_is_cuda(weights_device(vb)) && weights_dtype(vb) is F16 && model_type is Classifier
            ==> r matches Err(ModelError::ClassifierNotSupported),
{
}

} // verus!
