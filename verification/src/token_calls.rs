//! How calls of the language model and of its parts relate to each other.
//!
//! Every law speaks of what calls gave. Where a law compares two ways to the same outcome it asks
//! for operations that do not round, since a floating-point operation may round differently from
//! one call to the next.
use crate::array::{
    count, in_bounds, is_flattened, is_reshape, join, joinable, law_narrowing_twice,
    law_narrowing_undoes_joining, lemma_count_three, lemma_count_two, lemma_join_well_formed,
    narrowed, picked, position, scalar_bits, Array,
};
use crate::attention::{
    is_kernel, placement, AttentionCall, BidirectionalMistralAttention, Placement,
};
use crate::config::HiddenAct;
use crate::error::ModelError;
use crate::exact::{
    lemma_add_same, lemma_linear_same, lemma_mul_same, lemma_rms_norm_shares, lemma_same_shares,
    lemma_same_tensors, lemma_shares_same, linear_maps_add_up, linear_works_feature_by_feature,
    products_distribute_to_the_right, same, weights_add_up, works_slice_by_slice,
};
use crate::layer::BidirectionalMistralLayer;
use crate::layers::{pick, rms_run, Embedding, Linear, RMSNorm};
use crate::mistral::BidirectionalMistralModel;
use crate::mlp::{activated, mlp_run, mlp_steps, BidirectionalMistralMLP};
use crate::ops::{linear_gives, rms_norm_gives};
use crate::rows::{index_at, lemma_index_at, lemma_position_bound, run};
use crate::tensor::{add_gives, array, tensor_dims, tensor_dtype};
use crate::token_laws::{
    are_numbers, has_full_heads, has_full_layers, law_feed_forward_acts_row_by_row,
    lemma_activated_shares, lemma_finishes, lemma_mlp_dims, lemma_projects, lemma_rms_shares,
};
use candle_core::Tensor;
use vstd::prelude::*;

verus! {

/// The activation of a configuration, called on `x`, gave `out`.
pub open spec fn activation_gave(act: HiddenAct, x: Tensor, out: Tensor) -> bool {
    match act {
        HiddenAct::Gelu => call_ensures(Tensor::gelu, (&x,), Ok::<Tensor, candle_core::Error>(out)),
        HiddenAct::Relu => call_ensures(Tensor::relu, (&x,), Ok::<Tensor, candle_core::Error>(out)),
        HiddenAct::Swiglu => call_ensures(
            Tensor::silu,
            (&x,),
            Ok::<Tensor, candle_core::Error>(out),
        ),
    }
}

/// The linear map, called on `x`, gave `out`.
pub open spec fn linear_gave(map: Linear, x: Tensor, out: Tensor) -> bool {
    call_ensures(Linear::forward, (&map, &x), Ok::<Tensor, ModelError>(out))
}

/// The feed-forward part, called on `x`, gave `out`.
pub open spec fn mlp_gave(mlp: BidirectionalMistralMLP, x: Tensor, out: Tensor) -> bool {
    call_ensures(BidirectionalMistralMLP::forward, (&mlp, &x), Ok::<Tensor, ModelError>(out))
}

/// Tensors as candle adds them up.
pub open spec fn add_gave(x: Tensor, y: Tensor, out: Tensor) -> bool {
    call_ensures(Tensor::add, (&x, &y), Ok::<Tensor, candle_core::Error>(out))
}

/// Tensors as candle multiplies them.
pub open spec fn mul_gave(x: Tensor, y: Tensor, out: Tensor) -> bool {
    call_ensures(Tensor::mul, (&x, &y), Ok::<Tensor, candle_core::Error>(out))
}

proof fn lemma_activated_same(act: HiddenAct, x: Array, o: Array, y: Array, p: Array)
    requires
        works_slice_by_slice(),
        activated(act, x, o),
        activated(act, y, p),
        same(x, y),
        x.dims.len() > 0,
        o.dims == x.dims,
        p.dims == x.dims,
    ensures
        same(o, p),
{
    let all = run(0, x.dims[0]);
    lemma_same_shares(x, y, 0);
    lemma_activated_shares(act, x, o, y, p, all, all);
    lemma_shares_same(o, p, 0);
}

/// A gated feed-forward part whose first two weights were fused gives what its three projections
/// give one by one: the activated outcome of the first, times the outcome of the second, through
/// the third.
pub proof fn law_fused_feed_forward_is_its_projections(
    mlp: BidirectionalMistralMLP,
    gate: Linear,
    up: Linear,
    down: Linear,
    x: Tensor,
    gated: Tensor,
    activated_gate: Tensor,
    upped: Tensor,
    product: Tensor,
    expected: Tensor,
    out: Tensor,
)
    requires
        works_slice_by_slice(),
        linear_works_feature_by_feature(),
        tensor_dims(x).len() == 2,
        tensor_dims(gate.weight).len() == 2,
        tensor_dims(up.weight) == tensor_dims(gate.weight),
        mlp.intermediate_size == tensor_dims(gate.weight)[0],
        array(gate.weight).dtype == array(up.weight).dtype,
        array(mlp.gate_up_proj.weight) == join(array(gate.weight), array(up.weight), 0),
        array(mlp.down_proj.weight) == array(down.weight),
        linear_gave(gate, x, gated),
        activation_gave(mlp.act, gated, activated_gate),
        linear_gave(up, x, upped),
        mul_gave(activated_gate, upped, product),
        linear_gave(down, product, expected),
        mlp_gave(mlp, x, out),
    ensures
        array(out) == array(expected),
{
    let size = mlp.intermediate_size as nat;
    let (g, u) = (array(gate.weight), array(up.weight));
    let fused = array(mlp.gate_up_proj.weight);
    assert(tensor_dims(mlp.gate_up_proj.weight) == fused.dims);
    assert(tensor_dims(mlp.down_proj.weight) == array(down.weight).dims);
    let (both, gate2, product2) = choose|both: Array, gate2: Array, product2: Array| #[trigger]
        mlp_steps(mlp, array(x), both, gate2, product2, array(out));
    assert(joinable(g, u, 0));
    law_narrowing_undoes_joining(g, u, 0);
    assert(fused.dims.len() == 2 && fused.dims[0] == 2 * size);
    assert(both.dims =~= array(x).dims.drop_last().push(fused.dims[0]));
    let (first, second) = (narrowed(both, 1, 0, size), narrowed(both, 1, size, size));
    assert(linear_gives(narrowed(fused, 0, 0, size), array(x), first));
    assert(linear_gives(narrowed(fused, 0, size, size), array(x), second));
    assert(same(array(x), array(x)));
    assert(first.dims =~= array(gated).dims);
    assert(second.dims =~= array(upped).dims);
    lemma_linear_same(g, array(x), first, array(x), array(gated));
    lemma_linear_same(u, array(x), second, array(x), array(upped));
    assert(gate2.dims =~= first.dims);
    lemma_activated_same(mlp.act, first, gate2, array(gated), array(activated_gate));
    lemma_mul_same(
        gate2,
        second,
        product2,
        array(activated_gate),
        array(upped),
        array(product),
    );
    assert(array(out).dims =~= array(expected).dims);
    lemma_linear_same(array(down.weight), product2, array(out), array(product), array(expected));
    lemma_same_tensors(out, expected);
}

/// What a feed-forward part keeps of another one: its activation, its gate and the projection back.
pub open spec fn shares_gate(a: BidirectionalMistralMLP, b: BidirectionalMistralMLP) -> bool {
    let size = a.intermediate_size as nat;
    let (w, v) = (array(a.gate_up_proj.weight), array(b.gate_up_proj.weight));
    &&& b.act == a.act
    &&& b.intermediate_size == a.intermediate_size
    &&& array(b.down_proj.weight) == array(a.down_proj.weight)
    &&& w.dims.len() == 2
    &&& w.dims[0] == 2 * size
    &&& v.dims == w.dims
    &&& narrowed(w, 0, 0, size) == narrowed(v, 0, 0, size)
}

/// The gated feed-forward part is additive in its second projection, and not in its gate: with one
/// gate, projections that add up give outcomes that add up.
pub proof fn law_feed_forward_is_additive_in_its_second_projection(
    a: BidirectionalMistralMLP,
    b: BidirectionalMistralMLP,
    sum: BidirectionalMistralMLP,
    x: Tensor,
    of_a: Tensor,
    of_b: Tensor,
    of_sum: Tensor,
)
    requires
        works_slice_by_slice(),
        linear_works_feature_by_feature(),
        weights_add_up(),
        linear_maps_add_up(),
        products_distribute_to_the_right(),
        tensor_dims(x).len() == 2,
        shares_gate(a, b),
        shares_gate(a, sum),
        add_gives(
            narrowed(
                array(a.gate_up_proj.weight),
                0,
                a.intermediate_size as nat,
                a.intermediate_size as nat,
            ),
            narrowed(
                array(b.gate_up_proj.weight),
                0,
                a.intermediate_size as nat,
                a.intermediate_size as nat,
            ),
            narrowed(
                array(sum.gate_up_proj.weight),
                0,
                a.intermediate_size as nat,
                a.intermediate_size as nat,
            ),
        ),
        mlp_gave(a, x, of_a),
        mlp_gave(b, x, of_b),
        mlp_gave(sum, x, of_sum),
    ensures
        add_gives(array(of_a), array(of_b), array(of_sum)),
{
    let size = a.intermediate_size as nat;
    let ax = array(x);
    let (w, v, u) = (
        array(a.gate_up_proj.weight),
        array(b.gate_up_proj.weight),
        array(sum.gate_up_proj.weight),
    );
    let (wa, wb, ws) = (
        narrowed(w, 0, size, size),
        narrowed(v, 0, size, size),
        narrowed(u, 0, size, size),
    );
    let (both, gate, product) = lemma_parts(a, x, of_a);
    let (both2, gate2, product2) = lemma_parts(b, x, of_b);
    let (both3, gate3, product3) = lemma_parts(sum, x, of_sum);
    assert(same(ax, ax));
    let (f, f2, f3) = (
        narrowed(both, 1, 0, size),
        narrowed(both2, 1, 0, size),
        narrowed(both3, 1, 0, size),
    );
    let (s, s2, s3) = (
        narrowed(both, 1, size, size),
        narrowed(both2, 1, size, size),
        narrowed(both3, 1, size, size),
    );
    let g = narrowed(w, 0, 0, size);
    lemma_linear_same(g, ax, f, ax, f2);
    lemma_linear_same(g, ax, f, ax, f3);
    lemma_activated_same(a.act, f, gate, f2, gate2);
    lemma_activated_same(a.act, f, gate, f3, gate3);
    assert(linear_gives(wa, ax, s) && linear_gives(wb, ax, s2) && linear_gives(ws, ax, s3));
    assert(add_gives(s, s2, s3));
    assert(add_gives(product, product2, product3));
    let down = array(a.down_proj.weight);
    assert(same(down, down));
    assert(linear_gives(down, product, array(of_a)));
    assert(linear_gives(down, product2, array(of_b)));
    assert(linear_gives(down, product3, array(of_sum)));
}

/// The outcomes of the projections inside of a call of the feed-forward part.
proof fn lemma_parts(mlp: BidirectionalMistralMLP, x: Tensor, out: Tensor) -> (r: (
    Array,
    Array,
    Array,
))
    requires
        linear_works_feature_by_feature(),
        tensor_dims(x).len() == 2,
        array(mlp.gate_up_proj.weight).dims.len() == 2,
        array(mlp.gate_up_proj.weight).dims[0] == 2 * mlp.intermediate_size,
        mlp_gave(mlp, x, out),
    ensures
        mlp_steps(mlp, array(x), r.0, r.1, r.2, array(out)),
        r.0.dims == seq![tensor_dims(x)[0], 2 * mlp.intermediate_size as nat],
        r.1.dims == seq![tensor_dims(x)[0], mlp.intermediate_size as nat],
        ({
            let size = mlp.intermediate_size as nat;
            let w = array(mlp.gate_up_proj.weight);
            &&& linear_gives(narrowed(w, 0, 0, size), array(x), narrowed(r.0, 1, 0, size))
            &&& linear_gives(narrowed(w, 0, size, size), array(x), narrowed(r.0, 1, size, size))
            &&& narrowed(r.0, 1, 0, size).dims == r.1.dims
            &&& narrowed(r.0, 1, size, size).dims == r.1.dims
        }),
{
    let size = mlp.intermediate_size as nat;
    let w = array(mlp.gate_up_proj.weight);
    assert(tensor_dims(mlp.gate_up_proj.weight) == w.dims);
    let (both, gate, product) = choose|both: Array, gate: Array, product: Array| #[trigger]
        mlp_steps(mlp, array(x), both, gate, product, array(out));
    assert(both.dims =~= seq![tensor_dims(x)[0], 2 * size]);
    assert(both.dims =~= array(x).dims.drop_last().push(w.dims[0]));
    assert(gate.dims =~= seq![tensor_dims(x)[0], size]);
    assert(narrowed(both, 1, 0, size).dims =~= gate.dims);
    assert(narrowed(both, 1, size, size).dims =~= gate.dims);
    assert(linear_gives(narrowed(w, 0, 0, size), array(x), narrowed(both, 1, 0, size)));
    assert(linear_gives(narrowed(w, 0, size, size), array(x), narrowed(both, 1, size, size)));
    (both, gate, product)
}

/// The norm, called on `x` and a residual, gave this norm and this sum.
pub open spec fn rms_gave(
    norm: RMSNorm,
    x: Tensor,
    residual: Option<Tensor>,
    normed: Tensor,
    sum: Tensor,
) -> bool {
    call_ensures(
        RMSNorm::forward,
        (
            &norm,
            &x,
            match residual {
                Some(r) => Some(&r),
                None => None,
            },
        ),
        Ok::<(Tensor, Tensor), ModelError>((normed, sum)),
    )
}

/// The residual is added before anything else is done: the norm of rows with a residual is the norm
/// of the sum of the two, and that sum is handed on.
pub proof fn law_norm_adds_the_residual_first(
    norm: RMSNorm,
    x: Tensor,
    residual: Tensor,
    normed: Tensor,
    sum: Tensor,
    added: Tensor,
    expected: Tensor,
    unchanged: Tensor,
)
    requires
        works_slice_by_slice(),
        tensor_dims(x).len() == 2,
        norm.norms(tensor_dims(x)[1]),
        rms_gave(norm, x, Some(residual), normed, sum),
        add_gave(x, residual, added),
        rms_gave(norm, added, None, expected, unchanged),
    ensures
        array(sum) == array(added),
        array(normed) == array(expected),
        array(unchanged) == array(added),
{
    assert(same(array(x), array(x)) && same(array(residual), array(residual)));
    lemma_add_same(
        array(x),
        array(residual),
        array(sum),
        array(x),
        array(residual),
        array(added),
    );
    lemma_same_tensors(sum, added);
    let all = run(0, tensor_dims(x)[0]);
    lemma_same_shares(array(sum), array(added), 0);
    lemma_rms_norm_shares(
        array(norm.weight),
        scalar_bits(array(norm.epsilon)),
        array(sum),
        array(normed),
        array(added),
        array(expected),
        all,
        all,
        0,
    );
    lemma_shares_same(array(normed), array(expected), 0);
    lemma_same_tensors(normed, expected);
}

/// Two calls of a kernel say the same.
pub open spec fn is_same_call(a: AttentionCall, b: AttentionCall) -> bool {
    &&& array(a.q) == array(b.q)
    &&& array(a.k) == array(b.k)
    &&& array(a.v) == array(b.v)
    &&& array(a.cos) == array(b.cos)
    &&& array(a.sin) == array(b.sin)
    &&& array(a.cu_seqlens) == array(b.cu_seqlens)
    &&& array(a.softmax_scale) == array(b.softmax_scale)
    &&& a.max_s == b.max_s
    &&& a.is_causal == b.is_causal
    &&& a.window_size_left == b.window_size_left
}

/// A kernel that gives the same whenever it is asked the same.
pub open spec fn answers_alike<K: Fn(AttentionCall) -> Result<Tensor, ModelError>>(
    kernel: K,
) -> bool {
    forall|a: AttentionCall, b: AttentionCall, x: Tensor, y: Tensor|
        {
            &&& #[trigger] call_ensures(kernel, (a,), Ok::<Tensor, ModelError>(x))
            &&& #[trigger] call_ensures(kernel, (b,), Ok::<Tensor, ModelError>(y))
            &&& is_same_call(a, b)
        } ==> array(x) == array(y)
}

proof fn lemma_narrowed_equal(a: Array, b: Array, start: nat, len: nat)
    requires
        same(a, b),
        a.dims.len() == 3,
        start + len <= a.dims[1],
    ensures
        narrowed(a, 1, start, len) == narrowed(b, 1, start, len),
{
    let (x, y) = (narrowed(a, 1, start, len), narrowed(b, 1, start, len));
    assert forall|i: Seq<nat>| in_bounds(i, x.dims) implies x.cells[i] == y.cells[i] by {
        assert(i[0] < x.dims[0] && i[1] < x.dims[1] && i[2] < x.dims[2]);
        let j = i.update(1, i[1] + start);
        assert(in_bounds(j, a.dims));
    }
    assert(x.cells =~= y.cells);
}

pub(crate) proof fn lemma_view_same(a: Array, x: Array, b: Array, y: Array)
    requires
        same(a, b),
        is_reshape(a, x),
        is_reshape(b, y),
        x.dims == y.dims,
    ensures
        same(x, y),
{
    assert forall|i: Seq<nat>| #[trigger] in_bounds(i, x.dims) implies x.cells[i]
        == y.cells[i] by {
        lemma_position_bound(i, x.dims);
        let p = position(i, x.dims);
        let j = index_at(p, a.dims);
        lemma_index_at(p, a.dims);
        assert(in_bounds(j, a.dims));
        assert(x.cells[i] == a.cells[j]);
        assert(y.cells[i] == b.cells[j]);
    }
}

/// What the attention asks for the same states at the same positions is the same.
proof fn lemma_asks_same(
    attention: BidirectionalMistralAttention,
    x: Array,
    y: Array,
    place: Placement,
    a: AttentionCall,
    b: AttentionCall,
)
    requires
        works_slice_by_slice(),
        attention.asks(x, place, a),
        attention.asks(y, place, b),
        same(x, y),
        x.dims.len() == 2,
        has_full_heads(attention, x.dims[0]),
    ensures
        is_same_call(a, b),
        array(a.q).dims == seq![
            x.dims[0],
            attention.num_attention_heads as nat,
            attention.attention_head_size as nat,
        ],
{
    let (projected, heads) = lemma_projects(attention, x, place, a);
    let (projected2, heads2) = lemma_projects(attention, y, place, b);
    lemma_linear_same(array(attention.qkv_linear.weight), x, projected, y, projected2);
    lemma_view_same(projected, heads, projected2, heads2);
    let (q, kv) = (
        attention.num_attention_heads as nat,
        attention.num_key_value_heads as nat,
    );
    lemma_narrowed_equal(heads, heads2, 0, q);
    lemma_narrowed_equal(heads, heads2, q, kv);
    lemma_narrowed_equal(heads, heads2, q + kv, kv);
    assert(array(a.q).dims =~= seq![x.dims[0], q, attention.attention_head_size as nat]);
}

/// What is made of the same answer of the kernel is the same.
proof fn lemma_finishes_same(
    attention: BidirectionalMistralAttention,
    tokens: nat,
    attended: Tensor,
    attended2: Tensor,
    call: AttentionCall,
    out: Array,
    out2: Array,
)
    requires
        works_slice_by_slice(),
        attention.finishes(array(attended), out),
        attention.finishes(array(attended2), out2),
        array(attended) == array(attended2),
        tensor_dims(attended) == tensor_dims(call.q),
        array(call.q).dims == seq![
            tokens,
            attention.num_attention_heads as nat,
            attention.attention_head_size as nat,
        ],
        has_full_heads(attention, tokens),
    ensures
        same(out, out2),
        out.dims == seq![tokens, attention.o_proj.outputs()],
{
    assert(tensor_dims(attended2) == array(attended2).dims);
    assert(tensor_dims(attended) == array(attended).dims);
    let flat = lemma_finishes(attention, tokens, attended, call, out);
    let flat2 = lemma_finishes(attention, tokens, attended2, call, out2);
    assert(same(array(attended), array(attended2)));
    lemma_view_same(array(attended), flat, array(attended2), flat2);
    assert(out.dims =~= seq![tokens, attention.o_proj.outputs()]);
    assert(out2.dims =~= seq![tokens, attention.o_proj.outputs()]);
    lemma_linear_same(array(attention.o_proj.weight), flat, out, flat2, out2);
}

pub(crate) proof fn lemma_attends_same<K: Fn(AttentionCall) -> Result<Tensor, ModelError>>(
    attention: BidirectionalMistralAttention,
    kernel: K,
    x: Array,
    y: Array,
    place: Placement,
    out: Array,
    out2: Array,
)
    requires
        works_slice_by_slice(),
        is_kernel(kernel),
        answers_alike(kernel),
        attention.attends(kernel, x, place, out),
        attention.attends(kernel, y, place, out2),
        same(x, y),
        x.dims.len() == 2,
        has_full_heads(attention, x.dims[0]),
    ensures
        same(out, out2),
        out.dims == seq![x.dims[0], attention.o_proj.outputs()],
{
    let (call, attended) = choose|call: AttentionCall, attended: Tensor|
        {
            &&& attention.asks(x, place, call)
            &&& #[trigger] call_ensures(kernel, (call,), Ok::<Tensor, ModelError>(attended))
            &&& attention.finishes(array(attended), out)
        };
    let (call2, attended2) = choose|call: AttentionCall, attended: Tensor|
        {
            &&& attention.asks(y, place, call)
            &&& #[trigger] call_ensures(kernel, (call,), Ok::<Tensor, ModelError>(attended))
            &&& attention.finishes(array(attended), out2)
        };
    lemma_asks_same(attention, x, y, place, call, call2);
    lemma_finishes_same(attention, x.dims[0], attended, attended2, call, out, out2);
}

/// The attention, called on these states, gave `out`.
pub open spec fn attention_gave<K: Fn(AttentionCall) -> Result<Tensor, ModelError>>(
    attention: BidirectionalMistralAttention,
    kernel: K,
    x: Tensor,
    cu_seqlens: Tensor,
    cos: Tensor,
    sin: Tensor,
    max_s: usize,
    out: Tensor,
) -> bool {
    call_ensures(
        BidirectionalMistralAttention::forward::<K>,
        (&attention, &kernel, &x, &cu_seqlens, &cos, &sin, max_s),
        Ok::<Tensor, ModelError>(out),
    )
}

/// What the attention asked of the kernel for these states.
pub open spec fn attention_asked(
    attention: BidirectionalMistralAttention,
    x: Tensor,
    cu_seqlens: Tensor,
    cos: Tensor,
    sin: Tensor,
    max_s: usize,
    call: AttentionCall,
) -> bool {
    call_ensures(
        BidirectionalMistralAttention::ask,
        (&attention, &x, &cu_seqlens, &cos, &sin, max_s),
        Ok::<AttentionCall, ModelError>(call),
    )
}

/// The attention is one call of the kernel, between what prepares it and what finishes it.
pub proof fn law_attention_is_one_call_of_the_kernel<
    K: Fn(AttentionCall) -> Result<Tensor, ModelError>,
>(
    attention: BidirectionalMistralAttention,
    kernel: K,
    x: Tensor,
    cu_seqlens: Tensor,
    cos: Tensor,
    sin: Tensor,
    max_s: usize,
    call: AttentionCall,
    attended: Tensor,
    expected: Tensor,
    out: Tensor,
)
    requires
        works_slice_by_slice(),
        is_kernel(kernel),
        answers_alike(kernel),
        tensor_dims(x).len() == 2,
        has_full_heads(attention, tensor_dims(x)[0]),
        attention_asked(attention, x, cu_seqlens, cos, sin, max_s, call),
        call_ensures(kernel, (call,), Ok::<Tensor, ModelError>(attended)),
        call_ensures(
            BidirectionalMistralAttention::finish,
            (&attention, &attended),
            Ok::<Tensor, ModelError>(expected),
        ),
        attention_gave(attention, kernel, x, cu_seqlens, cos, sin, max_s, out),
    ensures
        array(out) == array(expected),
{
    let place = placement(cu_seqlens, cos, sin, max_s);
    let (call2, attended2) = choose|call: AttentionCall, attended: Tensor|
        {
            &&& attention.asks(array(x), place, call)
            &&& #[trigger] call_ensures(kernel, (call,), Ok::<Tensor, ModelError>(attended))
            &&& attention.finishes(array(attended), array(out))
        };
    assert(same(array(x), array(x)));
    lemma_asks_same(attention, array(x), array(x), place, call, call2);
    lemma_finishes_same(
        attention,
        tensor_dims(x)[0],
        attended,
        attended2,
        call,
        array(expected),
        array(out),
    );
    lemma_same_tensors(expected, out);
}

/// The kernel is told of the angles, the bounds and the longest sequence that the caller gave, and
/// of the scale and the window of the attention; tokens attend in both directions.
pub proof fn law_kernel_is_told_what_the_caller_gave(
    attention: BidirectionalMistralAttention,
    x: Tensor,
    cu_seqlens: Tensor,
    cos: Tensor,
    sin: Tensor,
    max_s: usize,
    call: AttentionCall,
)
    requires
        attention_asked(attention, x, cu_seqlens, cos, sin, max_s, call),
    ensures
        array(call.cos) == array(cos),
        array(call.sin) == array(sin),
        array(call.cu_seqlens) == array(cu_seqlens),
        call.max_s == max_s,
        array(call.softmax_scale) == array(attention.softmax_scale),
        call.window_size_left == attention.window_size_left,
        !call.is_causal,
{
}

pub(crate) proof fn lemma_position_one(t: nat, dims: Seq<nat>)
    requires
        dims.len() == 1,
    ensures
        position(seq![t], dims) == t,
{
    reveal_with_fuel(position, 2);
    assert(seq![t].drop_last() =~= Seq::empty());
    assert(dims.drop_last() =~= Seq::empty());
    assert(0 * dims.last() == 0);
}

proof fn lemma_head_cell(projected: Array, heads: Array, t: nat, h: nat, e: nat)
    requires
        is_reshape(projected, heads),
        projected.dims.len() == 2,
        heads.dims.len() == 3,
        heads.dims[0] == projected.dims[0],
        heads.dims[1] * heads.dims[2] == projected.dims[1],
        t < heads.dims[0],
        h < heads.dims[1],
        e < heads.dims[2],
    ensures
        h * heads.dims[2] + e < projected.dims[1],
        heads.cells[seq![t, h, e]] == projected.cells[seq![t, h * heads.dims[2] + e]],
{
    let (n, d, w) = (heads.dims[1], heads.dims[2], projected.dims[1]);
    assert(h * d + e < n * d) by (nonlinear_arith)
        requires
            h + 1 <= n,
            e < d,
    ;
    let (i, j) = (seq![t, h * d + e], seq![t, h, e]);
    assert(in_bounds(i, projected.dims));
    assert(in_bounds(j, heads.dims));
    reveal_with_fuel(position, 4);
    assert(i.drop_last() =~= seq![t]);
    assert(j.drop_last() =~= seq![t, h]);
    assert(j.drop_last().drop_last() =~= seq![t]);
    assert(seq![t].drop_last() =~= Seq::empty());
    assert(projected.dims.drop_last()[0] == projected.dims[0]);
    let p0 = position(seq![t], projected.dims.drop_last());
    let q0 = position(seq![t], heads.dims.drop_last().drop_last());
    lemma_position_one(t, projected.dims.drop_last());
    lemma_position_one(t, heads.dims.drop_last().drop_last());
    assert(p0 == t && q0 == t);
    assert(position(i, projected.dims) == t * w + (h * d + e));
    assert(position(j, heads.dims) == (t * n + h) * d + e);
    assert((t * n + h) * d + e == t * (n * d) + (h * d + e)) by (nonlinear_arith);
}

/// Head `h` of a token, in a call of the kernel, is the piece of the token's projection that starts
/// at `h` times the size of a head.
pub open spec fn are_heads(projection: Array, heads: Array, count: nat, size: nat) -> bool {
    forall|t: nat, h: nat, e: nat|
        t < heads.dims[0] && h < count && e < size ==> #[trigger] cell(heads, t, h, e)
            == projection.cells[seq![t, h * size + e]]
}

/// A cell of an array of three dimensions.
pub open spec fn cell(a: Array, t: nat, h: nat, e: nat) -> u64 {
    a.cells[seq![t, h, e]]
}

/// The queries, keys and values that the kernel is asked with are what the three projections give
/// one by one, cut into heads.
pub proof fn law_kernel_is_asked_with_the_projections(
    attention: BidirectionalMistralAttention,
    q: Linear,
    k: Linear,
    v: Linear,
    x: Tensor,
    cu_seqlens: Tensor,
    cos: Tensor,
    sin: Tensor,
    max_s: usize,
    call: AttentionCall,
    of_q: Tensor,
    of_k: Tensor,
    of_v: Tensor,
)
    requires
        works_slice_by_slice(),
        linear_works_feature_by_feature(),
        tensor_dims(x).len() == 2,
        has_full_heads(attention, tensor_dims(x)[0]),
        tensor_dims(attention.qkv_linear.weight).len() == 2,
        tensor_dims(q.weight).len() == 2,
        tensor_dims(q.weight)[0] == attention.num_attention_heads * attention.attention_head_size,
        tensor_dims(k.weight) == seq![
            (attention.num_key_value_heads * attention.attention_head_size) as nat,
            tensor_dims(q.weight)[1],
        ],
        tensor_dims(v.weight) == tensor_dims(k.weight),
        array(k.weight).dtype == array(q.weight).dtype,
        array(v.weight).dtype == array(q.weight).dtype,
        array(attention.qkv_linear.weight) == join(
            join(array(q.weight), array(k.weight), 0),
            array(v.weight),
            0,
        ),
        attention_asked(attention, x, cu_seqlens, cos, sin, max_s, call),
        linear_gave(q, x, of_q),
        linear_gave(k, x, of_k),
        linear_gave(v, x, of_v),
    ensures
        tensor_dims(call.q)[0] == tensor_dims(x)[0],
        are_heads(
            array(of_q),
            array(call.q),
            attention.num_attention_heads as nat,
            attention.attention_head_size as nat,
        ),
        are_heads(
            array(of_k),
            array(call.k),
            attention.num_key_value_heads as nat,
            attention.attention_head_size as nat,
        ),
        are_heads(
            array(of_v),
            array(call.v),
            attention.num_key_value_heads as nat,
            attention.attention_head_size as nat,
        ),
{
    let place = placement(cu_seqlens, cos, sin, max_s);
    let ax = array(x);
    let (projected, heads) = lemma_projects(attention, ax, place, call);
    let (n, m, d) = (
        attention.num_attention_heads as nat,
        attention.num_key_value_heads as nat,
        attention.attention_head_size as nat,
    );
    let (qw, kw, vw) = (array(q.weight), array(k.weight), array(v.weight));
    let front = join(qw, kw, 0);
    let fused = array(attention.qkv_linear.weight);
    assert(tensor_dims(attention.qkv_linear.weight) == fused.dims);
    assert(joinable(qw, kw, 0) && joinable(front, vw, 0));
    lemma_join_well_formed(qw, kw, 0);
    law_narrowing_undoes_joining(qw, kw, 0);
    law_narrowing_undoes_joining(front, vw, 0);
    law_narrowing_twice(fused, 0, 0, front.dims[0], 0, n * d);
    law_narrowing_twice(fused, 0, 0, front.dims[0], n * d, m * d);
    assert(projected.dims =~= ax.dims.drop_last().push(fused.dims[0]));
    assert(fused.dims[0] == n * d + m * d + m * d);
    let (pq, pk, pv) = (
        narrowed(projected, 1, 0, n * d),
        narrowed(projected, 1, n * d, m * d),
        narrowed(projected, 1, n * d + m * d, m * d),
    );
    assert(linear_gives(narrowed(fused, 0, 0, n * d), ax, pq));
    assert(linear_gives(narrowed(fused, 0, n * d, m * d), ax, pk));
    assert(linear_gives(narrowed(fused, 0, n * d + m * d, m * d), ax, pv));
    assert(same(ax, ax));
    assert(pq.dims =~= array(of_q).dims);
    assert(pk.dims =~= array(of_k).dims);
    assert(pv.dims =~= array(of_v).dims);
    lemma_linear_same(qw, ax, pq, ax, array(of_q));
    lemma_linear_same(kw, ax, pk, ax, array(of_k));
    lemma_linear_same(vw, ax, pv, ax, array(of_v));
    assert((n + 2 * m) * d == n * d + 2 * (m * d)) by (nonlinear_arith);
    lemma_part_cells(projected, heads, 0, n, pq, array(of_q), array(call.q));
    assert((n + m) * d == n * d + m * d) by (nonlinear_arith);
    lemma_part_cells(projected, heads, n, m, pk, array(of_k), array(call.k));
    lemma_part_cells(projected, heads, n + m, m, pv, array(of_v), array(call.v));
}

proof fn lemma_part_cells(
    projected: Array,
    heads: Array,
    from: nat,
    count: nat,
    part: Array,
    projection: Array,
    out: Array,
)
    requires
        is_reshape(projected, heads),
        projected.dims.len() == 2,
        heads.dims.len() == 3,
        heads.dims[0] == projected.dims[0],
        heads.dims[1] * heads.dims[2] == projected.dims[1],
        from + count <= heads.dims[1],
        part == narrowed(projected, 1, from * heads.dims[2], count * heads.dims[2]),
        same(part, projection),
        out == narrowed(heads, 1, from, count),
    ensures
        are_heads(projection, out, count, heads.dims[2]),
        out.dims == seq![heads.dims[0], count, heads.dims[2]],
{
    let d = heads.dims[2];
    assert(out.dims =~= seq![heads.dims[0], count, d]);
    assert forall|t: nat, h: nat, e: nat|
        t < out.dims[0] && h < count && e < d implies #[trigger] cell(out, t, h, e)
        == projection.cells[seq![t, h * d + e]] by {
        let i = seq![t, h, e];
        assert(in_bounds(i, out.dims));
        assert(i.update(1, i[1] + from) =~= seq![t, h + from, e]);
        lemma_head_cell(projected, heads, t, h + from, e);
        let j = seq![t, h * d + e];
        assert(h * d + e < count * d) by (nonlinear_arith)
            requires
                h + 1 <= count,
                e < d,
        ;
        assert(in_bounds(j, part.dims));
        assert(j.update(1, j[1] + from * d) =~= seq![t, (h + from) * d + e]) by {
            assert((h + from) * d == h * d + from * d) by (nonlinear_arith);
        }
    }
}

/// What the kernel gives back is put together head by head, and projected.
pub proof fn law_attended_heads_are_put_together_and_projected(
    attention: BidirectionalMistralAttention,
    attended: Tensor,
    flat: Tensor,
    expected: Tensor,
    out: Tensor,
)
    requires
        works_slice_by_slice(),
        tensor_dims(attended).len() == 3,
        count(tensor_dims(attended)) <= usize::MAX,
        tensor_dims(attended)[1] * tensor_dims(attended)[2] <= usize::MAX,
        tensor_dims(flat) == seq![
            tensor_dims(attended)[0],
            tensor_dims(attended)[1] * tensor_dims(attended)[2],
        ],
        tensor_dtype(flat) == tensor_dtype(attended),
        are_heads(
            array(flat),
            array(attended),
            tensor_dims(attended)[1],
            tensor_dims(attended)[2],
        ),
        linear_gave(attention.o_proj, flat, expected),
        call_ensures(
            BidirectionalMistralAttention::finish,
            (&attention, &attended),
            Ok::<Tensor, ModelError>(out),
        ),
    ensures
        array(out) == array(expected),
{
    let (a, f) = (array(attended), array(flat));
    let (t, n, d) = (a.dims[0], a.dims[1], a.dims[2]);
    assert(a.dims == tensor_dims(attended) && f.dims == tensor_dims(flat));
    let other = choose|other: Array|
        {
            &&& #[trigger] is_flattened(a, other)
            &&& linear_gives(array(attention.o_proj.weight), other, array(out))
            &&& array(out).dims == other.dims.drop_last().push(attention.o_proj.outputs())
        };
    assert(other.dims.drop_last()[0] == a.dims.take(1)[0]);
    assert(other.dims =~= f.dims);
    lemma_count_three(a.dims);
    lemma_count_two(other.dims);
    assert(t * n * d == t * (n * d)) by (nonlinear_arith);
    assert(is_reshape(a, other));
    assert forall|i: Seq<nat>| #[trigger] in_bounds(i, f.dims) implies f.cells[i]
        == other.cells[i] by {
        assert(i[0] < f.dims[0] && i[1] < f.dims[1]);
        assert(d > 0) by (nonlinear_arith)
            requires
                i[1] < n * d,
                i[1] >= 0,
                n >= 0,
                d >= 0,
        ;
        let (h, e) = (i[1] / d, i[1] % d);
        vstd::arithmetic::div_mod::lemma_fundamental_div_mod(i[1] as int, d as int);
        assert(h < n) by (nonlinear_arith)
            requires
                i[1] < n * d,
                i[1] == d * h + e,
                e >= 0,
                d > 0,
        ;
        assert(h * d + e == i[1]) by (nonlinear_arith)
            requires
                i[1] == d * h + e,
        ;
        lemma_reshape_back(a, other);
        lemma_head_cell(other, a, i[0], h, e);
        assert(i =~= seq![i[0], h * d + e]);
        assert(cell(a, i[0], h, e) == f.cells[seq![i[0], h * d + e]]);
    }
    assert(same(f, other));
    lemma_linear_same(
        array(attention.o_proj.weight),
        f,
        array(expected),
        other,
        array(out),
    );
    lemma_same_tensors(expected, out);
}

pub(crate) proof fn lemma_reshape_back(a: Array, b: Array)
    requires
        is_reshape(a, b),
    ensures
        is_reshape(b, a),
{
    assert forall|i: Seq<nat>, j: Seq<nat>|
        #![trigger b.cells[i], a.cells[j]]
        in_bounds(i, b.dims) && in_bounds(j, a.dims) && position(i, b.dims) == position(
            j,
            a.dims,
        ) implies a.cells[j] == b.cells[i] by {
        assert(b.cells[i] == a.cells[j]);
    }
}

/// Two residuals are the same, or there are none.
pub open spec fn is_same_residual(a: Option<Array>, b: Option<Array>) -> bool {
    match a {
        Some(a) => b is Some && same(a, b->Some_0),
        None => b is None,
    }
}

/// The value of an optional tensor.
pub open spec fn residual_of(t: Option<Tensor>) -> Option<Array> {
    match t {
        Some(t) => Some(array(t)),
        None => None,
    }
}

pub(crate) proof fn lemma_rms_same(
    norm: RMSNorm,
    x: Array,
    residual: Option<Array>,
    normed: Array,
    sum: Array,
    y: Array,
    other_residual: Option<Array>,
    other_normed: Array,
    other_sum: Array,
)
    requires
        works_slice_by_slice(),
        rms_run(norm, x, residual, normed, sum),
        rms_run(norm, y, other_residual, other_normed, other_sum),
        x.dims.len() == 2,
        norm.norms(x.dims[1]),
        same(x, y),
        is_same_residual(residual, other_residual),
        residual matches Some(r) ==> r.dims == x.dims,
    ensures
        same(normed, other_normed),
        same(sum, other_sum),
        normed.dims == x.dims,
        sum.dims == x.dims,
{
    let all = run(0, x.dims[0]);
    lemma_same_shares(x, y, 0);
    match residual {
        Some(r) => lemma_same_shares(r, other_residual->Some_0, 0),
        None => {},
    }
    lemma_rms_shares(
        norm,
        x,
        residual,
        normed,
        sum,
        y,
        other_residual,
        other_normed,
        other_sum,
        all,
        all,
    );
    lemma_shares_same(normed, other_normed, 0);
    lemma_shares_same(sum, other_sum, 0);
}

proof fn lemma_mlp_same(mlp: BidirectionalMistralMLP, x: Array, out: Array, y: Array, other: Array)
    requires
        works_slice_by_slice(),
        mlp_run(mlp, x, out),
        mlp_run(mlp, y, other),
        x.dims.len() == 2,
        same(x, y),
    ensures
        same(out, other),
        out.dims == seq![x.dims[0], mlp.down_proj.outputs()],
{
    let all = run(0, x.dims[0]);
    lemma_same_shares(x, y, 0);
    law_feed_forward_acts_row_by_row(mlp, x, out, y, other, all, all);
    lemma_mlp_dims(mlp, x, out);
    lemma_mlp_dims(mlp, y, other);
    lemma_shares_same(out, other, 0);
}

/// The layer, called on these states and this residual, gave this outcome and this sum.
pub open spec fn layer_gave<K: Fn(AttentionCall) -> Result<Tensor, ModelError>>(
    layer: BidirectionalMistralLayer,
    kernel: K,
    x: Tensor,
    residual: Option<Tensor>,
    cu_seqlens: Tensor,
    cos: Tensor,
    sin: Tensor,
    max_s: usize,
    out: Tensor,
    sum: Tensor,
) -> bool {
    call_ensures(
        BidirectionalMistralLayer::forward::<K>,
        (
            &layer,
            &kernel,
            &x,
            match residual {
                Some(r) => Some(&r),
                None => None,
            },
            &cu_seqlens,
            &cos,
            &sin,
            max_s,
        ),
        Ok::<(Tensor, Tensor), ModelError>((out, sum)),
    )
}

pub(crate) proof fn lemma_layer_same<K: Fn(AttentionCall) -> Result<Tensor, ModelError>>(
    layer: BidirectionalMistralLayer,
    kernel: K,
    place: Placement,
    x: Array,
    residual: Option<Array>,
    out: Array,
    sum: Array,
    y: Array,
    other_residual: Option<Array>,
    other: Array,
    other_sum: Array,
)
    requires
        works_slice_by_slice(),
        is_kernel(kernel),
        answers_alike(kernel),
        layer.runs(kernel, x, residual, place, out, sum),
        layer.runs(kernel, y, other_residual, place, other, other_sum),
        x.dims.len() == 2,
        layer.is_sized(x.dims[1]),
        has_full_heads(layer.attention, x.dims[0]),
        same(x, y),
        is_same_residual(residual, other_residual),
        residual matches Some(r) ==> r.dims == x.dims,
    ensures
        same(out, other),
        same(sum, other_sum),
        out.dims == x.dims,
        sum.dims == x.dims,
{
    let (normed, before, attended, again) = lemma_layer_steps(
        layer,
        kernel,
        place,
        x,
        residual,
        out,
        sum,
    );
    let (normed2, before2, attended2, again2) = lemma_layer_steps(
        layer,
        kernel,
        place,
        y,
        other_residual,
        other,
        other_sum,
    );
    lemma_rms_same(
        layer.input_layer_norm,
        x,
        residual,
        normed,
        before,
        y,
        other_residual,
        normed2,
        before2,
    );
    lemma_attends_same(layer.attention, kernel, normed, normed2, place, attended, attended2);
    assert(attended.dims =~= x.dims);
    lemma_rms_same(
        layer.post_attention_layer_norm,
        attended,
        Some(before),
        again,
        sum,
        attended2,
        Some(before2),
        again2,
        other_sum,
    );
    lemma_mlp_same(layer.mlp, again, out, again2, other);
    assert(out.dims =~= x.dims);
}

proof fn lemma_layer_steps<K: Fn(AttentionCall) -> Result<Tensor, ModelError>>(
    layer: BidirectionalMistralLayer,
    kernel: K,
    place: Placement,
    x: Array,
    residual: Option<Array>,
    out: Array,
    sum: Array,
) -> (r: (Array, Array, Array, Array))
    requires
        layer.runs(kernel, x, residual, place, out, sum),
    ensures
        layer.steps(kernel, x, residual, place, r.0, r.1, r.2, r.3, out, sum),
{
    choose|normed: Array, before: Array, attended: Array, again: Array| #[trigger]
        layer.steps(kernel, x, residual, place, normed, before, attended, again, out, sum)
}

/// A layer is its parts: a norm, the attention, a norm with the first sum as its residual, and the
/// feed-forward part, each called on what the one before it gave.
pub proof fn law_layer_is_its_parts<K: Fn(AttentionCall) -> Result<Tensor, ModelError>>(
    layer: BidirectionalMistralLayer,
    kernel: K,
    x: Tensor,
    residual: Option<Tensor>,
    cu_seqlens: Tensor,
    cos: Tensor,
    sin: Tensor,
    max_s: usize,
    normed: Tensor,
    before: Tensor,
    attended: Tensor,
    again: Tensor,
    handed_on: Tensor,
    expected: Tensor,
    out: Tensor,
    sum: Tensor,
)
    requires
        works_slice_by_slice(),
        is_kernel(kernel),
        answers_alike(kernel),
        tensor_dims(x).len() == 2,
        layer.is_sized(tensor_dims(x)[1]),
        has_full_heads(layer.attention, tensor_dims(x)[0]),
        rms_gave(layer.input_layer_norm, x, residual, normed, before),
        attention_gave(layer.attention, kernel, normed, cu_seqlens, cos, sin, max_s, attended),
        rms_gave(layer.post_attention_layer_norm, attended, Some(before), again, handed_on),
        mlp_gave(layer.mlp, again, expected),
        layer_gave(layer, kernel, x, residual, cu_seqlens, cos, sin, max_s, out, sum),
    ensures
        array(out) == array(expected),
        array(sum) == array(handed_on),
{
    let place = placement(cu_seqlens, cos, sin, max_s);
    let ax = array(x);
    let (normed2, before2, attended2, again2) = lemma_layer_steps(
        layer,
        kernel,
        place,
        ax,
        residual_of(residual),
        array(out),
        array(sum),
    );
    assert(same(ax, ax));
    match residual {
        Some(r) => {
            assert(same(array(r), array(r)));
        },
        None => {},
    }
    lemma_rms_same(
        layer.input_layer_norm,
        ax,
        residual_of(residual),
        array(normed),
        array(before),
        ax,
        residual_of(residual),
        normed2,
        before2,
    );
    lemma_attends_same(
        layer.attention,
        kernel,
        array(normed),
        normed2,
        place,
        array(attended),
        attended2,
    );
    assert(array(attended).dims =~= ax.dims);
    lemma_rms_same(
        layer.post_attention_layer_norm,
        array(attended),
        Some(array(before)),
        array(again),
        array(handed_on),
        attended2,
        Some(before2),
        again2,
        array(sum),
    );
    lemma_mlp_same(layer.mlp, array(again), array(expected), again2, array(out));
    lemma_same_tensors(expected, out);
    lemma_same_tensors(handed_on, sum);
}

/// A layer gives the feed-forward part of the norm of the sum that it hands on, and nothing of what
/// was before that sum.
pub proof fn law_layer_gives_the_feed_forward_of_its_sum<
    K: Fn(AttentionCall) -> Result<Tensor, ModelError>,
>(
    layer: BidirectionalMistralLayer,
    kernel: K,
    x: Tensor,
    residual: Option<Tensor>,
    cu_seqlens: Tensor,
    cos: Tensor,
    sin: Tensor,
    max_s: usize,
    out: Tensor,
    sum: Tensor,
    normed: Tensor,
    unchanged: Tensor,
    expected: Tensor,
)
    requires
        works_slice_by_slice(),
        tensor_dims(x).len() == 2,
        layer.is_sized(tensor_dims(x)[1]),
        layer_gave(layer, kernel, x, residual, cu_seqlens, cos, sin, max_s, out, sum),
        rms_gave(layer.post_attention_layer_norm, sum, None, normed, unchanged),
        mlp_gave(layer.mlp, normed, expected),
    ensures
        array(out) == array(expected),
{
    let place = placement(cu_seqlens, cos, sin, max_s);
    let (normed2, before2, attended2, again2) = lemma_layer_steps(
        layer,
        kernel,
        place,
        array(x),
        residual_of(residual),
        array(out),
        array(sum),
    );
    lemma_normed_sum(layer, array(sum), again2, array(normed), array(unchanged));
    lemma_mlp_same(layer.mlp, again2, array(out), array(normed), array(expected));
    lemma_same_tensors(out, expected);
}

/// The norm after the attention is taken of the sum alone.
proof fn lemma_normed_sum(
    layer: BidirectionalMistralLayer,
    sum: Array,
    again: Array,
    normed: Array,
    unchanged: Array,
)
    requires
        works_slice_by_slice(),
        rms_norm_gives(
            array(layer.post_attention_layer_norm.weight),
            scalar_bits(array(layer.post_attention_layer_norm.epsilon)),
            sum,
            again,
        ),
        rms_run(layer.post_attention_layer_norm, sum, None, normed, unchanged),
        sum.dims.len() == 2,
        layer.is_sized(sum.dims[1]),
        again.dims == sum.dims,
    ensures
        same(again, normed),
{
    let norm = layer.post_attention_layer_norm;
    let all = run(0, sum.dims[0]);
    assert(same(sum, sum));
    lemma_same_shares(sum, sum, 0);
    lemma_rms_norm_shares(
        array(norm.weight),
        scalar_bits(array(norm.epsilon)),
        sum,
        again,
        sum,
        normed,
        all,
        all,
        0,
    );
    lemma_shares_same(again, normed, 0);
}

/// What a layer gives depends on its input only through the sum that it hands on: two layers with
/// the same norm after the attention and the same feed-forward part that hand on the same sum give
/// the same.
pub proof fn law_layer_depends_on_its_sum_only<K: Fn(AttentionCall) -> Result<Tensor, ModelError>>(
    a: BidirectionalMistralLayer,
    b: BidirectionalMistralLayer,
    kernel: K,
    x: Tensor,
    residual: Option<Tensor>,
    y: Tensor,
    other_residual: Option<Tensor>,
    cu_seqlens: Tensor,
    cos: Tensor,
    sin: Tensor,
    max_s: usize,
    out: Tensor,
    sum: Tensor,
    other: Tensor,
    other_sum: Tensor,
)
    requires
        works_slice_by_slice(),
        tensor_dims(x).len() == 2,
        tensor_dims(y).len() == 2,
        a.is_sized(tensor_dims(x)[1]),
        b.is_sized(tensor_dims(y)[1]),
        b.post_attention_layer_norm == a.post_attention_layer_norm,
        b.mlp == a.mlp,
        layer_gave(a, kernel, x, residual, cu_seqlens, cos, sin, max_s, out, sum),
        layer_gave(b, kernel, y, other_residual, cu_seqlens, cos, sin, max_s, other, other_sum),
        array(sum) == array(other_sum),
    ensures
        array(out) == array(other),
{
    let place = placement(cu_seqlens, cos, sin, max_s);
    let s = array(sum);
    let (n, bf, at, again) = lemma_layer_steps(
        a,
        kernel,
        place,
        array(x),
        residual_of(residual),
        array(out),
        s,
    );
    let (n2, bf2, at2, again2) = lemma_layer_steps(
        b,
        kernel,
        place,
        array(y),
        residual_of(other_residual),
        array(other),
        s,
    );
    let norm = a.post_attention_layer_norm;
    assert(tensor_dims(x) == array(x).dims && tensor_dims(y) == array(y).dims);
    assert(s.dims == tensor_dims(sum) && s.dims == tensor_dims(other_sum));
    let all = run(0, s.dims[0]);
    assert(same(s, s));
    lemma_same_shares(s, s, 0);
    lemma_rms_norm_shares(
        array(norm.weight),
        scalar_bits(array(norm.epsilon)),
        s,
        again,
        s,
        again2,
        all,
        all,
        0,
    );
    lemma_shares_same(again, again2, 0);
    lemma_mlp_same(a.mlp, again, array(out), again2, array(other));
    lemma_same_tensors(out, other);
}

/// A layer adds the residual to the states before it does anything else.
pub proof fn law_layer_adds_the_residual_first<K: Fn(AttentionCall) -> Result<Tensor, ModelError>>(
    layer: BidirectionalMistralLayer,
    kernel: K,
    x: Tensor,
    residual: Tensor,
    added: Tensor,
    cu_seqlens: Tensor,
    cos: Tensor,
    sin: Tensor,
    max_s: usize,
    out: Tensor,
    sum: Tensor,
    other: Tensor,
    other_sum: Tensor,
)
    requires
        works_slice_by_slice(),
        is_kernel(kernel),
        answers_alike(kernel),
        tensor_dims(x).len() == 2,
        layer.is_sized(tensor_dims(x)[1]),
        has_full_heads(layer.attention, tensor_dims(x)[0]),
        add_gave(x, residual, added),
        layer_gave(layer, kernel, x, Some(residual), cu_seqlens, cos, sin, max_s, out, sum),
        layer_gave(layer, kernel, added, None, cu_seqlens, cos, sin, max_s, other, other_sum),
    ensures
        array(out) == array(other),
        array(sum) == array(other_sum),
{
    let place = placement(cu_seqlens, cos, sin, max_s);
    let (ax, ar, aa) = (array(x), array(residual), array(added));
    let (normed, before, attended, again) = lemma_layer_steps(
        layer,
        kernel,
        place,
        ax,
        Some(ar),
        array(out),
        array(sum),
    );
    let (normed2, before2, attended2, again2) = lemma_layer_steps(
        layer,
        kernel,
        place,
        aa,
        None,
        array(other),
        array(other_sum),
    );
    let norm = layer.input_layer_norm;
    assert(same(ax, ax) && same(ar, ar));
    lemma_add_same(ax, ar, before, ax, ar, aa);
    let all = run(0, ax.dims[0]);
    lemma_same_shares(before, aa, 0);
    lemma_rms_norm_shares(
        array(norm.weight),
        scalar_bits(array(norm.epsilon)),
        before,
        normed,
        before2,
        normed2,
        all,
        all,
        0,
    );
    lemma_shares_same(normed, normed2, 0);
    lemma_attends_same(layer.attention, kernel, normed, normed2, place, attended, attended2);
    assert(attended.dims =~= ax.dims);
    lemma_rms_same(
        layer.post_attention_layer_norm,
        attended,
        Some(before),
        again,
        array(sum),
        attended2,
        Some(before2),
        again2,
        array(other_sum),
    );
    lemma_mlp_same(layer.mlp, again, array(out), again2, array(other));
    lemma_same_tensors(out, other);
    lemma_same_tensors(sum, other_sum);
}

/// The language model, called on these tokens, gave `out`.
pub open spec fn model_gave<K: Fn(AttentionCall) -> Result<Tensor, ModelError>>(
    model: BidirectionalMistralModel,
    kernel: K,
    ids: Tensor,
    mask: Tensor,
    cu_seqlens: Tensor,
    positions: Tensor,
    max_s: usize,
    out: Tensor,
) -> bool {
    call_ensures(
        BidirectionalMistralModel::forward::<K>,
        (&model, &kernel, &ids, &mask, &cu_seqlens, &positions, max_s),
        Ok::<Tensor, ModelError>(out),
    )
}

/// The residual before layer `k`, where `sums` are what the layers handed on.
pub open spec fn residual_before(sums: Seq<Tensor>, k: int) -> Option<Tensor> {
    if k == 0 {
        None
    } else {
        Some(sums[k - 1])
    }
}

/// Layer `k`, called on states `k` and what the layer before it handed on, gave states `k + 1`.
pub open spec fn layer_took_over<K: Fn(AttentionCall) -> Result<Tensor, ModelError>>(
    model: BidirectionalMistralModel,
    kernel: K,
    states: Seq<Tensor>,
    sums: Seq<Tensor>,
    cu_seqlens: Tensor,
    cos: Tensor,
    sin: Tensor,
    max_s: usize,
    k: int,
) -> bool {
    layer_gave(
        model.layers@[k],
        kernel,
        states[k],
        residual_before(sums, k),
        cu_seqlens,
        cos,
        sin,
        max_s,
        states[k + 1],
        sums[k],
    )
}

proof fn lemma_layers_same<K: Fn(AttentionCall) -> Result<Tensor, ModelError>>(
    model: BidirectionalMistralModel,
    kernel: K,
    states: Seq<Tensor>,
    sums: Seq<Tensor>,
    cu_seqlens: Tensor,
    cos: Tensor,
    sin: Tensor,
    max_s: usize,
    n: nat,
    h: Array,
    residual: Option<Array>,
)
    requires
        works_slice_by_slice(),
        is_kernel(kernel),
        answers_alike(kernel),
        model.is_sized(),
        n <= model.layers@.len(),
        states.len() == model.layers@.len() + 1,
        sums.len() == model.layers@.len(),
        forall|k: int|
            0 <= k < model.layers@.len() ==> #[trigger] layer_took_over(
                model,
                kernel,
                states,
                sums,
                cu_seqlens,
                cos,
                sin,
                max_s,
                k,
            ),
        tensor_dims(states[0]).len() == 2,
        tensor_dims(states[0])[1] == model.embeddings.hidden_size,
        has_full_layers(model, tensor_dims(states[0])[0]),
        model.layers_run(
            kernel,
            n,
            array(states[0]),
            placement(cu_seqlens, cos, sin, max_s),
            h,
            residual,
        ),
    ensures
        same(h, array(states[n as int])),
        is_same_residual(residual, residual_of(residual_before(sums, n as int))),
        h.dims == tensor_dims(states[0]),
        residual matches Some(r) ==> r.dims == tensor_dims(states[0]),
    decreases n,
{
    let place = placement(cu_seqlens, cos, sin, max_s);
    let x = array(states[0]);
    if n > 0 {
        let layer = model.layers@[n - 1];
        let m = (n - 1) as nat;
        let (hb, rb) = choose|hb: Array, rb: Option<Array>|
            {
                &&& model.layers_run(kernel, m, x, place, hb, rb)
                &&& #[trigger] layer.runs(kernel, hb, rb, place, h, residual->Some_0)
            };
        lemma_layers_same(
            model,
            kernel,
            states,
            sums,
            cu_seqlens,
            cos,
            sin,
            max_s,
            m,
            hb,
            rb,
        );
        assert(layer_took_over(
            model,
            kernel,
            states,
            sums,
            cu_seqlens,
            cos,
            sin,
            max_s,
            m as int,
        ));
        assert(layer.is_sized(model.embeddings.hidden_size as nat));
        lemma_layer_same(
            layer,
            kernel,
            place,
            hb,
            rb,
            h,
            residual->Some_0,
            array(states[m as int]),
            residual_of(residual_before(sums, m as int)),
            array(states[n as int]),
            array(sums[m as int]),
        );
    } else {
        assert(same(x, x));
    }
}

/// The language model is its parts in order: the rows of the tokens, every layer on what the layer
/// before it gave, with the rows of the tables at the positions of the tokens and the bounds that
/// the caller gave, and the norm.
pub proof fn law_language_model_is_its_layers_in_order<
    K: Fn(AttentionCall) -> Result<Tensor, ModelError>,
>(
    model: BidirectionalMistralModel,
    kernel: K,
    ids: Tensor,
    mask: Tensor,
    cu_seqlens: Tensor,
    positions: Tensor,
    max_s: usize,
    cos: Tensor,
    sin: Tensor,
    states: Seq<Tensor>,
    sums: Seq<Tensor>,
    expected: Tensor,
    last_sum: Tensor,
    out: Tensor,
)
    requires
        works_slice_by_slice(),
        is_kernel(kernel),
        answers_alike(kernel),
        model.is_sized(),
        are_numbers(array(ids), tensor_dims(model.embeddings.weight)[0]),
        are_numbers(array(positions), tensor_dims(model.cos_cache)[0]),
        are_numbers(array(positions), tensor_dims(model.sin_cache)[0]),
        has_full_layers(model, tensor_dims(ids)[0]),
        states.len() == model.layers@.len() + 1,
        sums.len() == model.layers@.len(),
        call_ensures(
            Embedding::forward,
            (&model.embeddings, &ids),
            Ok::<Tensor, ModelError>(states[0]),
        ),
        call_ensures(pick, (&model.cos_cache, &positions), Ok::<Tensor, ModelError>(cos)),
        call_ensures(pick, (&model.sin_cache, &positions), Ok::<Tensor, ModelError>(sin)),
        forall|k: int|
            0 <= k < model.layers@.len() ==> #[trigger] layer_took_over(
                model,
                kernel,
                states,
                sums,
                cu_seqlens,
                cos,
                sin,
                max_s,
                k,
            ),
        rms_gave(
            model.norm,
            states.last(),
            residual_before(sums, sums.len() as int),
            expected,
            last_sum,
        ),
        model_gave(model, kernel, ids, mask, cu_seqlens, positions, max_s, out),
    ensures
        array(out) == array(expected),
{
    let n = model.layers@.len();
    let (x, place, h, residual, sum) = choose|
        x: Array,
        place: Placement,
        h: Array,
        residual: Option<Array>,
        sum: Array,
    | #[trigger]
        model.steps(
            kernel,
            array(ids),
            array(positions),
            array(cu_seqlens),
            max_s as nat,
            x,
            place,
            h,
            residual,
            sum,
            array(out),
        );
    let weight = array(model.embeddings.weight);
    assert(weight.dims == tensor_dims(model.embeddings.weight));
    assert(array(model.cos_cache).dims == tensor_dims(model.cos_cache));
    assert(array(model.sin_cache).dims == tensor_dims(model.sin_cache));
    assert(x == picked(weight, array(ids), 0));
    assert(array(states[0]) == picked(weight, array(ids), 0));
    assert(place.cos == array(cos) && place.sin == array(sin));
    assert(place =~= placement(cu_seqlens, cos, sin, max_s));
    assert(array(states[0]).dims =~= seq![
        tensor_dims(ids)[0],
        model.embeddings.hidden_size as nat,
    ]);
    lemma_layers_same(
        model,
        kernel,
        states,
        sums,
        cu_seqlens,
        cos,
        sin,
        max_s,
        n,
        h,
        residual,
    );
    lemma_rms_same(
        model.norm,
        h,
        residual,
        array(out),
        sum,
        array(states.last()),
        residual_of(residual_before(sums, n as int)),
        array(expected),
        array(last_sum),
    );
    lemma_same_tensors(out, expected);
}

} // verus!
