//! What the language model keeps, up to rounding: rows are treated one by one, and sequences do not
//! see each other.
use crate::array::{
    ids_below, in_bounds, is_embedded, is_flattened, is_picked, is_reshape, is_view, join, joinable,
    law_joining_undoes_narrowing, law_narrowing_undoes_joining, lemma_count_one, lemma_count_three,
    lemma_count_two, narrowed, picked, scalar_bits, well_formed, zeroed, Array,
};
use crate::attention::{is_kernel, AttentionCall, BidirectionalMistralAttention, Placement};
use crate::config::HiddenAct;
use crate::error::ModelError;
use crate::exact::{
    are_zero_rows, lemma_add_shares, lemma_gelu_shares, lemma_linear_shares, lemma_mul_shares,
    lemma_relu_shares, lemma_rms_norm_shares, lemma_silu_shares, works_slice_by_slice,
    zero_stays_zero,
};
use crate::layer::BidirectionalMistralLayer;
use crate::layers::{rms_run, RMSNorm};
use crate::mistral::BidirectionalMistralModel;
use crate::mlp::{activated, mlp_run, mlp_steps, BidirectionalMistralMLP};
use crate::ops::linear_gives;
use crate::rows::{
    chosen, in_range, is_arrangement, lemma_all_are_whole, lemma_narrowed_shares,
    lemma_run_is_narrowed, lemma_shared_cell, lemma_shared_shape, lemma_shares, lemma_view_shares,
    run, shares,
};
use crate::tensor::{array, tensor_dims};
use candle_core::Tensor;
use vstd::prelude::*;

verus! {

pub(crate) proof fn lemma_activated_shares(
    act: HiddenAct,
    x: Array,
    o: Array,
    y: Array,
    p: Array,
    of_x: Seq<nat>,
    of_y: Seq<nat>,
)
    requires
        works_slice_by_slice(),
        activated(act, x, o),
        activated(act, y, p),
        shares(x, y, of_x, of_y, 0),
    ensures
        shares(o, p, of_x, of_y, 0),
{
    match act {
        HiddenAct::Gelu => lemma_gelu_shares(x, o, y, p, of_x, of_y, 0),
        HiddenAct::Relu => lemma_relu_shares(x, o, y, p, of_x, of_y, 0),
        HiddenAct::Swiglu => lemma_silu_shares(x, o, y, p, of_x, of_y, 0),
    }
}

pub(crate) proof fn lemma_mlp_dims(mlp: BidirectionalMistralMLP, x: Array, out: Array)
    requires
        mlp_run(mlp, x, out),
        x.dims.len() == 2,
    ensures
        out.dims == seq![x.dims[0], mlp.down_proj.outputs()],
{
    let (both, gate, product) = choose|both: Array, gate: Array, product: Array| #[trigger]
        mlp_steps(mlp, x, both, gate, product, out);
    assert(out.dims =~= seq![x.dims[0], mlp.down_proj.outputs()]);
}

/// The feed-forward part treats every row by itself: rows that two inputs share give rows that the
/// outcomes share.
pub proof fn law_feed_forward_acts_row_by_row(
    mlp: BidirectionalMistralMLP,
    x: Array,
    out: Array,
    y: Array,
    other: Array,
    of_x: Seq<nat>,
    of_y: Seq<nat>,
)
    requires
        works_slice_by_slice(),
        mlp_run(mlp, x, out),
        mlp_run(mlp, y, other),
        x.dims.len() == 2,
        shares(x, y, of_x, of_y, 0),
    ensures
        shares(out, other, of_x, of_y, 0),
{
    lemma_shared_shape(x, y, of_x, of_y, 0);
    let size = mlp.intermediate_size as nat;
    let (both, gate, product) = choose|both: Array, gate: Array, product: Array| #[trigger]
        mlp_steps(mlp, x, both, gate, product, out);
    let (both2, gate2, product2) = choose|both: Array, gate: Array, product: Array| #[trigger]
        mlp_steps(mlp, y, both, gate, product, other);
    let (up, down) = (array(mlp.gate_up_proj.weight), array(mlp.down_proj.weight));
    lemma_linear_shares(up, x, both, y, both2, of_x, of_y, 0);
    lemma_narrowed_shares(both, both2, of_x, of_y, 0, 1, 0, size);
    lemma_narrowed_shares(both, both2, of_x, of_y, 0, 1, size, size);
    let (first, second) = (narrowed(both, 1, 0, size), narrowed(both, 1, size, size));
    let (first2, second2) = (narrowed(both2, 1, 0, size), narrowed(both2, 1, size, size));
    lemma_activated_shares(mlp.act, first, gate, first2, gate2, of_x, of_y);
    lemma_mul_shares(gate, second, product, gate2, second2, product2, of_x, of_y, 0);
    lemma_linear_shares(down, product, out, product2, other, of_x, of_y, 0);
}

/// Rows that are joined first and rows that are joined last come out of the feed-forward part the
/// same.
pub proof fn law_feed_forward_of_joined_rows(
    mlp: BidirectionalMistralMLP,
    a: Array,
    b: Array,
    out_a: Array,
    out_b: Array,
    out: Array,
)
    requires
        works_slice_by_slice(),
        mlp_run(mlp, a, out_a),
        mlp_run(mlp, b, out_b),
        mlp_run(mlp, join(a, b, 0), out),
        a.dims.len() == 2,
        joinable(a, b, 0),
        well_formed(a),
        well_formed(b),
        well_formed(out_a),
        well_formed(out_b),
        well_formed(out),
    ensures
        out == join(out_a, out_b, 0),
{
    let whole = join(a, b, 0);
    let (s, t) = (a.dims[0], b.dims[0]);
    lemma_mlp_dims(mlp, a, out_a);
    lemma_mlp_dims(mlp, b, out_b);
    lemma_mlp_dims(mlp, whole, out);
    law_narrowing_undoes_joining(a, b, 0);
    lemma_run_is_narrowed(whole, 0, 0, s);
    lemma_run_is_narrowed(whole, 0, s, t);
    lemma_all_are_whole(a, 0);
    lemma_all_are_whole(b, 0);
    law_feed_forward_acts_row_by_row(mlp, whole, out, a, out_a, run(0, s), run(0, s));
    law_feed_forward_acts_row_by_row(mlp, whole, out, b, out_b, run(s, t), run(0, t));
    lemma_all_are_whole(out_a, 0);
    lemma_all_are_whole(out_b, 0);
    lemma_run_is_narrowed(out, 0, 0, s);
    lemma_run_is_narrowed(out, 0, s, t);
    law_joining_undoes_narrowing(out, 0, s, s + t);
}

/// A row of zeros comes out of the feed-forward part as a row of zeros, whatever the activation is.
pub proof fn law_feed_forward_keeps_rows_of_zeros(
    mlp: BidirectionalMistralMLP,
    x: Array,
    out: Array,
    rows: Seq<nat>,
)
    requires
        zero_stays_zero(),
        mlp_run(mlp, x, out),
        x.dims.len() == 2,
        are_zero_rows(x, rows),
    ensures
        are_zero_rows(out, rows),
{
    reveal(zero_stays_zero);
    let size = mlp.intermediate_size as nat;
    let (both, gate, product) = choose|both: Array, gate: Array, product: Array| #[trigger]
        mlp_steps(mlp, x, both, gate, product, out);
    assert(are_zero_rows(both, rows));
    lemma_narrowed_shares(both, zeroed(both), rows, rows, 0, 1, 0, size);
    let first = narrowed(both, 1, 0, size);
    let zeros = narrowed(zeroed(both), 1, 0, size);
    assert(zeros =~= zeroed(first)) by {
        assert(zeros.dims =~= zeroed(first).dims);
        assert forall|i: Seq<nat>| in_bounds(i, first.dims) implies zeros.cells[i] == 0 by {
            let j = i.update(1, i[1] + 0);
            assert(j =~= i);
            assert forall|k: int| 0 <= k < both.dims.len() implies j[k] < both.dims[k] by {
                assert(i[k] < first.dims[k]);
            }
            assert(in_bounds(j, both.dims));
        }
        assert(zeros.cells =~= zeroed(first).cells);
    }
    assert(are_zero_rows(first, rows));
    assert(are_zero_rows(gate, rows));
    assert(are_zero_rows(product, rows));
}

/// The bound before which sequence `k` starts.
pub open spec fn bound(cu_seqlens: Array, k: nat) -> nat {
    cu_seqlens.cells[seq![k]] as nat
}

/// The list names the tokens of sequence `k`, each once.
pub open spec fn lists_sequence(list: Seq<nat>, cu_seqlens: Array, k: nat) -> bool {
    is_arrangement(list, bound(cu_seqlens, k), bound(cu_seqlens, k + 1))
}

/// The list names the tokens of sequence `k` in the order in which they stand.
pub open spec fn is_in_order(list: Seq<nat>, cu_seqlens: Array, k: nat) -> bool {
    list == run(
        bound(cu_seqlens, k),
        (bound(cu_seqlens, k + 1) - bound(cu_seqlens, k)) as nat,
    )
}

/// Two calls ask for the same kind of attention.
pub open spec fn asks_alike(a: AttentionCall, b: AttentionCall) -> bool {
    &&& array(a.softmax_scale) == array(b.softmax_scale)
    &&& a.is_causal == b.is_causal
    &&& a.window_size_left == b.window_size_left
}

/// Sequence `j` of one call and sequence `k` of another are made of the same tokens, listed in an
/// order of one's own choice where the attention has neither a direction nor a window.
pub open spec fn asks_for_same_sequence(
    a: AttentionCall,
    b: AttentionCall,
    j: nat,
    k: nat,
    of_a: Seq<nat>,
    of_b: Seq<nat>,
) -> bool {
    let (bounds_a, bounds_b) = (array(a.cu_seqlens), array(b.cu_seqlens));
    &&& asks_alike(a, b)
    &&& lists_sequence(of_a, bounds_a, j)
    &&& lists_sequence(of_b, bounds_b, k)
    &&& a.is_causal || a.window_size_left is Some ==> is_in_order(of_a, bounds_a, j)
        && is_in_order(of_b, bounds_b, k)
    &&& shares(array(a.q), array(b.q), of_a, of_b, 0)
    &&& shares(array(a.k), array(b.k), of_a, of_b, 0)
    &&& shares(array(a.v), array(b.v), of_a, of_b, 0)
    &&& shares(array(a.cos), array(b.cos), of_a, of_b, 0)
    &&& shares(array(a.sin), array(b.sin), of_a, of_b, 0)
}

/// A kernel that lets the tokens of a sequence attend to that sequence alone, and to all of it
/// alike: what a token gets depends on the tokens of its sequence, and on their order only where
/// there is a direction or a window.
pub open spec fn keeps_to_sequences<K: Fn(AttentionCall) -> Result<Tensor, ModelError>>(
    kernel: K,
) -> bool {
    forall|
        a: AttentionCall,
        b: AttentionCall,
        x: Tensor,
        y: Tensor,
        j: nat,
        k: nat,
        of_a: Seq<nat>,
        of_b: Seq<nat>,
    |
        {
            &&& #[trigger] call_ensures(kernel, (a,), Ok::<Tensor, ModelError>(x))
            &&& #[trigger] call_ensures(kernel, (b,), Ok::<Tensor, ModelError>(y))
            &&& #[trigger] asks_for_same_sequence(a, b, j, k, of_a, of_b)
        } ==> shares(array(x), array(y), of_a, of_b, 0)
}

/// The heads of an attention fill the width of its projection, for this many tokens.
pub open spec fn has_full_heads(attention: BidirectionalMistralAttention, tokens: nat) -> bool {
    let heads = (attention.num_attention_heads + 2 * attention.num_key_value_heads) as nat;
    &&& heads * attention.attention_head_size == attention.qkv_linear.outputs()
    &&& tokens * attention.qkv_linear.outputs() <= usize::MAX
    &&& attention.num_attention_heads * attention.attention_head_size <= usize::MAX
}

/// `projected` and `heads` are the steps from the states to a call of the kernel.
pub open spec fn projects(
    attention: BidirectionalMistralAttention,
    x: Array,
    projected: Array,
    heads: Array,
    call: AttentionCall,
) -> bool {
    &&& linear_gives(array(attention.qkv_linear.weight), x, projected)
    &&& projected.dims == seq![x.dims[0], attention.qkv_linear.outputs()]
    &&& is_reshape(projected, heads)
    &&& heads.dims == seq![
        x.dims[0],
        (attention.num_attention_heads + 2 * attention.num_key_value_heads) as nat,
        attention.attention_head_size as nat,
    ]
    &&& attention.splits(heads, call)
}

pub(crate) proof fn lemma_projects(
    attention: BidirectionalMistralAttention,
    x: Array,
    place: Placement,
    call: AttentionCall,
) -> (r: (Array, Array))
    requires
        attention.asks(x, place, call),
        x.dims.len() == 2,
        has_full_heads(attention, x.dims[0]),
    ensures
        projects(attention, x, r.0, r.1, call),
{
    let (projected, heads) = choose|projected: Array, heads: Array|
        {
            &&& #[trigger] linear_gives(array(attention.qkv_linear.weight), x, projected)
            &&& projected.dims == x.dims.drop_last().push(attention.qkv_linear.outputs())
            &&& #[trigger] is_view(projected, heads)
            &&& heads.dims == attention.headed(projected.dims)
            &&& attention.splits(heads, call)
        };
    let w = attention.qkv_linear.outputs();
    let h = (attention.num_attention_heads + 2 * attention.num_key_value_heads) as nat;
    let d = attention.attention_head_size as nat;
    let n = x.dims[0];
    assert(projected.dims =~= seq![n, w]);
    assert(heads.dims =~= seq![n, h, d]);
    lemma_count_two(projected.dims);
    lemma_count_three(heads.dims);
    assert(n * h * d == n * w) by (nonlinear_arith)
        requires
            h * d == w,
    ;
    (projected, heads)
}

/// The attention keeps to the sequences: what it gives for the tokens of a sequence depends on the
/// states and the angles of these tokens alone, and on their order only where there is a window.
pub proof fn law_attention_keeps_to_sequences<
    K: Fn(AttentionCall) -> Result<Tensor, ModelError>,
>(
    attention: BidirectionalMistralAttention,
    kernel: K,
    x: Array,
    place: Placement,
    out: Array,
    j: nat,
    y: Array,
    other_place: Placement,
    other: Array,
    k: nat,
    of_x: Seq<nat>,
    of_y: Seq<nat>,
)
    requires
        works_slice_by_slice(),
        is_kernel(kernel),
        keeps_to_sequences(kernel),
        attention.attends(kernel, x, place, out),
        attention.attends(kernel, y, other_place, other),
        x.dims.len() == 2,
        has_full_heads(attention, x.dims[0]),
        has_full_heads(attention, y.dims[0]),
        lists_sequence(of_x, place.cu_seqlens, j),
        lists_sequence(of_y, other_place.cu_seqlens, k),
        attention.window_size_left is Some ==> is_in_order(of_x, place.cu_seqlens, j)
            && is_in_order(of_y, other_place.cu_seqlens, k),
        shares(x, y, of_x, of_y, 0),
        shares(place.cos, other_place.cos, of_x, of_y, 0),
        shares(place.sin, other_place.sin, of_x, of_y, 0),
    ensures
        shares(out, other, of_x, of_y, 0),
        out.dims == seq![x.dims[0], attention.o_proj.outputs()],
        other.dims == seq![y.dims[0], attention.o_proj.outputs()],
{
    lemma_shared_shape(x, y, of_x, of_y, 0);
    let (call, attended) = choose|call: AttentionCall, attended: Tensor|
        {
            &&& attention.asks(x, place, call)
            &&& #[trigger] call_ensures(kernel, (call,), Ok::<Tensor, ModelError>(attended))
            &&& attention.finishes(array(attended), out)
        };
    let (call2, attended2) = choose|call: AttentionCall, attended: Tensor|
        {
            &&& attention.asks(y, other_place, call)
            &&& #[trigger] call_ensures(kernel, (call,), Ok::<Tensor, ModelError>(attended))
            &&& attention.finishes(array(attended), other)
        };
    let (projected, heads) = lemma_projects(attention, x, place, call);
    let (projected2, heads2) = lemma_projects(attention, y, other_place, call2);
    let (nq, nkv) = (
        attention.num_attention_heads as nat,
        attention.num_key_value_heads as nat,
    );
    let d = attention.attention_head_size as nat;
    lemma_linear_shares(
        array(attention.qkv_linear.weight),
        x,
        projected,
        y,
        projected2,
        of_x,
        of_y,
        0,
    );
    assert(heads.dims.take(1) =~= projected.dims.take(1));
    assert(heads2.dims.take(1) =~= projected2.dims.take(1));
    assert(heads.dims.skip(1) =~= seq![(nq + 2 * nkv) as nat, d]);
    assert(heads2.dims.skip(1) =~= seq![(nq + 2 * nkv) as nat, d]);
    assert(projected.dims.skip(1) =~= seq![attention.qkv_linear.outputs()]);
    lemma_count_two(heads.dims.skip(1));
    lemma_count_one(attention.qkv_linear.outputs());
    lemma_view_shares(projected, heads, projected2, heads2, of_x, of_y, 0, 1);
    lemma_narrowed_shares(heads, heads2, of_x, of_y, 0, 1, 0, nq);
    lemma_narrowed_shares(heads, heads2, of_x, of_y, 0, 1, nq, nkv);
    lemma_narrowed_shares(heads, heads2, of_x, of_y, 0, 1, nq + nkv, nkv);
    assert(asks_for_same_sequence(call, call2, j, k, of_x, of_y));
    assert(shares(array(attended), array(attended2), of_x, of_y, 0));
    assert(array(call.q).dims =~= seq![x.dims[0], nq, d]);
    assert(array(call2.q).dims =~= seq![y.dims[0], nq, d]);
    let flat = lemma_finishes(attention, x.dims[0], attended, call, out);
    let flat2 = lemma_finishes(attention, y.dims[0], attended2, call2, other);
    assert(array(attended).dims == array(call.q).dims);
    assert(array(attended2).dims == array(call2.q).dims);
    assert(array(attended).dims =~= seq![x.dims[0], nq, d]);
    assert(array(attended2).dims =~= seq![y.dims[0], nq, d]);
    assert(flat.dims.take(1) =~= array(attended).dims.take(1));
    assert(flat2.dims.take(1) =~= array(attended2).dims.take(1));
    assert(flat.dims.skip(1) =~= seq![nq * d]);
    assert(flat2.dims.skip(1) =~= seq![nq * d]);
    assert(array(attended).dims.skip(1) =~= seq![nq, d]);
    lemma_count_two(array(attended).dims.skip(1));
    lemma_count_one(nq * d);
    lemma_view_shares(
        array(attended),
        flat,
        array(attended2),
        flat2,
        of_x,
        of_y,
        0,
        1,
    );
    lemma_linear_shares(array(attention.o_proj.weight), flat, out, flat2, other, of_x, of_y, 0);
    assert(out.dims =~= seq![x.dims[0], attention.o_proj.outputs()]);
    assert(other.dims =~= seq![y.dims[0], attention.o_proj.outputs()]);
}

pub(crate) proof fn lemma_finishes(
    attention: BidirectionalMistralAttention,
    tokens: nat,
    attended: Tensor,
    call: AttentionCall,
    out: Array,
) -> (flat: Array)
    requires
        attention.finishes(array(attended), out),
        tensor_dims(attended) == tensor_dims(call.q),
        array(call.q).dims == seq![
            tokens,
            attention.num_attention_heads as nat,
            attention.attention_head_size as nat,
        ],
        has_full_heads(attention, tokens),
    ensures
        is_reshape(array(attended), flat),
        flat.dims == seq![
            tokens,
            attention.num_attention_heads as nat * attention.attention_head_size as nat,
        ],
        linear_gives(array(attention.o_proj.weight), flat, out),
        out.dims == flat.dims.drop_last().push(attention.o_proj.outputs()),
{
    let (h, kv) = (attention.num_attention_heads as nat, attention.num_key_value_heads as nat);
    let d = attention.attention_head_size as nat;
    let flat = choose|flat: Array|
        {
            &&& #[trigger] is_flattened(array(attended), flat)
            &&& linear_gives(array(attention.o_proj.weight), flat, out)
            &&& out.dims == flat.dims.drop_last().push(attention.o_proj.outputs())
        };
    assert(array(attended).dims == array(call.q).dims);
    assert(flat.dims.drop_last()[0] == array(attended).dims.take(1)[0]);
    assert(flat.dims =~= seq![tokens, h * d]);
    lemma_count_two(flat.dims);
    lemma_count_three(array(attended).dims);
    let w = attention.qkv_linear.outputs();
    assert(tokens * (h * d) <= tokens * w) by (nonlinear_arith)
        requires
            (h + 2 * kv) * d == w,
            kv >= 0,
            d >= 0,
            tokens >= 0,
    ;
    assert(tokens * h * d == tokens * (h * d)) by (nonlinear_arith);
    flat
}

/// No token attends to a token of another sequence: where two batches agree on the states and the
/// angles of a sequence, they get the same rows for it.
pub proof fn law_no_attention_across_sequences<
    K: Fn(AttentionCall) -> Result<Tensor, ModelError>,
>(
    attention: BidirectionalMistralAttention,
    kernel: K,
    x: Array,
    y: Array,
    place: Placement,
    other_place: Placement,
    out: Array,
    other: Array,
    k: nat,
    start: nat,
    len: nat,
)
    requires
        works_slice_by_slice(),
        is_kernel(kernel),
        keeps_to_sequences(kernel),
        attention.attends(kernel, x, place, out),
        attention.attends(kernel, y, other_place, other),
        x.dims.len() == 2,
        y.dims == x.dims,
        has_full_heads(attention, x.dims[0]),
        start + len <= x.dims[0],
        bound(place.cu_seqlens, k) == start,
        bound(place.cu_seqlens, k + 1) == start + len,
        other_place.cu_seqlens == place.cu_seqlens,
        place.cos.dims.len() > 0 && place.cos.dims[0] == x.dims[0],
        place.sin.dims.len() > 0 && place.sin.dims[0] == x.dims[0],
        other_place.cos == place.cos,
        other_place.sin == place.sin,
        narrowed(x, 0, start, len) == narrowed(y, 0, start, len),
    ensures
        narrowed(out, 0, start, len) == narrowed(other, 0, start, len),
{
    let list = run(start, len);
    lemma_run_is_narrowed(x, 0, start, len);
    lemma_run_is_narrowed(y, 0, start, len);
    lemma_run_is_narrowed(place.cos, 0, start, len);
    lemma_run_is_narrowed(place.sin, 0, start, len);
    law_attention_keeps_to_sequences(
        attention,
        kernel,
        x,
        place,
        out,
        k,
        y,
        other_place,
        other,
        k,
        list,
        list,
    );
    lemma_run_is_narrowed(out, 0, start, len);
    lemma_run_is_narrowed(other, 0, start, len);
}

/// The attention sees earlier and later tokens alike: without a window, reordering the tokens of a
/// sequence, with their angles, reorders what they get, and does nothing else to it.
pub proof fn law_reordering_tokens_reorders_their_rows<
    K: Fn(AttentionCall) -> Result<Tensor, ModelError>,
>(
    attention: BidirectionalMistralAttention,
    kernel: K,
    x: Array,
    y: Array,
    place: Placement,
    other_place: Placement,
    out: Array,
    other: Array,
    k: nat,
    start: nat,
    len: nat,
    order: Seq<nat>,
)
    requires
        works_slice_by_slice(),
        is_kernel(kernel),
        keeps_to_sequences(kernel),
        attention.attends(kernel, x, place, out),
        attention.attends(kernel, y, other_place, other),
        attention.window_size_left is None,
        x.dims.len() == 2,
        y.dims == x.dims,
        has_full_heads(attention, x.dims[0]),
        start + len <= x.dims[0],
        bound(place.cu_seqlens, k) == start,
        bound(place.cu_seqlens, k + 1) == start + len,
        other_place.cu_seqlens == place.cu_seqlens,
        place.cos.dims.len() > 0 && place.cos.dims[0] == x.dims[0],
        place.sin.dims.len() > 0 && place.sin.dims[0] == x.dims[0],
        other_place.cos.dims == place.cos.dims,
        other_place.sin.dims == place.sin.dims,
        is_arrangement(order, start, start + len),
        narrowed(y, 0, start, len) == chosen(x, order, 0),
        narrowed(other_place.cos, 0, start, len) == chosen(place.cos, order, 0),
        narrowed(other_place.sin, 0, start, len) == chosen(place.sin, order, 0),
    ensures
        narrowed(other, 0, start, len) == chosen(out, order, 0),
{
    let list = run(start, len);
    lemma_run_is_narrowed(y, 0, start, len);
    lemma_run_is_narrowed(other_place.cos, 0, start, len);
    lemma_run_is_narrowed(other_place.sin, 0, start, len);
    assert(in_range(order, x.dims[0]));
    law_attention_keeps_to_sequences(
        attention,
        kernel,
        x,
        place,
        out,
        k,
        y,
        other_place,
        other,
        k,
        order,
        list,
    );
    lemma_run_is_narrowed(other, 0, start, len);
}

pub(crate) proof fn lemma_rms_shares(
    norm: RMSNorm,
    x: Array,
    residual: Option<Array>,
    normed: Array,
    sum: Array,
    y: Array,
    other_residual: Option<Array>,
    other_normed: Array,
    other_sum: Array,
    of_x: Seq<nat>,
    of_y: Seq<nat>,
)
    requires
        works_slice_by_slice(),
        rms_run(norm, x, residual, normed, sum),
        rms_run(norm, y, other_residual, other_normed, other_sum),
        x.dims.len() == 2,
        norm.norms(x.dims[1]),
        shares(x, y, of_x, of_y, 0),
        shares_residual(residual, other_residual, of_x, of_y),
    ensures
        shares(normed, other_normed, of_x, of_y, 0),
        shares(sum, other_sum, of_x, of_y, 0),
        normed.dims == x.dims,
        other_normed.dims == y.dims,
{
    lemma_shared_shape(x, y, of_x, of_y, 0);
    match residual {
        Some(r) => {
            lemma_add_shares(x, r, sum, y, other_residual->Some_0, other_sum, of_x, of_y, 0);
        },
        None => {},
    }
    lemma_rms_norm_shares(
        array(norm.weight),
        scalar_bits(array(norm.epsilon)),
        sum,
        normed,
        other_sum,
        other_normed,
        of_x,
        of_y,
        0,
    );
}

/// Two residuals share these rows, or there are none.
pub open spec fn shares_residual(
    a: Option<Array>,
    b: Option<Array>,
    of_a: Seq<nat>,
    of_b: Seq<nat>,
) -> bool {
    match a {
        Some(a) => b is Some && shares(a, b->Some_0, of_a, of_b, 0),
        None => b is None,
    }
}

/// Where two batches have the same sequence, and in what order its tokens are listed.
pub struct Listing {
    pub place: Placement,
    pub k: nat,
    pub tokens: Seq<nat>,
    pub other_place: Placement,
    pub other_k: nat,
    pub other_tokens: Seq<nat>,
}

/// The two lists name the tokens of one sequence each, with the same angles, and in the order in
/// which they stand if that is asked for.
pub open spec fn lists_same_sequence(l: Listing, in_order: bool) -> bool {
    &&& lists_sequence(l.tokens, l.place.cu_seqlens, l.k)
    &&& lists_sequence(l.other_tokens, l.other_place.cu_seqlens, l.other_k)
    &&& in_order ==> is_in_order(l.tokens, l.place.cu_seqlens, l.k) && is_in_order(
        l.other_tokens,
        l.other_place.cu_seqlens,
        l.other_k,
    )
    &&& shares(l.place.cos, l.other_place.cos, l.tokens, l.other_tokens, 0)
    &&& shares(l.place.sin, l.other_place.sin, l.tokens, l.other_tokens, 0)
}

/// A layer keeps to the sequences: what it gives for the tokens of a sequence depends on these
/// tokens alone.
pub proof fn law_layer_keeps_to_sequences<K: Fn(AttentionCall) -> Result<Tensor, ModelError>>(
    layer: BidirectionalMistralLayer,
    kernel: K,
    l: Listing,
    x: Array,
    residual: Option<Array>,
    out: Array,
    sum: Array,
    y: Array,
    other_residual: Option<Array>,
    other: Array,
    other_sum: Array,
)
    requires
        works_slice_by_slice(),
        is_kernel(kernel),
        keeps_to_sequences(kernel),
        layer.runs(kernel, x, residual, l.place, out, sum),
        layer.runs(kernel, y, other_residual, l.other_place, other, other_sum),
        x.dims.len() == 2,
        layer.is_sized(x.dims[1]),
        has_full_heads(layer.attention, x.dims[0]),
        has_full_heads(layer.attention, y.dims[0]),
        lists_same_sequence(l, layer.attention.window_size_left is Some),
        shares(x, y, l.tokens, l.other_tokens, 0),
        shares_residual(residual, other_residual, l.tokens, l.other_tokens),
    ensures
        shares(out, other, l.tokens, l.other_tokens, 0),
        shares(sum, other_sum, l.tokens, l.other_tokens, 0),
        out.dims == x.dims,
        other.dims == y.dims,
{
    let (a, b) = (l.tokens, l.other_tokens);
    lemma_shared_shape(x, y, a, b, 0);
    let (normed, before, attended, again) = choose|
        normed: Array,
        before: Array,
        attended: Array,
        again: Array,
    | #[trigger]
        layer.steps(kernel, x, residual, l.place, normed, before, attended, again, out, sum);
    let (normed2, before2, attended2, again2) = choose|
        normed: Array,
        before: Array,
        attended: Array,
        again: Array,
    | #[trigger]
        layer.steps(
            kernel,
            y,
            other_residual,
            l.other_place,
            normed,
            before,
            attended,
            again,
            other,
            other_sum,
        );
    lemma_rms_shares(
        layer.input_layer_norm,
        x,
        residual,
        normed,
        before,
        y,
        other_residual,
        normed2,
        before2,
        a,
        b,
    );
    law_attention_keeps_to_sequences(
        layer.attention,
        kernel,
        normed,
        l.place,
        attended,
        l.k,
        normed2,
        l.other_place,
        attended2,
        l.other_k,
        a,
        b,
    );
    assert(attended.dims =~= x.dims);
    assert(attended2.dims =~= y.dims);
    lemma_rms_shares(
        layer.post_attention_layer_norm,
        attended,
        Some(before),
        again,
        sum,
        attended2,
        Some(before2),
        again2,
        other_sum,
        a,
        b,
    );
    law_feed_forward_acts_row_by_row(layer.mlp, again, out, again2, other, a, b);
    lemma_mlp_dims(layer.mlp, again, out);
    lemma_mlp_dims(layer.mlp, again2, other);
    assert(out.dims =~= x.dims);
    assert(other.dims =~= y.dims);
}

/// The heads of every layer fill the width of its projection, for this many tokens.
pub open spec fn has_full_layers(model: BidirectionalMistralModel, tokens: nat) -> bool {
    forall|k: int|
        0 <= k < model.layers@.len() ==> has_full_heads(
            (#[trigger] model.layers@[k]).attention,
            tokens,
        )
}

/// Some layer has a window.
pub open spec fn has_window(model: BidirectionalMistralModel) -> bool {
    exists|k: int|
        0 <= k < model.layers@.len() && (
        #[trigger] model.layers@[k]).attention.window_size_left is Some
}

proof fn lemma_layers_keep_to_sequences<K: Fn(AttentionCall) -> Result<Tensor, ModelError>>(
    model: BidirectionalMistralModel,
    kernel: K,
    l: Listing,
    n: nat,
    x: Array,
    h: Array,
    residual: Option<Array>,
    y: Array,
    other: Array,
    other_residual: Option<Array>,
)
    requires
        works_slice_by_slice(),
        is_kernel(kernel),
        keeps_to_sequences(kernel),
        model.is_sized(),
        n <= model.layers@.len(),
        model.layers_run(kernel, n, x, l.place, h, residual),
        model.layers_run(kernel, n, y, l.other_place, other, other_residual),
        x.dims.len() == 2,
        x.dims[1] == model.embeddings.hidden_size,
        has_full_layers(model, x.dims[0]),
        has_full_layers(model, y.dims[0]),
        lists_same_sequence(l, has_window(model)),
        shares(x, y, l.tokens, l.other_tokens, 0),
    ensures
        shares(h, other, l.tokens, l.other_tokens, 0),
        shares_residual(residual, other_residual, l.tokens, l.other_tokens),
        h.dims == x.dims,
        other.dims == y.dims,
    decreases n,
{
    if n > 0 {
        let layer = model.layers@[n - 1];
        let m = (n - 1) as nat;
        let (hb, rb) = choose|hb: Array, rb: Option<Array>|
            {
                &&& model.layers_run(kernel, m, x, l.place, hb, rb)
                &&& #[trigger] layer.runs(kernel, hb, rb, l.place, h, residual->Some_0)
            };
        let (hb2, rb2) = choose|hb: Array, rb: Option<Array>|
            {
                &&& model.layers_run(kernel, m, y, l.other_place, hb, rb)
                &&& #[trigger] layer.runs(
                    kernel,
                    hb,
                    rb,
                    l.other_place,
                    other,
                    other_residual->Some_0,
                )
            };
        lemma_layers_keep_to_sequences(model, kernel, l, m, x, hb, rb, y, hb2, rb2);
        assert(layer.is_sized(model.embeddings.hidden_size as nat));
        law_layer_keeps_to_sequences(
            layer,
            kernel,
            l,
            hb,
            rb,
            h,
            residual->Some_0,
            hb2,
            rb2,
            other,
            other_residual->Some_0,
        );
    }
}

/// Rows that two lists of numbers pick alike are shared by what they pick.
pub(crate) proof fn lemma_picked_shares(
    a: Array,
    ids: Array,
    x: Array,
    other_ids: Array,
    y: Array,
    of_x: Seq<nat>,
    of_y: Seq<nat>,
)
    requires
        a.dims.len() > 0,
        ids.dims.len() == 1,
        other_ids.dims.len() == 1,
        ids_below(ids, a.dims[0]),
        ids_below(other_ids, a.dims[0]),
        x == picked(a, ids, 0),
        y == picked(a, other_ids, 0),
        shares(ids, other_ids, of_x, of_y, 0),
    ensures
        shares(x, y, of_x, of_y, 0),
{
    lemma_shared_shape(ids, other_ids, of_x, of_y, 0);
    assert forall|i: Seq<nat>| #[trigger] in_bounds(i, x.dims.update(0, of_x.len())) implies
        x.cells[i.update(0, of_x[i[0] as int])] == y.cells[i.update(0, of_y[i[0] as int])] by {
        let d = x.dims.update(0, of_x.len());
        assert(i[0] < d[0]);
        let (to_x, to_y) = (of_x[i[0] as int], of_y[i[0] as int]);
        let at = seq![i[0]];
        assert(in_bounds(at, ids.dims.update(0, of_x.len())));
        lemma_shared_cell(ids, other_ids, of_x, of_y, 0, at);
        assert(at.update(0, to_x) =~= seq![to_x]);
        assert(at.update(0, to_y) =~= seq![to_y]);
        let (ix, iy) = (i.update(0, to_x), i.update(0, to_y));
        assert(to_x < ids.dims[0] && to_y < other_ids.dims[0]);
        assert(in_bounds(ix, x.dims)) by {
            assert forall|k: int| 0 <= k < x.dims.len() implies ix[k] < x.dims[k] by {
                assert(i[k] < d[k]);
            }
        }
        assert(in_bounds(iy, y.dims)) by {
            assert forall|k: int| 0 <= k < y.dims.len() implies iy[k] < y.dims[k] by {
                assert(i[k] < d[k]);
            }
        }
        let (nx, ny) = (ids.cells[seq![to_x]] as nat, other_ids.cells[seq![to_y]] as nat);
        assert(ix.update(0, nx) =~= iy.update(0, ny));
    }
    lemma_shares(x, y, of_x, of_y, 0);
}

/// Numbers that can be looked up in a table of this many rows.
pub open spec fn are_numbers(ids: Array, rows: nat) -> bool {
    &&& ids.dims.len() == 1
    &&& ids.dtype is U32
    &&& ids_below(ids, rows)
}

/// The tokens and the positions of a batch, and the bounds of its sequences.
pub struct Tokens {
    pub ids: Array,
    pub positions: Array,
    pub bounds: Array,
    pub max_s: nat,
}

/// The tokens and the positions are known to the model, and there are as many of the one as of the
/// other.
pub open spec fn are_known(model: BidirectionalMistralModel, t: Tokens) -> bool {
    &&& are_numbers(t.ids, tensor_dims(model.embeddings.weight)[0])
    &&& tensor_dims(model.cos_cache).len() > 0
    &&& tensor_dims(model.sin_cache).len() > 0
    &&& are_numbers(t.positions, tensor_dims(model.cos_cache)[0])
    &&& are_numbers(t.positions, tensor_dims(model.sin_cache)[0])
    &&& t.positions.dims == t.ids.dims
    &&& has_full_layers(model, t.ids.dims[0])
}

/// The language model keeps to the sequences: where two batches have the same tokens at the same
/// positions in one of their sequences, they get the same states for them.
pub proof fn law_language_model_keeps_to_sequences<
    K: Fn(AttentionCall) -> Result<Tensor, ModelError>,
>(
    model: BidirectionalMistralModel,
    kernel: K,
    a: Tokens,
    out: Array,
    k: nat,
    of_a: Seq<nat>,
    b: Tokens,
    other: Array,
    other_k: nat,
    of_b: Seq<nat>,
)
    requires
        works_slice_by_slice(),
        is_kernel(kernel),
        keeps_to_sequences(kernel),
        model.is_sized(),
        model.encodes(kernel, a.ids, a.positions, a.bounds, a.max_s, out),
        model.encodes(kernel, b.ids, b.positions, b.bounds, b.max_s, other),
        are_known(model, a),
        are_known(model, b),
        lists_sequence(of_a, a.bounds, k),
        lists_sequence(of_b, b.bounds, other_k),
        has_window(model) ==> is_in_order(of_a, a.bounds, k) && is_in_order(
            of_b,
            b.bounds,
            other_k,
        ),
        shares(a.ids, b.ids, of_a, of_b, 0),
        shares(a.positions, b.positions, of_a, of_b, 0),
    ensures
        shares(out, other, of_a, of_b, 0),
        out.dims == seq![a.ids.dims[0], model.embeddings.hidden_size as nat],
        other.dims == seq![b.ids.dims[0], model.embeddings.hidden_size as nat],
{
    let hidden = model.embeddings.hidden_size as nat;
    let n = model.layers@.len();
    let (x, place, h, residual, sum) = choose|
        x: Array,
        place: Placement,
        h: Array,
        residual: Option<Array>,
        sum: Array,
    | #[trigger]
        model.steps(
            kernel,
            a.ids,
            a.positions,
            a.bounds,
            a.max_s,
            x,
            place,
            h,
            residual,
            sum,
            out,
        );
    let (y, place2, h2, residual2, sum2) = choose|
        x: Array,
        place: Placement,
        h: Array,
        residual: Option<Array>,
        sum: Array,
    | #[trigger]
        model.steps(
            kernel,
            b.ids,
            b.positions,
            b.bounds,
            b.max_s,
            x,
            place,
            h,
            residual,
            sum,
            other,
        );
    let weight = array(model.embeddings.weight);
    assert(weight.dims == tensor_dims(model.embeddings.weight));
    assert(array(model.cos_cache).dims == tensor_dims(model.cos_cache));
    assert(array(model.sin_cache).dims == tensor_dims(model.sin_cache));
    assert(is_embedded(weight, a.ids, x) && is_embedded(weight, b.ids, y));
    lemma_picked_shares(weight, a.ids, x, b.ids, y, of_a, of_b);
    assert(is_picked(array(model.cos_cache), a.positions, 0, place.cos));
    assert(is_picked(array(model.cos_cache), b.positions, 0, place2.cos));
    lemma_picked_shares(
        array(model.cos_cache),
        a.positions,
        place.cos,
        b.positions,
        place2.cos,
        of_a,
        of_b,
    );
    lemma_picked_shares(
        array(model.sin_cache),
        a.positions,
        place.sin,
        b.positions,
        place2.sin,
        of_a,
        of_b,
    );
    assert(x.dims =~= seq![a.ids.dims[0], hidden]);
    assert(y.dims =~= seq![b.ids.dims[0], hidden]);
    let l = Listing {
        place,
        k,
        tokens: of_a,
        other_place: place2,
        other_k,
        other_tokens: of_b,
    };
    lemma_layers_keep_to_sequences(model, kernel, l, n, x, h, residual, y, h2, residual2);
    lemma_rms_shares(
        model.norm,
        h,
        residual,
        out,
        sum,
        h2,
        residual2,
        other,
        sum2,
        of_a,
        of_b,
    );
}

/// Packing sequences into one batch does not change their states: the rows of a sequence are the
/// states that it has alone.
pub proof fn law_packing_changes_no_states<K: Fn(AttentionCall) -> Result<Tensor, ModelError>>(
    model: BidirectionalMistralModel,
    kernel: K,
    packed: Tokens,
    out: Array,
    k: nat,
    start: nat,
    len: nat,
    alone: Tokens,
    other: Array,
)
    requires
        works_slice_by_slice(),
        is_kernel(kernel),
        keeps_to_sequences(kernel),
        model.is_sized(),
        model.encodes(kernel, packed.ids, packed.positions, packed.bounds, packed.max_s, out),
        model.encodes(kernel, alone.ids, alone.positions, alone.bounds, alone.max_s, other),
        are_known(model, packed),
        are_known(model, alone),
        bound(packed.bounds, k) == start,
        bound(packed.bounds, k + 1) == start + len,
        start + len <= packed.ids.dims[0],
        bound(alone.bounds, 0) == 0,
        bound(alone.bounds, 1) == len,
        alone.ids == narrowed(packed.ids, 0, start, len),
        alone.positions == narrowed(packed.positions, 0, start, len),
        well_formed(other),
    ensures
        narrowed(out, 0, start, len) == other,
{
    let (of_a, of_b) = (run(start, len), run(0, len));
    lemma_run_is_narrowed(packed.ids, 0, start, len);
    lemma_run_is_narrowed(packed.positions, 0, start, len);
    lemma_all_are_whole(alone.ids, 0);
    lemma_all_are_whole(alone.positions, 0);
    law_language_model_keeps_to_sequences(
        model,
        kernel,
        packed,
        out,
        k,
        of_a,
        alone,
        other,
        0,
        of_b,
    );
    lemma_run_is_narrowed(out, 0, start, len);
    lemma_all_are_whole(other, 0);
}

} // verus!
