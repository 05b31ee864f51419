//! How calls of the latent attention and of its parts relate to each other.
//!
//! As for the language model, two ways to the same outcome are compared where nothing is rounded.
use crate::array::{
    chunk_of, count, in_bounds, is_repeated, is_reshape, join, joinable,
    law_narrowing_undoes_joining, lemma_count_one, lemma_count_two, narrowed, permuted, scalar_bits,
    transposed, Array,
};
use crate::cross_attention::{heads_first, CrossAttention, ZERO};
use crate::error::ModelError;
use crate::exact::{
    lemma_add_same, lemma_affine_same, lemma_gelu_same, lemma_layer_norm_same, lemma_linear_same,
    lemma_matmul_same, lemma_mul_same, lemma_same_shares, lemma_same_tensors, lemma_shares_same,
    lemma_softmax_same, linear_works_feature_by_feature, same, works_slice_by_slice,
};
use crate::feed_forward::{geglu_run, FeedForward, GEGLU};
use crate::latent::{
    law_every_sequence_gets_the_latents, per_sequence, LatentAttentionModel, PreNorm,
};
use crate::latent_laws::{
    are_halves, fits_together, has_full_heads, is_gathering, is_taken, keys_of,
    law_items_attend_by_themselves, lemma_feed_forward_shares, lemma_full_heads, lemma_gate,
    lemma_gathered_dims, lemma_gathering, lemma_halves, lemma_unit_shares, lemma_way, Gathering,
};
use crate::layers::{layer_norm_run, LayerNorm, Linear};
use crate::ops::{affine_gives, linear_gives, softmax_gives};
use crate::rows::{lemma_position_append, lemma_turned_cell, lemma_turned_dims, run};
use crate::tensor::{add_gives, array, matmul_gives, tensor_dims};
use crate::token_calls::{
    add_gave, cell, lemma_position_one, lemma_reshape_back, linear_gave, mul_gave,
};
use candle_core::Tensor;
use vstd::prelude::*;

verus! {

/// The gated linear unit, called on `x`, gave `out`.
pub open spec fn unit_gave(x: Tensor, out: Tensor) -> bool {
    call_ensures(GEGLU::forward, (&x,), Ok::<Tensor, ModelError>(out))
}

/// The feed-forward part, called on `x`, gave `out`.
pub open spec fn feed_forward_gave(ff: FeedForward, x: Tensor, out: Tensor) -> bool {
    call_ensures(FeedForward::forward, (&ff, &x), Ok::<Tensor, ModelError>(out))
}

/// The attention, called on these queries and this context, gave `out`.
pub open spec fn cross_attention_gave(
    attention: CrossAttention,
    x: Tensor,
    context: Tensor,
    out: Tensor,
) -> bool {
    call_ensures(CrossAttention::forward, (&attention, &x, &context), Ok::<Tensor, ModelError>(out))
}

/// The norms, called on `x` and on a context, gave these.
pub open spec fn norms_gave(
    norms: PreNorm,
    x: Tensor,
    context: Option<Tensor>,
    normed: Tensor,
    normed_context: Option<Tensor>,
) -> bool {
    call_ensures(
        PreNorm::forward,
        (
            &norms,
            &x,
            match context {
                Some(c) => Some(&c),
                None => None,
            },
        ),
        Ok::<(Tensor, Option<Tensor>), ModelError>((normed, normed_context)),
    )
}

/// The gated linear unit of two halves is the first one times the activated second one.
pub proof fn law_unit_is_a_product_of_its_halves(
    a: Tensor,
    b: Tensor,
    x: Tensor,
    gate: Tensor,
    expected: Tensor,
    out: Tensor,
)
    requires
        works_slice_by_slice(),
        are_halves(array(a), array(b)),
        array(x) == join(array(a), array(b), tensor_dims(a).len() - 1),
        call_ensures(Tensor::gelu, (&b,), Ok::<Tensor, candle_core::Error>(gate)),
        mul_gave(a, gate, expected),
        unit_gave(x, out),
    ensures
        array(out) == array(expected),
{
    let inner = lemma_gate(array(a), array(b), array(out));
    assert(same(array(a), array(a)) && same(array(b), array(b)));
    lemma_gelu_same(array(b), inner, array(b), array(gate));
    lemma_mul_same(array(a), inner, array(out), array(a), array(gate), array(expected));
    lemma_same_tensors(out, expected);
}

/// A feed-forward part is its first projection, the gated linear unit, and its second projection.
pub proof fn law_feed_forward_is_its_parts(
    ff: FeedForward,
    x: Tensor,
    wide: Tensor,
    gated: Tensor,
    expected: Tensor,
    out: Tensor,
)
    requires
        works_slice_by_slice(),
        tensor_dims(x).len() == 3,
        linear_gave(ff.net_w1, x, wide),
        unit_gave(wide, gated),
        linear_gave(ff.net_w2, gated, expected),
        feed_forward_gave(ff, x, out),
    ensures
        array(out) == array(expected),
{
    let ax = array(x);
    let (wide2, gated2) = choose|wide2: Array, gated2: Array|
        {
            &&& #[trigger] linear_gives(array(ff.net_w1.weight), ax, wide2)
            &&& #[trigger] geglu_run(wide2, gated2)
            &&& linear_gives(array(ff.net_w2.weight), gated2, array(out))
            &&& wide2.dims == ax.dims.drop_last().push(ff.net_w1.outputs())
            &&& array(out).dims == ax.dims.drop_last().push(ff.net_w2.outputs())
        };
    assert(same(ax, ax));
    lemma_linear_same(array(ff.net_w1.weight), ax, array(wide), ax, wide2);
    let all = run(0, ax.dims[0]);
    lemma_same_shares(array(wide), wide2, 0);
    lemma_unit_shares(array(wide), array(gated), wide2, gated2, all, all);
    lemma_shares_same(array(gated), gated2, 0);
    assert(array(out).dims =~= array(expected).dims);
    lemma_linear_same(
        array(ff.net_w2.weight),
        array(gated),
        array(expected),
        gated2,
        array(out),
    );
    lemma_same_tensors(out, expected);
}

/// The norms of an attention are taken of the queries and of the context, each with its own norm; a
/// context without a norm stays as it is.
pub proof fn law_norms_are_taken_apart(
    norms: PreNorm,
    x: Tensor,
    context: Tensor,
    normed: Tensor,
    normed_context: Tensor,
    expected: Tensor,
    expected_context: Tensor,
)
    requires
        works_slice_by_slice(),
        tensor_dims(x).len() > 1,
        tensor_dims(context).len() > 1,
        norms.norm.norms(tensor_dims(x).last()),
        norms.context_norm matches Some(norm) ==> norm.norms(tensor_dims(context).last()),
        norms_gave(norms, x, Some(context), normed, Some(normed_context)),
        call_ensures(LayerNorm::forward, (&norms.norm, &x), Ok::<Tensor, ModelError>(expected)),
        norms.context_norm matches Some(norm) ==> call_ensures(
            LayerNorm::forward,
            (&norm, &context),
            Ok::<Tensor, ModelError>(expected_context),
        ),
        norms.context_norm is None ==> array(expected_context) == array(context),
    ensures
        array(normed) == array(expected),
        array(normed_context) == array(expected_context),
{
    assert(same(array(x), array(x)) && same(array(context), array(context)));
    lemma_norm_same(norms.norm, array(x), array(normed), array(x), array(expected));
    lemma_same_tensors(normed, expected);
    match norms.context_norm {
        Some(norm) => {
            let c = array(context);
            lemma_norm_same(norm, c, array(normed_context), c, array(expected_context));
            lemma_same_tensors(normed_context, expected_context);
        },
        None => {},
    }
}

proof fn lemma_norm_same(norm: LayerNorm, x: Array, o: Array, y: Array, p: Array)
    requires
        works_slice_by_slice(),
        layer_norm_run(norm, x, o),
        layer_norm_run(norm, y, p),
        same(x, y),
        x.dims.len() > 1,
        norm.norms(x.dims.last()),
    ensures
        same(o, p),
        o.dims == x.dims,
{
    lemma_layer_norm_same(
        array(norm.weight),
        array(norm.bias),
        scalar_bits(array(norm.epsilon)),
        x,
        o,
        y,
        p,
    );
}

/// The latents, once for every sequence of a batch.
pub open spec fn are_copies(latents: Tensor, batch: nat, x: Tensor) -> bool {
    &&& tensor_dims(x) == seq![batch, tensor_dims(latents)[0], tensor_dims(latents)[1]]
    &&& array(x).dtype == array(latents).dtype
    &&& forall|s: nat, l: nat, c: nat|
        s < batch && l < tensor_dims(latents)[0] && c < tensor_dims(latents)[1]
            ==> #[trigger] cell(array(x), s, l, c) == array(latents).cells[seq![l, c]]
}

proof fn lemma_copies_same(
    model: LatentAttentionModel,
    states: Array,
    x: Tensor,
    y: Array,
)
    requires
        is_taken(model, states),
        are_copies(model.latents, states.dims[0], x),
        is_repeated(
            array(model.latents),
            per_sequence(states.dims[0] as usize),
            y,
        ),
        y.dims == model.gathered_dims(states.dims[0]),
    ensures
        same(array(x), y),
{
    lemma_gathered_dims(model, states);
    let ax = array(x);
    assert(ax.dims == tensor_dims(x));
    assert forall|i: Seq<nat>| #[trigger] in_bounds(i, ax.dims) implies ax.cells[i]
        == y.cells[i] by {
        assert(i[0] < ax.dims[0] && i[1] < ax.dims[1] && i[2] < ax.dims[2]);
        law_every_sequence_gets_the_latents(
            model,
            states.dims[0] as usize,
            y,
            i[0],
            i[1],
            i[2],
        );
        assert(i =~= seq![i[0], i[1], i[2]]);
        assert(cell(ax, i[0], i[1], i[2]) == array(model.latents).cells[seq![i[1], i[2]]]);
    }
}

/// What the latents gather from the states, up to the first sum: the latents, their norm and the
/// norm of the states, the attention of the one to the other, and the latents plus its outcome.
pub open spec fn attended_to(
    model: LatentAttentionModel,
    states: Tensor,
    x: Tensor,
    normed: Tensor,
    context: Tensor,
    cross: Tensor,
    sum: Tensor,
) -> bool {
    &&& are_copies(model.latents, tensor_dims(states)[0], x)
    &&& norms_gave(model.cross_attend_norm, x, Some(states), normed, Some(context))
    &&& cross_attention_gave(model.cross_attention, normed, context, cross)
    &&& add_gave(x, cross, sum)
}

/// The model, called on these states, gathered `out`.
pub open spec fn gathering_gave(model: LatentAttentionModel, states: Tensor, out: Tensor) -> bool {
    call_ensures(LatentAttentionModel::gather, (&model, &states), Ok::<Tensor, ModelError>(out))
}

/// The attention of the same to the same is the same.
proof fn lemma_cross_same(
    attention: CrossAttention,
    x: Array,
    context: Array,
    out: Array,
    y: Array,
    context2: Array,
    out2: Array,
)
    requires
        works_slice_by_slice(),
        has_full_heads(attention),
        attention.attends(x, context, out),
        attention.attends(y, context2, out2),
        fits_together(attention, x, context),
        same(x, y),
        same(context, context2),
    ensures
        same(out, out2),
{
    let all = run(0, x.dims[0]);
    lemma_same_shares(x, y, 0);
    lemma_same_shares(context, context2, 0);
    law_items_attend_by_themselves(
        attention,
        x,
        context,
        out,
        y,
        context2,
        out2,
        all,
        all,
    );
    lemma_shares_same(out, out2, 0);
}

/// The first sum inside of a call is the one that its parts give.
proof fn lemma_sum_inside(
    model: LatentAttentionModel,
    states: Tensor,
    x: Tensor,
    normed: Tensor,
    context: Tensor,
    cross: Tensor,
    sum: Tensor,
    out: Tensor,
) -> (g: Gathering)
    requires
        works_slice_by_slice(),
        is_taken(model, array(states)),
        attended_to(model, states, x, normed, context, cross, sum),
        gathering_gave(model, states, out),
    ensures
        is_gathering(model, array(states), array(out), g),
        same(g.sum, array(sum)),
        array(sum).dims == seq![
            tensor_dims(states)[0],
            tensor_dims(model.latents)[0],
            tensor_dims(model.latents)[1],
        ],
{
    let s = array(states);
    let g = lemma_gathering(model, s, array(out));
    lemma_copies_same(model, s, x, g.x);
    assert(same(s, s));
    lemma_norm_same(
        model.cross_attend_norm.norm,
        array(x),
        array(normed),
        g.x,
        g.normed,
    );
    match model.cross_attend_norm.context_norm {
        Some(norm) => lemma_norm_same(norm, s, array(context), s, g.context),
        None => {},
    }
    lemma_cross_same(
        model.cross_attention,
        g.normed,
        g.context,
        g.cross,
        array(normed),
        array(context),
        array(cross),
    );
    lemma_add_same(g.x, g.cross, g.sum, array(x), array(cross), array(sum));
    g
}

/// What follows the first sum is a function of that sum: its norm, the feed-forward part of that,
/// and the two added up.
proof fn lemma_rest_same(
    ff_norm: PreNorm,
    ff: FeedForward,
    sum: Array,
    normed: Array,
    fed: Array,
    out: Array,
    sum2: Array,
    normed2: Array,
    fed2: Array,
    out2: Array,
)
    requires
        works_slice_by_slice(),
        sum.dims.len() == 3,
        ff_norm.norm.norms(sum.dims[2]),
        layer_norm_run(ff_norm.norm, sum, normed),
        layer_norm_run(ff_norm.norm, sum2, normed2),
        ff.runs(normed, fed),
        ff.runs(normed2, fed2),
        add_gives(sum, fed, out),
        add_gives(sum2, fed2, out2),
        same(sum, sum2),
        fed.dims == sum.dims,
        fed2.dims == sum.dims,
        out.dims == sum.dims,
        out2.dims == sum.dims,
    ensures
        same(out, out2),
{
    lemma_norm_same(ff_norm.norm, sum, normed, sum2, normed2);
    let all = run(0, sum.dims[0]);
    lemma_same_shares(normed, normed2, 0);
    lemma_feed_forward_shares(ff, normed, fed, normed2, fed2, all, all);
    lemma_shares_same(fed, fed2, 0);
    lemma_add_same(sum, fed, out, sum2, fed2, out2);
}

/// What the latents gather is the sum of the latents and what they attended to, plus what the
/// feed-forward part makes of the norm of that sum.
pub proof fn law_gathered_is_the_sum_and_its_feed_forward_part(
    model: LatentAttentionModel,
    states: Tensor,
    x: Tensor,
    normed: Tensor,
    context: Tensor,
    cross: Tensor,
    sum: Tensor,
    normed_sum: Tensor,
    fed: Tensor,
    expected: Tensor,
    out: Tensor,
)
    requires
        works_slice_by_slice(),
        is_taken(model, array(states)),
        attended_to(model, states, x, normed, context, cross, sum),
        norms_gave(model.ff_norm, sum, None, normed_sum, None),
        feed_forward_gave(model.feed_forward, normed_sum, fed),
        add_gave(sum, fed, expected),
        gathering_gave(model, states, out),
    ensures
        array(out) == array(expected),
{
    let g = lemma_sum_inside(model, states, x, normed, context, cross, sum, out);
    lemma_rest_same(
        model.ff_norm,
        model.feed_forward,
        g.sum,
        g.normed_again,
        g.ff,
        array(out),
        array(sum),
        array(normed_sum),
        array(fed),
        array(expected),
    );
    lemma_same_tensors(out, expected);
}

/// What is gathered depends on the latents and on the states only through the sum of the latents
/// and what they attended to: two models with the same feed-forward part and the norm before it
/// that come to the same sum gather the same.
pub proof fn law_gathered_depends_on_the_sum_only(
    a: LatentAttentionModel,
    b: LatentAttentionModel,
    states: Tensor,
    x: Tensor,
    normed: Tensor,
    context: Tensor,
    cross: Tensor,
    sum: Tensor,
    out: Tensor,
    states2: Tensor,
    x2: Tensor,
    normed2: Tensor,
    context2: Tensor,
    cross2: Tensor,
    sum2: Tensor,
    out2: Tensor,
)
    requires
        works_slice_by_slice(),
        b.ff_norm == a.ff_norm,
        b.feed_forward == a.feed_forward,
        is_taken(a, array(states)),
        is_taken(b, array(states2)),
        attended_to(a, states, x, normed, context, cross, sum),
        attended_to(b, states2, x2, normed2, context2, cross2, sum2),
        gathering_gave(a, states, out),
        gathering_gave(b, states2, out2),
        array(sum) == array(sum2),
    ensures
        array(out) == array(out2),
{
    let g = lemma_sum_inside(a, states, x, normed, context, cross, sum, out);
    let g2 = lemma_sum_inside(b, states2, x2, normed2, context2, cross2, sum2, out2);
    lemma_rest_same(
        a.ff_norm,
        a.feed_forward,
        g.sum,
        g.normed_again,
        g.ff,
        array(out),
        g2.sum,
        g2.normed_again,
        g2.ff,
        array(out2),
    );
    lemma_same_tensors(out, out2);
}

/// A cell of an array of four dimensions.
pub open spec fn cell_of_four(a: Array, b: nat, h: nat, i: nat, e: nat) -> u64 {
    a.cells[seq![b, h, i, e]]
}

/// `heads` holds, for every item and every head, the rows of `a` cut to that head.
pub open spec fn are_rows_by_head(a: Array, heads: Array, count: nat, size: nat) -> bool {
    &&& heads.dims == seq![a.dims[0], count, a.dims[1], size]
    &&& heads.dtype == a.dtype
    &&& forall|b: nat, h: nat, i: nat, e: nat|
        b < a.dims[0] && h < count && i < a.dims[1] && e < size ==> #[trigger] cell_of_four(
            heads,
            b,
            h,
            i,
            e,
        ) == a.cells[seq![b, i, h * size + e]]
}

/// `columns` holds, for every item and every head, the rows of `a` cut to that head, as columns.
pub open spec fn are_columns_by_head(a: Array, columns: Array, count: nat, size: nat) -> bool {
    &&& columns.dims == seq![a.dims[0], count, size, a.dims[1]]
    &&& columns.dtype == a.dtype
    &&& forall|b: nat, h: nat, e: nat, j: nat|
        b < a.dims[0] && h < count && e < size && j < a.dims[1] ==> #[trigger] cell_of_four(
            columns,
            b,
            h,
            e,
            j,
        ) == a.cells[seq![b, j, h * size + e]]
}

proof fn lemma_apart_cell(a: Array, apart: Array, b: nat, i: nat, h: nat, e: nat)
    requires
        is_reshape(a, apart),
        a.dims.len() == 3,
        apart.dims.len() == 4,
        apart.dims[0] == a.dims[0],
        apart.dims[1] == a.dims[1],
        apart.dims[2] * apart.dims[3] == a.dims[2],
        b < apart.dims[0],
        i < apart.dims[1],
        h < apart.dims[2],
        e < apart.dims[3],
    ensures
        h * apart.dims[3] + e < a.dims[2],
        apart.cells[seq![b, i, h, e]] == a.cells[seq![b, i, h * apart.dims[3] + e]],
{
    let (n, s, w) = (apart.dims[2], apart.dims[3], a.dims[2]);
    assert(h * s + e < n * s) by (nonlinear_arith)
        requires
            h + 1 <= n,
            e < s,
    ;
    let (p, q) = (seq![b, i, h * s + e], seq![b, i, h, e]);
    assert(in_bounds(p, a.dims));
    assert(in_bounds(q, apart.dims));
    let (front, dims) = (seq![b, i], seq![a.dims[0], a.dims[1]]);
    assert(p =~= front + seq![h * s + e]);
    assert(q =~= front + seq![h, e]);
    assert(a.dims =~= dims + seq![w]);
    assert(apart.dims =~= dims + seq![n, s]);
    lemma_position_append(front, seq![h * s + e], dims, seq![w]);
    lemma_position_append(front, seq![h, e], dims, seq![n, s]);
    lemma_position_one(h * s + e, seq![w]);
    lemma_position_append(seq![h], seq![e], seq![n], seq![s]);
    assert(seq![h] + seq![e] =~= seq![h, e]);
    assert(seq![n] + seq![s] =~= seq![n, s]);
    lemma_position_one(h, seq![n]);
    lemma_position_one(e, seq![s]);
    lemma_count_one(w);
    lemma_count_one(s);
    lemma_count_two(seq![n, s]);
}

/// What was cut into heads inside of a call is what was cut into heads outside of it.
proof fn lemma_rows_by_head(
    a: Array,
    apart: Array,
    outside: Array,
    heads: Array,
    count: nat,
    size: nat,
)
    requires
        is_reshape(a, apart),
        a.dims.len() == 3,
        count * size == a.dims[2],
        apart.dims == seq![a.dims[0], a.dims[1], count, size],
        same(a, outside),
        are_rows_by_head(outside, heads, count, size),
    ensures
        same(permuted(apart, heads_first()), heads),
{
    let turned = permuted(apart, heads_first());
    lemma_turned_dims(apart);
    assert forall|i: Seq<nat>| #[trigger] in_bounds(i, turned.dims) implies turned.cells[i]
        == heads.cells[i] by {
        let d = turned.dims;
        assert(i[0] < d[0] && i[1] < d[1] && i[2] < d[2] && i[3] < d[3]);
        lemma_turned_cell(apart, i);
        lemma_apart_cell(a, apart, i[0], i[2], i[1], i[3]);
        assert(cell_of_four(heads, i[0], i[1], i[2], i[3]) == outside.cells[seq![
            i[0],
            i[2],
            i[1] * size + i[3],
        ]]);
        assert(in_bounds(seq![i[0], i[2], i[1] * size + i[3]], a.dims));
        assert(i =~= seq![i[0], i[1], i[2], i[3]]);
    }
}

proof fn lemma_columns_by_head(
    a: Array,
    apart: Array,
    outside: Array,
    columns: Array,
    count: nat,
    size: nat,
)
    requires
        is_reshape(a, apart),
        a.dims.len() == 3,
        count * size == a.dims[2],
        apart.dims == seq![a.dims[0], a.dims[1], count, size],
        same(a, outside),
        are_columns_by_head(outside, columns, count, size),
    ensures
        same(transposed(permuted(apart, heads_first()), 2, 3), columns),
{
    let turned = permuted(apart, heads_first());
    let flipped = transposed(turned, 2, 3);
    lemma_turned_dims(apart);
    assert(flipped.dims =~= columns.dims);
    assert forall|i: Seq<nat>| #[trigger] in_bounds(i, flipped.dims) implies flipped.cells[i]
        == columns.cells[i] by {
        let d = flipped.dims;
        assert(i[0] < d[0] && i[1] < d[1] && i[2] < d[2] && i[3] < d[3]);
        let j = i.update(2, i[3]).update(3, i[2]);
        assert(in_bounds(j, turned.dims));
        lemma_turned_cell(apart, j);
        lemma_apart_cell(a, apart, i[0], i[3], i[1], i[2]);
        assert(seq![j[0], j[2], j[1], j[3]] =~= seq![i[0], i[3], i[1], i[2]]);
        assert(cell_of_four(columns, i[0], i[1], i[2], i[3]) == outside.cells[seq![
            i[0],
            i[3],
            i[1] * size + i[2],
        ]]);
        assert(in_bounds(seq![i[0], i[3], i[1] * size + i[2]], a.dims));
        assert(i =~= seq![i[0], i[1], i[2], i[3]]);
    }
}

/// The projections of the context inside of a call are those of the two halves of its weight.
proof fn lemma_projected_context(
    attention: CrossAttention,
    key: Linear,
    value: Linear,
    context: Tensor,
    kv: Array,
    k: Tensor,
    v: Tensor,
)
    requires
        works_slice_by_slice(),
        linear_works_feature_by_feature(),
        has_full_heads(attention),
        tensor_dims(context).len() == 3,
        has_halves(attention, key, value),
        linear_gives(array(attention.to_kv.weight), array(context), kv),
        kv.dims == seq![
            tensor_dims(context)[0],
            tensor_dims(context)[1],
            2 * attention.to_q.outputs(),
        ],
        linear_gave(key, context, k),
        linear_gave(value, context, v),
    ensures
        same(chunk_of(kv, 2, 0), array(k)),
        same(chunk_of(kv, 2, 1), array(v)),
{
    let width = attention.to_q.outputs();
    let (kw, vw) = (array(key.weight), array(value.weight));
    let fused = array(attention.to_kv.weight);
    let c = array(context);
    assert(joinable(kw, vw, 0));
    law_narrowing_undoes_joining(kw, vw, 0);
    lemma_halves(attention, kv);
    assert(kv.dims =~= c.dims.drop_last().push(fused.dims[0]));
    assert(linear_gives(narrowed(fused, 0, 0, width), c, narrowed(kv, 2, 0, width)));
    assert(linear_gives(narrowed(fused, 0, width, width), c, narrowed(kv, 2, width, width)));
    assert(same(c, c));
    assert(chunk_of(kv, 2, 0).dims =~= array(k).dims);
    assert(chunk_of(kv, 2, 1).dims =~= array(v).dims);
    lemma_linear_same(kw, c, chunk_of(kv, 2, 0), c, array(k));
    lemma_linear_same(vw, c, chunk_of(kv, 2, 1), c, array(v));
}

/// The weight for keys and values is that of the keys above that of the values.
pub open spec fn has_halves(attention: CrossAttention, key: Linear, value: Linear) -> bool {
    &&& tensor_dims(key.weight).len() == 2
    &&& tensor_dims(key.weight)[0] == attention.to_q.outputs()
    &&& tensor_dims(value.weight) == tensor_dims(key.weight)
    &&& array(value.weight).dtype == array(key.weight).dtype
    &&& array(attention.to_kv.weight) == join(array(key.weight), array(value.weight), 0)
}

/// The attention with several heads: for every head, the products of the queries with the keys,
/// times the scale, become weights that add up to one, by which the values are mixed; the heads are
/// put next to each other and projected. Keys and values are projections of the context, queries
/// of `x`.
pub proof fn law_attention_mixes_values_by_scaled_products(
    attention: CrossAttention,
    key: Linear,
    value: Linear,
    x: Tensor,
    context: Tensor,
    q: Tensor,
    k: Tensor,
    v: Tensor,
    queries: Array,
    keys: Array,
    values: Array,
    scores: Array,
    scaled: Array,
    weights: Array,
    mixed: Array,
    flat: Tensor,
    expected: Tensor,
    out: Tensor,
)
    requires
        works_slice_by_slice(),
        linear_works_feature_by_feature(),
        has_full_heads(attention),
        has_halves(attention, key, value),
        fits_together(attention, array(x), array(context)),
        linear_gave(attention.to_q, x, q),
        linear_gave(key, context, k),
        linear_gave(value, context, v),
        are_rows_by_head(
            array(q),
            queries,
            attention.heads as nat,
            attention.to_q.outputs() / attention.heads as nat,
        ),
        are_columns_by_head(
            array(k),
            keys,
            attention.heads as nat,
            attention.to_q.outputs() / attention.heads as nat,
        ),
        are_rows_by_head(
            array(v),
            values,
            attention.heads as nat,
            attention.to_q.outputs() / attention.heads as nat,
        ),
        matmul_gives(queries, keys, scores),
        scores.dims == queries.dims.update(3, keys.dims[3]),
        affine_gives(scores, scalar_bits(array(attention.scale)), 0, scaled),
        scaled.dims == scores.dims,
        softmax_gives(scaled, 3, weights),
        weights.dims == scores.dims,
        matmul_gives(weights, values, mixed),
        mixed.dims == queries.dims,
        are_rows_by_head(
            array(flat),
            mixed,
            attention.heads as nat,
            attention.to_q.outputs() / attention.heads as nat,
        ),
        tensor_dims(flat) == tensor_dims(q),
        linear_gave(attention.to_out, flat, expected),
        cross_attention_gave(attention, x, context, out),
    ensures
        array(out) == array(expected),
{
    let (ax, ac) = (array(x), array(context));
    let w = lemma_way(attention, ax, ac, array(out));
    let width = attention.to_q.outputs();
    let heads = attention.heads as nat;
    let size = attention.head_size(width);
    lemma_full_heads(attention);
    assert(same(ax, ax));
    assert(w.q.dims =~= array(q).dims);
    lemma_linear_same(array(attention.to_q.weight), ax, w.q, ax, array(q));
    lemma_projected_context(attention, key, value, context, w.kv, k, v);
    lemma_halves(attention, w.kv);
    let (kc, vc) = (chunk_of(w.kv, 2, 0), chunk_of(w.kv, 2, 1));
    lemma_rows_by_head(w.q, w.q_apart, array(q), queries, heads, size);
    lemma_columns_by_head(kc, w.k_apart, array(k), keys, heads, size);
    lemma_rows_by_head(vc, w.v_apart, array(v), values, heads, size);
    let (qh, vh) = (permuted(w.q_apart, heads_first()), permuted(w.v_apart, heads_first()));
    lemma_turned_dims(w.q_apart);
    lemma_turned_dims(w.v_apart);
    assert(w.scores.dims =~= scores.dims);
    lemma_matmul_same(qh, keys_of(w), w.scores, queries, keys, scores);
    let scale = scalar_bits(array(attention.scale));
    lemma_affine_same(scale, ZERO, w.scores, w.scaled, scores, scaled);
    lemma_softmax_same(3, w.scaled, w.probs, scaled, weights);
    assert(w.mixed.dims =~= mixed.dims);
    lemma_matmul_same(w.probs, vh, w.mixed, weights, values, mixed);
    lemma_flat_same(w.mixed, w.flat, mixed, array(flat), heads, size);
    assert(array(out).dims =~= array(expected).dims);
    lemma_linear_same(
        array(attention.to_out.weight),
        w.flat,
        array(out),
        array(flat),
        array(expected),
    );
    lemma_same_tensors(out, expected);
}

/// Heads that are put next to each other inside of a call are those outside of it.
proof fn lemma_flat_same(
    mixed: Array,
    flat: Array,
    outside: Array,
    other: Array,
    count: nat,
    size: nat,
)
    requires
        mixed.dims.len() == 4,
        mixed.dims[1] == count,
        mixed.dims[3] == size,
        is_reshape(permuted(mixed, heads_first()), flat),
        flat.dims == seq![mixed.dims[0], mixed.dims[2], count * size],
        same(mixed, outside),
        are_rows_by_head(other, outside, count, size),
        other.dims == flat.dims,
    ensures
        same(flat, other),
{
    let turned = permuted(mixed, heads_first());
    lemma_turned_dims(mixed);
    lemma_reshape_back(turned, flat);
    assert forall|i: Seq<nat>| #[trigger] in_bounds(i, flat.dims) implies flat.cells[i]
        == other.cells[i] by {
        assert(i[0] < flat.dims[0] && i[1] < flat.dims[1] && i[2] < flat.dims[2]);
        assert(size > 0) by (nonlinear_arith)
            requires
                i[2] < count * size,
                i[2] >= 0,
                count >= 0,
                size >= 0,
        ;
        let (h, e) = (i[2] / size, i[2] % size);
        vstd::arithmetic::div_mod::lemma_fundamental_div_mod(i[2] as int, size as int);
        assert(h < count) by (nonlinear_arith)
            requires
                i[2] < count * size,
                i[2] == size * h + e,
                e >= 0,
                size > 0,
        ;
        assert(h * size + e == i[2]) by (nonlinear_arith)
            requires
                i[2] == size * h + e,
        ;
        lemma_apart_cell(flat, turned, i[0], i[1], h, e);
        let j = seq![i[0], i[1], h, e];
        assert(in_bounds(j, turned.dims));
        lemma_turned_cell(mixed, j);
        assert(seq![j[0], j[2], j[1], j[3]] =~= seq![i[0], h, i[1], e]);
        assert(in_bounds(seq![i[0], h, i[1], e], mixed.dims));
        assert(cell_of_four(outside, i[0], h, i[1], e) == other.cells[seq![
            i[0],
            i[1],
            h * size + e,
        ]]);
        assert(i =~= seq![i[0], i[1], h * size + e]);
    }
}

} // verus!
