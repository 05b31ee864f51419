//! What the latent attention keeps, up to rounding: the items of a batch do not see each other, and
//! the order of the states does not matter.
use crate::array::{
    chunk_len, chunk_of, chunk_start, count, countable, in_bounds, is_repeated, is_reshape, is_view,
    is_widened, join, lemma_count_three, lemma_count_two, permuted, scalar_bits, transposed,
    well_formed, Array,
};
use crate::cross_attention::{
    heads_first, is_merged, is_split, is_weighing, lemma_row_major_four, CrossAttention, ZERO,
};
use crate::exact::{
    are_equal_rows, are_same_terms, are_zero_rows, is_product_slice, is_row_of, lemma_add_shares,
    lemma_affine_shares, lemma_cast_shares, lemma_div_shares, lemma_gelu_shares,
    lemma_layer_norm_shares, lemma_linear_shares, lemma_matmul_shares, lemma_mean_shares,
    lemma_mul_shares, lemma_same_shares, lemma_shares_same, lemma_softmax_shares, lemma_sqr_shares,
    lemma_sqrt_shares, lemma_sum_keepdim_shares, matmul_ignores_order, products_distribute, same,
    softmax_ignores_order, softmax_weights_add_up_to_one, works_slice_by_slice, zero_stays_zero,
};
use crate::feed_forward::{geglu_run, halved, law_unit_of_joined_halves, FeedForward};
use crate::latent::{
    is_lifted, is_mean, is_normalized, law_every_sequence_gets_the_latents, per_sequence, wide_type,
    LatentAttentionModel, ONE, POOL_EPSILON,
};
use crate::layers::{layer_norm_run, LayerNorm};
use crate::ops::{affine_gives, linear_gives, softmax_gives, sum_keepdim_gives};
use crate::rows::{
    chosen, in_range, is_arrangement, lemma_flipped_shares, lemma_narrowed_shares,
    lemma_shared_cell, lemma_shared_shape, lemma_shares, lemma_turned_dims, lemma_turned_shares,
    lemma_view_shares, run, shares, turned_dim,
};
use crate::tensor::{
    add_gives, array, cast_gives, div_gives, gelu_gives, matmul_gives, mul_gives, sqr_gives,
    sqrt_gives, tensor_dims,
};
use vstd::prelude::*;

verus! {

/// The heads fill the width of the projected queries, and there are as many keys and values.
pub open spec fn has_full_heads(attention: CrossAttention) -> bool {
    let width = attention.to_q.outputs();
    &&& attention.heads > 0
    &&& width > 0
    &&& width % (attention.heads as nat) == 0
    &&& attention.to_kv.outputs() == 2 * width
}

/// Queries and a context that fit each other, and whose projections a machine word can count.
pub open spec fn fits_together(attention: CrossAttention, x: Array, context: Array) -> bool {
    let width = attention.to_q.outputs();
    &&& x.dims.len() == 3
    &&& context.dims.len() == 3
    &&& context.dims[0] == x.dims[0]
    &&& x.dims[0] > 0
    &&& x.dims[1] > 0
    &&& context.dims[1] > 0
    &&& x.dims[0] * x.dims[1] * width <= usize::MAX
    &&& x.dims[0] * context.dims[1] * (2 * width) <= usize::MAX
}

/// What is computed on the way from queries and a context to an outcome of the attention.
pub struct Way {
    pub q: Array,
    pub kv: Array,
    pub q_apart: Array,
    pub k_apart: Array,
    pub v_apart: Array,
    pub scores: Array,
    pub scaled: Array,
    pub probs: Array,
    pub mixed: Array,
    pub flat: Array,
}

/// The shape of something cut into heads.
pub open spec fn apart_dims(attention: CrossAttention, batch: nat, rows: nat) -> Seq<nat> {
    let heads = attention.heads as nat;
    seq![batch, rows, heads, attention.head_size(attention.to_q.outputs())]
}

/// The keys, cut into heads, with the heads before the rows and each matrix on its side.
pub open spec fn keys_of(w: Way) -> Array {
    transposed(permuted(w.k_apart, heads_first()), 2, 3)
}

/// These are the steps from the queries and the context to the outcome.
pub open spec fn is_way(
    attention: CrossAttention,
    x: Array,
    context: Array,
    out: Array,
    w: Way,
) -> bool {
    let (batch, rows, columns) = (x.dims[0], x.dims[1], context.dims[1]);
    let width = attention.to_q.outputs();
    let heads = attention.heads as nat;
    let size = attention.head_size(width);
    &&& linear_gives(array(attention.to_q.weight), x, w.q)
    &&& w.q.dims == seq![batch, rows, width]
    &&& linear_gives(array(attention.to_kv.weight), context, w.kv)
    &&& w.kv.dims == seq![batch, columns, 2 * width]
    &&& is_reshape(w.q, w.q_apart)
    &&& w.q_apart.dims == apart_dims(attention, batch, rows)
    &&& is_reshape(chunk_of(w.kv, 2, 0), w.k_apart)
    &&& w.k_apart.dims == apart_dims(attention, batch, columns)
    &&& is_reshape(chunk_of(w.kv, 2, 1), w.v_apart)
    &&& w.v_apart.dims == apart_dims(attention, batch, columns)
    &&& matmul_gives(permuted(w.q_apart, heads_first()), keys_of(w), w.scores)
    &&& affine_gives(w.scores, scalar_bits(array(attention.scale)), ZERO, w.scaled)
    &&& softmax_gives(w.scaled, 3, w.probs)
    &&& w.scores.dims == seq![batch, heads, rows, columns]
    &&& w.scaled.dims == w.scores.dims
    &&& w.probs.dims == w.scores.dims
    &&& matmul_gives(w.probs, permuted(w.v_apart, heads_first()), w.mixed)
    &&& w.mixed.dims == seq![batch, heads, rows, size]
    &&& is_reshape(permuted(w.mixed, heads_first()), w.flat)
    &&& w.flat.dims == seq![batch, rows, width]
    &&& linear_gives(array(attention.to_out.weight), w.flat, out)
    &&& out.dims == seq![batch, rows, attention.to_out.outputs()]
}

pub(crate) proof fn lemma_full_heads(attention: CrossAttention)
    requires
        has_full_heads(attention),
    ensures
        attention.heads * attention.head_size(attention.to_q.outputs())
            == attention.to_q.outputs(),
{
    let (h, w) = (attention.heads as int, attention.to_q.outputs() as int);
    vstd::arithmetic::div_mod::lemma_fundamental_div_mod(w, h);
}

pub(crate) proof fn lemma_apart_count(attention: CrossAttention, batch: nat, rows: nat)
    requires
        has_full_heads(attention),
    ensures
        count(apart_dims(attention, batch, rows)) == batch * rows * attention.to_q.outputs(),
        count(apart_dims(attention, batch, rows).skip(2)) == attention.to_q.outputs(),
        count(seq![batch, rows, attention.to_q.outputs()]) == batch * rows
            * attention.to_q.outputs(),
        count(seq![batch, rows, attention.to_q.outputs()].skip(2)) == attention.to_q.outputs(),
{
    lemma_full_heads(attention);
    let width = attention.to_q.outputs();
    let (h, s) = (attention.heads as nat, attention.head_size(width));
    let dims = apart_dims(attention, batch, rows);
    lemma_row_major_four(dims);
    assert(batch * rows * h * s == batch * rows * (h * s)) by (nonlinear_arith);
    assert(dims.skip(2) =~= seq![h, s]);
    lemma_count_two(dims.skip(2));
    let flat = seq![batch, rows, width];
    lemma_count_three(flat);
    assert(flat.skip(2) =~= seq![width]);
    reveal_with_fuel(count, 2);
    assert(seq![width].drop_last() =~= Seq::empty());
    assert(1 * width == width);
}

pub(crate) proof fn lemma_halves(attention: CrossAttention, kv: Array)
    requires
        has_full_heads(attention),
        kv.dims.len() == 3,
        kv.dims[2] == 2 * attention.to_q.outputs(),
    ensures
        chunk_start(kv.dims[2], 2, 0) == 0,
        chunk_start(kv.dims[2], 2, 1) == attention.to_q.outputs(),
        chunk_len(kv.dims[2], 2, 0) == attention.to_q.outputs(),
        chunk_len(kv.dims[2], 2, 1) == attention.to_q.outputs(),
        chunk_of(kv, 2, 0).dims == seq![kv.dims[0], kv.dims[1], attention.to_q.outputs()],
        chunk_of(kv, 2, 1).dims == seq![kv.dims[0], kv.dims[1], attention.to_q.outputs()],
{
    let width = attention.to_q.outputs();
    assert(chunk_of(kv, 2, 0).dims =~= seq![kv.dims[0], kv.dims[1], width]);
    assert(chunk_of(kv, 2, 1).dims =~= seq![kv.dims[0], kv.dims[1], width]);
}

pub(crate) proof fn lemma_split(
    attention: CrossAttention,
    a: Array,
    batch: nat,
    rows: nat,
    out: Array,
) -> (apart: Array)
    requires
        has_full_heads(attention),
        a.dims == seq![batch, rows, attention.to_q.outputs()],
        batch * rows * attention.to_q.outputs() <= usize::MAX,
        is_split(
            a,
            batch,
            rows,
            attention.heads as nat,
            attention.head_size(attention.to_q.outputs()),
            out,
        ),
    ensures
        is_reshape(a, apart),
        apart.dims == apart_dims(attention, batch, rows),
        out == permuted(apart, heads_first()),
{
    let (heads, size) = (
        attention.heads as nat,
        attention.head_size(attention.to_q.outputs()),
    );
    lemma_apart_count(attention, batch, rows);
    let apart = choose|apart: Array|
        {
            &&& #[trigger] is_view(a, apart)
            &&& apart.dims == seq![batch, rows, heads, size]
            &&& out == permuted(apart, heads_first())
        };
    apart
}

pub(crate) proof fn lemma_way(
    attention: CrossAttention,
    x: Array,
    context: Array,
    out: Array,
) -> (w: Way)
    requires
        attention.attends(x, context, out),
        has_full_heads(attention),
        fits_together(attention, x, context),
    ensures
        is_way(attention, x, context, out, w),
{
    let (batch, rows, columns) = (x.dims[0], x.dims[1], context.dims[1]);
    let width = attention.to_q.outputs();
    let (heads, size) = (attention.heads as nat, attention.head_size(width));
    let (q, kv) = choose|q: Array, kv: Array|
        {
            &&& #[trigger] linear_gives(array(attention.to_q.weight), x, q)
            &&& #[trigger] linear_gives(array(attention.to_kv.weight), context, kv)
            &&& q.dims == x.dims.drop_last().push(attention.to_q.outputs())
            &&& kv.dims == context.dims.drop_last().push(attention.to_kv.outputs())
            &&& attention.to_kv.outputs() >= 2
            &&& attention.mixes(
                batch,
                rows,
                columns,
                q,
                chunk_of(kv, 2, 0),
                chunk_of(kv, 2, 1),
                out,
            )
        };
    assert(q.dims =~= seq![batch, rows, width]);
    assert(kv.dims =~= seq![batch, columns, 2 * width]);
    lemma_halves(attention, kv);
    let (k, v) = (chunk_of(kv, 2, 0), chunk_of(kv, 2, 1));
    let (split, probs, mixed, flat) = choose|
        split: (Array, Array, Array),
        probs: Array,
        mixed: Array,
        flat: Array,
    | #[trigger]
        attention.mixing_steps(batch, rows, columns, q, k, v, split, probs, mixed, flat, out);
    let (qh, kh, vh) = split;
    assert(attention.head_size(q.dims.last()) == size);
    assert(batch * columns * width <= batch * columns * (2 * width)) by (nonlinear_arith);
    let q_apart = lemma_split(attention, q, batch, rows, qh);
    let k_apart = lemma_split(attention, k, batch, columns, kh);
    let v_apart = lemma_split(attention, v, batch, columns, vh);
    lemma_turned_dims(q_apart);
    lemma_turned_dims(k_apart);
    lemma_turned_dims(mixed);
    let scale = scalar_bits(array(attention.scale));
    assert(is_weighing(qh, kh, scale, probs));
    let (scores, scaled) = choose|scores: Array, scaled: Array|
        {
            &&& #[trigger] matmul_gives(qh, transposed(kh, 2, 3), scores)
            &&& #[trigger] affine_gives(scores, scale, ZERO, scaled)
            &&& softmax_gives(scaled, 3, probs)
            &&& scores.dims == qh.dims.update(3, kh.dims[2])
            &&& scaled.dims == scores.dims
            &&& probs.dims == scores.dims
        };
    assert(scores.dims =~= seq![batch, heads, rows, columns]);
    let turned = permuted(mixed, heads_first());
    assert(turned.dims =~= apart_dims(attention, batch, rows));
    lemma_apart_count(attention, batch, rows);
    assert(is_merged(mixed, batch, rows, flat));
    let last = flat.dims[2];
    assert(batch * rows > 0) by (nonlinear_arith)
        requires
            batch > 0,
            rows > 0,
    ;
    assert(last == width) by (nonlinear_arith)
        requires
            batch * rows * last == batch * rows * width,
            batch * rows > 0,
    ;
    assert(flat.dims =~= seq![batch, rows, width]);
    Way { q, kv, q_apart, k_apart, v_apart, scores, scaled, probs, mixed, flat }
}

/// Cutting into heads keeps what is shared along the first two dimensions.
pub(crate) proof fn lemma_apart_shares(
    attention: CrossAttention,
    a: Array,
    apart: Array,
    b: Array,
    apart2: Array,
    of_a: Seq<nat>,
    of_b: Seq<nat>,
    dim: int,
)
    requires
        has_full_heads(attention),
        a.dims.len() == 3,
        b.dims.len() == 3,
        a.dims[2] == attention.to_q.outputs(),
        b.dims[2] == attention.to_q.outputs(),
        is_reshape(a, apart),
        is_reshape(b, apart2),
        apart.dims == apart_dims(attention, a.dims[0], a.dims[1]),
        apart2.dims == apart_dims(attention, b.dims[0], b.dims[1]),
        shares(a, b, of_a, of_b, dim),
        dim < 2,
    ensures
        shares(apart, apart2, of_a, of_b, dim),
        shares(
            permuted(apart, heads_first()),
            permuted(apart2, heads_first()),
            of_a,
            of_b,
            turned_dim(dim),
        ),
{
    lemma_apart_count(attention, a.dims[0], a.dims[1]);
    assert(a.dims =~= seq![a.dims[0], a.dims[1], attention.to_q.outputs()]);
    assert(apart.dims.take(2) =~= a.dims.take(2));
    assert(apart2.dims.take(2) =~= b.dims.take(2));
    assert(apart.dims.skip(2) =~= apart2.dims.skip(2));
    lemma_view_shares(a, apart, b, apart2, of_a, of_b, dim, 2);
    lemma_turned_shares(apart, apart2, of_a, of_b, dim);
}

/// Putting the heads together again keeps what is shared along the first two dimensions, and so
/// does the projection behind it.
pub(crate) proof fn lemma_flat_shares(
    attention: CrossAttention,
    x: Array,
    context: Array,
    out: Array,
    w: Way,
    y: Array,
    context2: Array,
    out2: Array,
    w2: Way,
    of_x: Seq<nat>,
    of_y: Seq<nat>,
    dim: int,
)
    requires
        works_slice_by_slice(),
        has_full_heads(attention),
        is_way(attention, x, context, out, w),
        is_way(attention, y, context2, out2, w2),
        shares(w.mixed, w2.mixed, of_x, of_y, turned_dim(dim)),
        0 <= dim < 2,
    ensures
        shares(out, out2, of_x, of_y, dim),
{
    lemma_turned_shares(w.mixed, w2.mixed, of_x, of_y, turned_dim(dim));
    let (t, t2) = (permuted(w.mixed, heads_first()), permuted(w2.mixed, heads_first()));
    lemma_turned_dims(w.mixed);
    lemma_turned_dims(w2.mixed);
    lemma_apart_count(attention, x.dims[0], x.dims[1]);
    assert(t.dims =~= apart_dims(attention, x.dims[0], x.dims[1]));
    assert(w.flat.dims.take(2) =~= t.dims.take(2));
    assert(w2.flat.dims.take(2) =~= t2.dims.take(2));
    assert(w.flat.dims.skip(2) =~= w2.flat.dims.skip(2));
    lemma_view_shares(t, w.flat, t2, w2.flat, of_x, of_y, dim, 2);
    lemma_linear_shares(
        array(attention.to_out.weight),
        w.flat,
        out,
        w2.flat,
        out2,
        of_x,
        of_y,
        dim,
    );
}

/// Keys and values keep what the contexts share along the first two dimensions.
pub(crate) proof fn lemma_keys_share(
    attention: CrossAttention,
    x: Array,
    context: Array,
    out: Array,
    w: Way,
    y: Array,
    context2: Array,
    out2: Array,
    w2: Way,
    of_x: Seq<nat>,
    of_y: Seq<nat>,
    dim: int,
)
    requires
        works_slice_by_slice(),
        has_full_heads(attention),
        is_way(attention, x, context, out, w),
        is_way(attention, y, context2, out2, w2),
        context.dims.len() == 3,
        context2.dims.len() == 3,
        shares(context, context2, of_x, of_y, dim),
        0 <= dim < 2,
    ensures
        shares(
            permuted(w.k_apart, heads_first()),
            permuted(w2.k_apart, heads_first()),
            of_x,
            of_y,
            turned_dim(dim),
        ),
        shares(
            permuted(w.v_apart, heads_first()),
            permuted(w2.v_apart, heads_first()),
            of_x,
            of_y,
            turned_dim(dim),
        ),
{
    let width = attention.to_q.outputs();
    lemma_linear_shares(
        array(attention.to_kv.weight),
        context,
        w.kv,
        context2,
        w2.kv,
        of_x,
        of_y,
        dim,
    );
    lemma_halves(attention, w.kv);
    lemma_halves(attention, w2.kv);
    lemma_narrowed_shares(w.kv, w2.kv, of_x, of_y, dim, 2, 0, width);
    lemma_narrowed_shares(w.kv, w2.kv, of_x, of_y, dim, 2, width, width);
    lemma_apart_shares(
        attention,
        chunk_of(w.kv, 2, 0),
        w.k_apart,
        chunk_of(w2.kv, 2, 0),
        w2.k_apart,
        of_x,
        of_y,
        dim,
    );
    lemma_apart_shares(
        attention,
        chunk_of(w.kv, 2, 1),
        w.v_apart,
        chunk_of(w2.kv, 2, 1),
        w2.v_apart,
        of_x,
        of_y,
        dim,
    );
}

/// Contexts that are the same have the same keys and values.
pub(crate) proof fn lemma_same_keys(
    attention: CrossAttention,
    x: Array,
    context: Array,
    out: Array,
    w: Way,
    y: Array,
    context2: Array,
    out2: Array,
    w2: Way,
)
    requires
        works_slice_by_slice(),
        has_full_heads(attention),
        is_way(attention, x, context, out, w),
        is_way(attention, y, context2, out2, w2),
        context.dims.len() == 3,
        x.dims[0] == context.dims[0],
        y.dims[0] == x.dims[0],
        same(context, context2),
    ensures
        same(keys_of(w), keys_of(w2)),
        same(permuted(w.v_apart, heads_first()), permuted(w2.v_apart, heads_first())),
{
    let all = run(0, context.dims[0]);
    lemma_same_shares(context, context2, 0);
    lemma_keys_share(
        attention,
        x,
        context,
        out,
        w,
        y,
        context2,
        out2,
        w2,
        all,
        all,
        0,
    );
    let (k, k2) = (permuted(w.k_apart, heads_first()), permuted(w2.k_apart, heads_first()));
    lemma_turned_dims(w.k_apart);
    lemma_turned_dims(w2.k_apart);
    lemma_turned_dims(w.v_apart);
    lemma_turned_dims(w2.v_apart);
    lemma_flipped_shares(k, k2, all, all, 0);
    assert(keys_of(w).dims =~= keys_of(w2).dims);
    lemma_shares_same(keys_of(w), keys_of(w2), 0);
    lemma_shares_same(
        permuted(w.v_apart, heads_first()),
        permuted(w2.v_apart, heads_first()),
        0,
    );
}

/// The items of a batch attend by themselves: items that two batches share, with their contexts,
/// give items that the outcomes share.
pub proof fn law_items_attend_by_themselves(
    attention: CrossAttention,
    x: Array,
    context: Array,
    out: Array,
    y: Array,
    context2: Array,
    out2: Array,
    of_x: Seq<nat>,
    of_y: Seq<nat>,
)
    requires
        works_slice_by_slice(),
        has_full_heads(attention),
        attention.attends(x, context, out),
        attention.attends(y, context2, out2),
        fits_together(attention, x, context),
        fits_together(attention, y, context2),
        shares(x, y, of_x, of_y, 0),
        shares(context, context2, of_x, of_y, 0),
    ensures
        shares(out, out2, of_x, of_y, 0),
        out.dims == seq![x.dims[0], x.dims[1], attention.to_out.outputs()],
        out2.dims == seq![y.dims[0], y.dims[1], attention.to_out.outputs()],
{
    let w = lemma_way(attention, x, context, out);
    let w2 = lemma_way(attention, y, context2, out2);
    let (a, b) = (of_x, of_y);
    lemma_linear_shares(array(attention.to_q.weight), x, w.q, y, w2.q, a, b, 0);
    lemma_apart_shares(attention, w.q, w.q_apart, w2.q, w2.q_apart, a, b, 0);
    lemma_keys_share(attention, x, context, out, w, y, context2, out2, w2, a, b, 0);
    let (q, q2) = (permuted(w.q_apart, heads_first()), permuted(w2.q_apart, heads_first()));
    let (k, k2) = (permuted(w.k_apart, heads_first()), permuted(w2.k_apart, heads_first()));
    let (v, v2) = (permuted(w.v_apart, heads_first()), permuted(w2.v_apart, heads_first()));
    lemma_turned_dims(w.q_apart);
    lemma_turned_dims(w.k_apart);
    lemma_flipped_shares(k, k2, a, b, 0);
    assert(is_product_slice(q, keys_of(w), q2, keys_of(w2), a, b, 0));
    lemma_matmul_shares(q, keys_of(w), w.scores, q2, keys_of(w2), w2.scores, a, b, 0);
    let scale = scalar_bits(array(attention.scale));
    lemma_affine_shares(scale, ZERO, w.scores, w.scaled, w2.scores, w2.scaled, a, b, 0);
    lemma_softmax_shares(3, w.scaled, w.probs, w2.scaled, w2.probs, a, b, 0);
    assert(is_product_slice(w.probs, v, w2.probs, v2, a, b, 0));
    lemma_matmul_shares(w.probs, v, w.mixed, w2.probs, v2, w2.mixed, a, b, 0);
    lemma_flat_shares(attention, x, context, out, w, y, context2, out2, w2, a, b, 0);
}

/// Every query is treated by itself: queries that two inputs share give rows that the outcomes
/// share, so that reordering the queries reorders what they get.
pub proof fn law_queries_attend_by_themselves(
    attention: CrossAttention,
    x: Array,
    y: Array,
    context: Array,
    context2: Array,
    out: Array,
    out2: Array,
    of_x: Seq<nat>,
    of_y: Seq<nat>,
)
    requires
        works_slice_by_slice(),
        has_full_heads(attention),
        attention.attends(x, context, out),
        attention.attends(y, context2, out2),
        fits_together(attention, x, context),
        fits_together(attention, y, context2),
        same(context, context2),
        shares(x, y, of_x, of_y, 1),
    ensures
        shares(out, out2, of_x, of_y, 1),
{
    let w = lemma_way(attention, x, context, out);
    let w2 = lemma_way(attention, y, context2, out2);
    let (a, b) = (of_x, of_y);
    lemma_shared_shape(x, y, a, b, 1);
    lemma_linear_shares(array(attention.to_q.weight), x, w.q, y, w2.q, a, b, 1);
    lemma_apart_shares(attention, w.q, w.q_apart, w2.q, w2.q_apart, a, b, 1);
    lemma_same_keys(attention, x, context, out, w, y, context2, out2, w2);
    let (q, q2) = (permuted(w.q_apart, heads_first()), permuted(w2.q_apart, heads_first()));
    let (v, v2) = (permuted(w.v_apart, heads_first()), permuted(w2.v_apart, heads_first()));
    lemma_turned_dims(w.q_apart);
    assert(is_product_slice(q, keys_of(w), q2, keys_of(w2), a, b, 2));
    lemma_matmul_shares(q, keys_of(w), w.scores, q2, keys_of(w2), w2.scores, a, b, 2);
    let scale = scalar_bits(array(attention.scale));
    lemma_affine_shares(scale, ZERO, w.scores, w.scaled, w2.scores, w2.scaled, a, b, 2);
    lemma_softmax_shares(3, w.scaled, w.probs, w2.scaled, w2.probs, a, b, 2);
    assert(is_product_slice(w.probs, v, w2.probs, v2, a, b, 2));
    lemma_matmul_shares(w.probs, v, w.mixed, w2.probs, v2, w2.mixed, a, b, 2);
    lemma_flat_shares(attention, x, context, out, w, y, context2, out2, w2, a, b, 1);
}

/// The order of the rows of the context does not matter.
pub proof fn law_order_of_the_context_does_not_matter(
    attention: CrossAttention,
    x: Array,
    y: Array,
    context: Array,
    context2: Array,
    out: Array,
    out2: Array,
    order: Seq<nat>,
    order2: Seq<nat>,
)
    requires
        works_slice_by_slice(),
        softmax_ignores_order(),
        matmul_ignores_order(),
        has_full_heads(attention),
        attention.attends(x, context, out),
        attention.attends(y, context2, out2),
        fits_together(attention, x, context),
        fits_together(attention, y, context2),
        same(x, y),
        is_arrangement(order, 0, context.dims[1]),
        is_arrangement(order2, 0, context2.dims[1]),
        shares(context, context2, order, order2, 1),
    ensures
        same(out, out2),
{
    let w = lemma_way(attention, x, context, out);
    let w2 = lemma_way(attention, y, context2, out2);
    let (a, b) = (order, order2);
    let all = run(0, x.dims[0]);
    lemma_shared_shape(context, context2, a, b, 1);
    lemma_same_shares(x, y, 0);
    lemma_linear_shares(array(attention.to_q.weight), x, w.q, y, w2.q, all, all, 0);
    lemma_apart_shares(attention, w.q, w.q_apart, w2.q, w2.q_apart, all, all, 0);
    let (q, q2) = (permuted(w.q_apart, heads_first()), permuted(w2.q_apart, heads_first()));
    let (k, k2) = (permuted(w.k_apart, heads_first()), permuted(w2.k_apart, heads_first()));
    let (v, v2) = (permuted(w.v_apart, heads_first()), permuted(w2.v_apart, heads_first()));
    lemma_turned_dims(w.q_apart);
    lemma_turned_dims(w2.q_apart);
    lemma_turned_dims(w.k_apart);
    lemma_turned_dims(w.v_apart);
    lemma_shares_same(q, q2, 0);
    lemma_keys_share(attention, x, context, out, w, y, context2, out2, w2, a, b, 1);
    lemma_flipped_shares(k, k2, a, b, 2);
    assert(is_product_slice(q, keys_of(w), q2, keys_of(w2), a, b, 3));
    lemma_matmul_shares(q, keys_of(w), w.scores, q2, keys_of(w2), w2.scores, a, b, 3);
    let scale = scalar_bits(array(attention.scale));
    lemma_affine_shares(scale, ZERO, w.scores, w.scaled, w2.scores, w2.scaled, a, b, 3);
    assert(shares(w.probs, w2.probs, a, b, 3));
    assert(are_same_terms(w.probs, v, w2.probs, v2, a, b));
    assert(w.mixed.dims == w2.mixed.dims);
    assert(same(w.mixed, w2.mixed));
    lemma_same_shares(w.mixed, w2.mixed, 0);
    lemma_flat_shares(attention, x, context, out, w, y, context2, out2, w2, all, all, 0);
    lemma_shares_same(out, out2, 0);
}

/// All rows of each item of a context are one and the same, and the same as in another context.
pub open spec fn are_all_one_row(context: Array, context2: Array) -> bool {
    &&& forall|i: nat, j: nat|
        i < context.dims[1] && j < context.dims[1] ==> #[trigger] shares(
            context,
            context,
            seq![i],
            seq![j],
            1,
        )
    &&& forall|i: nat, j: nat|
        i < context.dims[1] && j < context2.dims[1] ==> #[trigger] shares(
            context,
            context2,
            seq![i],
            seq![j],
            1,
        )
}

proof fn lemma_equal_values(
    attention: CrossAttention,
    x: Array,
    context: Array,
    out: Array,
    w: Way,
)
    requires
        works_slice_by_slice(),
        has_full_heads(attention),
        is_way(attention, x, context, out, w),
        context.dims.len() == 3,
        forall|i: nat, j: nat|
            i < context.dims[1] && j < context.dims[1] ==> #[trigger] shares(
                context,
                context,
                seq![i],
                seq![j],
                1,
            ),
    ensures
        are_equal_rows(permuted(w.v_apart, heads_first())),
{
    let v = permuted(w.v_apart, heads_first());
    lemma_turned_dims(w.v_apart);
    assert forall|i: nat, j: nat| i < v.dims[2] && j < v.dims[2] implies #[trigger] shares(
        v,
        v,
        seq![i],
        seq![j],
        2,
    ) by {
        assert(shares(context, context, seq![i], seq![j], 1));
        lemma_keys_share(
            attention,
            x,
            context,
            out,
            w,
            x,
            context,
            out,
            w,
            seq![i],
            seq![j],
            1,
        );
    }
}

/// The weights of a query add up to one: where all rows of a context are the same, every query gets
/// the same from it, whatever the query is and however many rows there are.
pub proof fn law_equal_rows_of_the_context_leave_no_choice(
    attention: CrossAttention,
    x: Array,
    context: Array,
    out: Array,
    i: nat,
    y: Array,
    context2: Array,
    out2: Array,
    j: nat,
)
    requires
        works_slice_by_slice(),
        softmax_weights_add_up_to_one(),
        has_full_heads(attention),
        attention.attends(x, context, out),
        attention.attends(y, context2, out2),
        fits_together(attention, x, context),
        fits_together(attention, y, context2),
        are_all_one_row(context, context2),
        are_all_one_row(context2, context),
        i < x.dims[1],
        j < y.dims[1],
    ensures
        shares(out, out2, seq![i], seq![j], 1),
{
    let w = lemma_way(attention, x, context, out);
    let w2 = lemma_way(attention, y, context2, out2);
    let (v, v2) = (permuted(w.v_apart, heads_first()), permuted(w2.v_apart, heads_first()));
    lemma_turned_dims(w.v_apart);
    lemma_turned_dims(w2.v_apart);
    lemma_equal_values(attention, x, context, out, w);
    lemma_equal_values(attention, y, context2, out2, w2);
    let zero = seq![0nat];
    assert(shares(context, context2, zero, zero, 1));
    lemma_keys_share(attention, x, context, out, w, y, context2, out2, w2, zero, zero, 1);
    assert(is_row_of(w.mixed, i, v, 0));
    assert(is_row_of(w2.mixed, j, v2, 0));
    assert(shares(w.mixed, v, seq![i], zero, 2));
    assert(shares(w2.mixed, v2, seq![j], zero, 2));
    assert(chosen(w.mixed, seq![i], 2) == chosen(w2.mixed, seq![j], 2));
    assert(in_range(seq![i], w.mixed.dims[2]));
    assert(in_range(seq![j], w2.mixed.dims[2]));
    assert(shares(w.mixed, w2.mixed, seq![i], seq![j], 2));
    lemma_flat_shares(
        attention,
        x,
        context,
        out,
        w,
        y,
        context2,
        out2,
        w2,
        seq![i],
        seq![j],
        1,
    );
}

/// States that the model takes, and whose way through it a machine word can count.
pub open spec fn is_taken(model: LatentAttentionModel, states: Array) -> bool {
    let (rows, width) = (tensor_dims(model.latents)[0], tensor_dims(model.latents)[1]);
    let inner = model.cross_attention.to_q.outputs();
    &&& model.is_sized()
    &&& has_full_heads(model.cross_attention)
    &&& states.dims.len() == 3
    &&& 0 < states.dims[0] <= usize::MAX
    &&& states.dims[1] > 0
    &&& states.dims[2] == width
    &&& rows > 0
    &&& countable(tensor_dims(model.latents))
    &&& states.dims[0] * rows * width <= usize::MAX
    &&& states.dims[0] * rows * inner <= usize::MAX
    &&& states.dims[0] * states.dims[1] * (2 * inner) <= usize::MAX
    &&& model.cross_attend_norm.context_norm matches Some(norm) ==> norm.norms(width)
}

pub(crate) proof fn lemma_gathered_dims(model: LatentAttentionModel, states: Array)
    requires
        is_taken(model, states),
    ensures
        model.gathered_dims(states.dims[0]) == seq![
            states.dims[0],
            tensor_dims(model.latents)[0],
            tensor_dims(model.latents)[1],
        ],
        countable(model.gathered_dims(states.dims[0])),
{
    let dims = model.gathered_dims(states.dims[0]);
    assert(dims =~= seq![
        states.dims[0],
        tensor_dims(model.latents)[0],
        tensor_dims(model.latents)[1],
    ]);
    lemma_count_three(dims);
}

/// All copies of the latents are the same.
pub(crate) proof fn lemma_copies_share(
    model: LatentAttentionModel,
    states: Array,
    x: Array,
    other: Array,
    y: Array,
    of_x: Seq<nat>,
    of_y: Seq<nat>,
)
    requires
        is_taken(model, states),
        is_taken(model, other),
        is_repeated(array(model.latents), per_sequence(states.dims[0] as usize), x),
        is_repeated(array(model.latents), per_sequence(other.dims[0] as usize), y),
        x.dims == model.gathered_dims(states.dims[0]),
        y.dims == model.gathered_dims(other.dims[0]),
        in_range(of_x, states.dims[0]),
        in_range(of_y, other.dims[0]),
        of_x.len() == of_y.len(),
    ensures
        shares(x, y, of_x, of_y, 0),
{
    lemma_gathered_dims(model, states);
    lemma_gathered_dims(model, other);
    assert forall|i: Seq<nat>| #[trigger] in_bounds(i, x.dims.update(0, of_x.len())) implies
        x.cells[i.update(0, of_x[i[0] as int])] == y.cells[i.update(0, of_y[i[0] as int])] by {
        let d = x.dims.update(0, of_x.len());
        assert(i[0] < d[0] && i[1] < d[1] && i[2] < d[2]);
        let (s, t) = (of_x[i[0] as int], of_y[i[0] as int]);
        law_every_sequence_gets_the_latents(
            model,
            states.dims[0] as usize,
            x,
            s,
            i[1],
            i[2],
        );
        law_every_sequence_gets_the_latents(
            model,
            other.dims[0] as usize,
            y,
            t,
            i[1],
            i[2],
        );
        assert(i.update(0, s) =~= seq![s, i[1], i[2]]);
        assert(i.update(0, t) =~= seq![t, i[1], i[2]]);
    }
    lemma_shares(x, y, of_x, of_y, 0);
}

pub(crate) proof fn lemma_layer_norm_run_shares(
    norm: LayerNorm,
    x: Array,
    out: Array,
    y: Array,
    other: Array,
    of_x: Seq<nat>,
    of_y: Seq<nat>,
    dim: int,
)
    requires
        works_slice_by_slice(),
        layer_norm_run(norm, x, out),
        layer_norm_run(norm, y, other),
        shares(x, y, of_x, of_y, dim),
        dim < x.dims.len() - 1,
    ensures
        shares(out, other, of_x, of_y, dim),
{
    lemma_layer_norm_shares(
        array(norm.weight),
        array(norm.bias),
        scalar_bits(array(norm.epsilon)),
        x,
        out,
        y,
        other,
        of_x,
        of_y,
        dim,
    );
}

pub(crate) proof fn lemma_unit_shares(
    x: Array,
    out: Array,
    y: Array,
    other: Array,
    of_x: Seq<nat>,
    of_y: Seq<nat>,
)
    requires
        works_slice_by_slice(),
        geglu_run(x, out),
        geglu_run(y, other),
        x.dims.len() == 3,
        shares(x, y, of_x, of_y, 0),
    ensures
        shares(out, other, of_x, of_y, 0),
{
    lemma_shared_shape(x, y, of_x, of_y, 0);
    let gate = choose|gate: Array|
        {
            &&& #[trigger] gelu_gives(chunk_of(x, 2, 1), gate)
            &&& mul_gives(chunk_of(x, 2, 0), gate, out)
            &&& gate.dims == chunk_of(x, 2, 1).dims
            &&& out.dims == gate.dims
            &&& out.dims == halved(x.dims)
        };
    let gate2 = choose|gate: Array|
        {
            &&& #[trigger] gelu_gives(chunk_of(y, 2, 1), gate)
            &&& mul_gives(chunk_of(y, 2, 0), gate, other)
            &&& gate.dims == chunk_of(y, 2, 1).dims
            &&& other.dims == gate.dims
            &&& other.dims == halved(y.dims)
        };
    let size = x.dims.last();
    assert(x.dims[2] == y.dims[2]);
    let (s0, l0) = (chunk_start(size, 2, 0), chunk_len(size, 2, 0));
    let (s1, l1) = (chunk_start(size, 2, 1), chunk_len(size, 2, 1));
    lemma_narrowed_shares(x, y, of_x, of_y, 0, 2, s0, l0);
    lemma_narrowed_shares(x, y, of_x, of_y, 0, 2, s1, l1);
    let (a, b) = (chunk_of(x, 2, 0), chunk_of(y, 2, 0));
    let (c, d) = (chunk_of(x, 2, 1), chunk_of(y, 2, 1));
    lemma_gelu_shares(c, gate, d, gate2, of_x, of_y, 0);
    lemma_mul_shares(a, gate, out, b, gate2, other, of_x, of_y, 0);
}

pub(crate) proof fn lemma_feed_forward_shares(
    ff: FeedForward,
    x: Array,
    out: Array,
    y: Array,
    other: Array,
    of_x: Seq<nat>,
    of_y: Seq<nat>,
)
    requires
        works_slice_by_slice(),
        ff.runs(x, out),
        ff.runs(y, other),
        x.dims.len() == 3,
        shares(x, y, of_x, of_y, 0),
    ensures
        shares(out, other, of_x, of_y, 0),
{
    lemma_shared_shape(x, y, of_x, of_y, 0);
    let (wide, gated) = choose|wide: Array, gated: Array|
        {
            &&& #[trigger] linear_gives(array(ff.net_w1.weight), x, wide)
            &&& #[trigger] geglu_run(wide, gated)
            &&& linear_gives(array(ff.net_w2.weight), gated, out)
            &&& wide.dims == x.dims.drop_last().push(ff.net_w1.outputs())
            &&& out.dims == x.dims.drop_last().push(ff.net_w2.outputs())
        };
    let (wide2, gated2) = choose|wide: Array, gated: Array|
        {
            &&& #[trigger] linear_gives(array(ff.net_w1.weight), y, wide)
            &&& #[trigger] geglu_run(wide, gated)
            &&& linear_gives(array(ff.net_w2.weight), gated, other)
            &&& wide.dims == y.dims.drop_last().push(ff.net_w1.outputs())
            &&& other.dims == y.dims.drop_last().push(ff.net_w2.outputs())
        };
    lemma_linear_shares(array(ff.net_w1.weight), x, wide, y, wide2, of_x, of_y, 0);
    lemma_unit_shares(wide, gated, wide2, gated2, of_x, of_y);
    assert(gated.dims.len() == 3);
    lemma_linear_shares(array(ff.net_w2.weight), gated, out, gated2, other, of_x, of_y, 0);
}

/// What is computed on the way from states to what the latents gather from them.
pub struct Gathering {
    pub x: Array,
    pub normed: Array,
    pub context: Array,
    pub cross: Array,
    pub sum: Array,
    pub normed_again: Array,
    pub ff: Array,
}

/// These are the steps from the states to what is gathered.
pub open spec fn is_gathering(
    model: LatentAttentionModel,
    states: Array,
    out: Array,
    g: Gathering,
) -> bool {
    let dims = seq![
        states.dims[0],
        tensor_dims(model.latents)[0],
        tensor_dims(model.latents)[1],
    ];
    &&& model.gathering_steps(
        states,
        g.x,
        g.normed,
        Some(g.context),
        g.cross,
        g.sum,
        g.normed_again,
        g.ff,
        out,
    )
    &&& g.x.dims == dims
    &&& g.normed.dims == dims
    &&& g.context.dims == states.dims
    &&& g.normed_again.dims == dims
}

pub(crate) proof fn lemma_gathering(
    model: LatentAttentionModel,
    states: Array,
    out: Array,
) -> (g: Gathering)
    requires
        is_taken(model, states),
        model.gathers(states, out),
    ensures
        is_gathering(model, states, out, g),
        fits_together(model.cross_attention, g.normed, g.context),
        out.dims == g.x.dims,
{
    lemma_gathered_dims(model, states);
    let (x, normed, context, cross, sum, normed_again, ff) = choose|
        x: Array,
        normed: Array,
        context: Option<Array>,
        cross: Array,
        sum: Array,
        normed_again: Array,
        ff: Array,
    | #[trigger]
        model.gathering_steps(states, x, normed, context, cross, sum, normed_again, ff, out);
    Gathering { x, normed, context: context->Some_0, cross, sum, normed_again, ff }
}

/// The states of a context, after its norm if it has one, keep what the states share.
pub(crate) proof fn lemma_contexts_share(
    model: LatentAttentionModel,
    states: Array,
    out: Array,
    g: Gathering,
    other: Array,
    out2: Array,
    g2: Gathering,
    of_a: Seq<nat>,
    of_b: Seq<nat>,
    dim: int,
)
    requires
        works_slice_by_slice(),
        is_gathering(model, states, out, g),
        is_gathering(model, other, out2, g2),
        states.dims.len() == 3,
        shares(states, other, of_a, of_b, dim),
        0 <= dim < 2,
    ensures
        shares(g.context, g2.context, of_a, of_b, dim),
{
    match model.cross_attend_norm.context_norm {
        Some(norm) => {
            lemma_layer_norm_run_shares(
                norm,
                states,
                g.context,
                other,
                g2.context,
                of_a,
                of_b,
                dim,
            );
        },
        None => {},
    }
}

/// What follows the attention treats every item of a batch by itself.
pub(crate) proof fn lemma_rest_shares(
    model: LatentAttentionModel,
    states: Array,
    out: Array,
    g: Gathering,
    other: Array,
    out2: Array,
    g2: Gathering,
    of_a: Seq<nat>,
    of_b: Seq<nat>,
)
    requires
        works_slice_by_slice(),
        is_gathering(model, states, out, g),
        is_gathering(model, other, out2, g2),
        shares(g.x, g2.x, of_a, of_b, 0),
        shares(g.cross, g2.cross, of_a, of_b, 0),
    ensures
        shares(out, out2, of_a, of_b, 0),
{
    lemma_add_shares(g.x, g.cross, g.sum, g2.x, g2.cross, g2.sum, of_a, of_b, 0);
    lemma_layer_norm_run_shares(
        model.ff_norm.norm,
        g.sum,
        g.normed_again,
        g2.sum,
        g2.normed_again,
        of_a,
        of_b,
        0,
    );
    lemma_feed_forward_shares(
        model.feed_forward,
        g.normed_again,
        g.ff,
        g2.normed_again,
        g2.ff,
        of_a,
        of_b,
    );
    lemma_add_shares(g.sum, g.ff, out, g2.sum, g2.ff, out2, of_a, of_b, 0);
}

pub(crate) proof fn lemma_widened_shares(
    a: Array,
    b: Array,
    width: nat,
    x: Array,
    y: Array,
    of_a: Seq<nat>,
    of_b: Seq<nat>,
)
    requires
        a.dims.len() == 2,
        a.dims[1] == 1,
        b.dims.len() == 2,
        width > 0,
        a.dims[0] * width <= usize::MAX,
        b.dims[0] * width <= usize::MAX,
        is_widened(a, width, x),
        is_widened(b, width, y),
        shares(a, b, of_a, of_b, 0),
    ensures
        shares(x, y, of_a, of_b, 0),
{
    lemma_shared_shape(a, b, of_a, of_b, 0);
    assert(b.dims[1] == a.dims[1]);
    lemma_count_two(a.dims);
    lemma_count_two(b.dims);
    lemma_count_two(x.dims);
    lemma_count_two(y.dims);
    let (m, n) = (a.dims[0], b.dims[0]);
    assert(m * 1 <= m * width && n * 1 <= n * width) by (nonlinear_arith)
        requires
            width > 0,
    ;
    assert forall|i: Seq<nat>| #[trigger] in_bounds(i, x.dims.update(0, of_a.len())) implies
        x.cells[i.update(0, of_a[i[0] as int])] == y.cells[i.update(0, of_b[i[0] as int])] by {
        let d = x.dims.update(0, of_a.len());
        assert(i[0] < d[0] && i[1] < d[1]);
        let j = i.update(1, 0nat);
        assert(in_bounds(j, a.dims.update(0, of_a.len())));
        lemma_shared_cell(a, b, of_a, of_b, 0, j);
        let (s, t) = (of_a[i[0] as int], of_b[i[0] as int]);
        assert(in_bounds(i.update(0, s), x.dims));
        assert(in_bounds(i.update(0, t), y.dims));
        assert(i.update(0, s).update(1, 0nat) =~= j.update(0, s));
        assert(i.update(0, t).update(1, 0nat) =~= j.update(0, t));
    }
    lemma_shares(x, y, of_a, of_b, 0);
}

pub(crate) proof fn lemma_normalized_shares(
    x: Array,
    out: Array,
    y: Array,
    other: Array,
    of_x: Seq<nat>,
    of_y: Seq<nat>,
)
    requires
        works_slice_by_slice(),
        is_normalized(x, out),
        is_normalized(y, other),
        x.dims.len() == 2,
        x.dims[1] > 0,
        x.dims[0] * x.dims[1] <= usize::MAX,
        y.dims[0] * x.dims[1] <= usize::MAX,
        shares(x, y, of_x, of_y, 0),
    ensures
        shares(out, other, of_x, of_y, 0),
{
    let (a, b) = (of_x, of_y);
    lemma_shared_shape(x, y, a, b, 0);
    assert(y.dims[1] == x.dims[1]);
    let (wide, squares, sums, lengths, safe, divisor, quotient) = lemma_normalized(x, out);
    let (wide2, squares2, sums2, lengths2, safe2, divisor2, quotient2) = lemma_normalized(
        y,
        other,
    );
    let kind = wide_type(x.dtype);
    lemma_cast_shares(kind, x, wide, y, wide2, a, b, 0);
    lemma_sqr_shares(wide, squares, wide2, squares2, a, b, 0);
    lemma_sum_keepdim_shares(1, squares, sums, squares2, sums2, a, b, 0);
    lemma_sqrt_shares(sums, lengths, sums2, lengths2, a, b, 0);
    lemma_affine_shares(ONE, POOL_EPSILON, lengths, safe, lengths2, safe2, a, b, 0);
    lemma_widened_shares(safe, safe2, x.dims[1], divisor, divisor2, a, b);
    lemma_div_shares(wide, divisor, quotient, wide2, divisor2, quotient2, a, b, 0);
    lemma_cast_shares(x.dtype, quotient, out, quotient2, other, a, b, 0);
}

pub(crate) proof fn lemma_normalized(x: Array, out: Array) -> (r: (
    Array,
    Array,
    Array,
    Array,
    Array,
    Array,
    Array,
))
    requires
        is_normalized(x, out),
    ensures
        ({
            let (wide, squares, sums, lengths, safe, divisor, quotient) = r;
            &&& cast_gives(x, wide_type(x.dtype), wide)
            &&& sqr_gives(wide, squares)
            &&& sum_keepdim_gives(squares, 1, sums)
            &&& sqrt_gives(sums, lengths)
            &&& is_lifted(lengths, safe)
            &&& is_widened(safe, x.dims[1], divisor)
            &&& div_gives(wide, divisor, quotient)
            &&& cast_gives(quotient, x.dtype, out)
            &&& safe.dims == x.dims.update(1, 1)
            &&& out.dims == x.dims
        }),
{
    choose|
        wide: Array,
        squares: Array,
        sums: Array,
        lengths: Array,
        safe: Array,
        divisor: Array,
        quotient: Array,
    |
        {
            &&& #[trigger] cast_gives(x, wide_type(x.dtype), wide)
            &&& #[trigger] sqr_gives(wide, squares)
            &&& #[trigger] sum_keepdim_gives(squares, 1, sums)
            &&& #[trigger] sqrt_gives(sums, lengths)
            &&& #[trigger] is_lifted(lengths, safe)
            &&& #[trigger] is_widened(safe, x.dims[1], divisor)
            &&& #[trigger] div_gives(wide, divisor, quotient)
            &&& cast_gives(quotient, x.dtype, out)
            &&& sums.dims == x.dims.update(1, 1)
            &&& lengths.dims == sums.dims
            &&& safe.dims == sums.dims
            &&& out.dims == x.dims
        }
}

/// Pooling without a mask treats every item of a batch by itself.
pub(crate) proof fn lemma_pooled_shares(
    model: LatentAttentionModel,
    states: Array,
    gathered: Array,
    out: Array,
    other: Array,
    gathered2: Array,
    out2: Array,
    of_a: Seq<nat>,
    of_b: Seq<nat>,
)
    requires
        works_slice_by_slice(),
        is_taken(model, states),
        is_taken(model, other),
        gathered.dims == seq![
            states.dims[0],
            tensor_dims(model.latents)[0],
            tensor_dims(model.latents)[1],
        ],
        gathered2.dims == seq![
            other.dims[0],
            tensor_dims(model.latents)[0],
            tensor_dims(model.latents)[1],
        ],
        model.pools(gathered, None, states.dims[0], states.dims[1], out),
        model.pools(gathered2, None, other.dims[0], other.dims[1], out2),
        shares(gathered, gathered2, of_a, of_b, 0),
    ensures
        shares(out, out2, of_a, of_b, 0),
{
    if model.output_normalize {
        let mean = choose|mean: Array|
            {
                &&& #[trigger] is_mean(gathered, None, states.dims[0], states.dims[1], mean)
                &&& mean.dims == seq![gathered.dims[0], gathered.dims[2]]
                &&& is_normalized(mean, out)
            };
        let mean2 = choose|mean: Array|
            {
                &&& #[trigger] is_mean(gathered2, None, other.dims[0], other.dims[1], mean)
                &&& mean.dims == seq![gathered2.dims[0], gathered2.dims[2]]
                &&& is_normalized(mean, out2)
            };
        lemma_mean_shares(1, gathered, mean, gathered2, mean2, of_a, of_b, 0);
        let (b, b2) = (states.dims[0], other.dims[0]);
        let (l, d) = (tensor_dims(model.latents)[0], tensor_dims(model.latents)[1]);
        assert(b * d <= b * l * d && b2 * d <= b2 * l * d) by (nonlinear_arith)
            requires
                l > 0,
        ;
        lemma_normalized_shares(mean, out, mean2, out2, of_a, of_b);
    } else {
        lemma_mean_shares(1, gathered, out, gathered2, out2, of_a, of_b, 0);
    }
}

/// The items of a batch stand alone: items that two batches share get the same vector. In
/// particular, an item of a batch gets what it gets alone.
pub proof fn law_items_of_a_batch_stand_alone(
    model: LatentAttentionModel,
    states: Array,
    out: Array,
    other: Array,
    out2: Array,
    of_a: Seq<nat>,
    of_b: Seq<nat>,
)
    requires
        works_slice_by_slice(),
        is_taken(model, states),
        is_taken(model, other),
        model.embeds(states, None, out),
        model.embeds(other, None, out2),
        shares(states, other, of_a, of_b, 0),
    ensures
        shares(out, out2, of_a, of_b, 0),
{
    lemma_shared_shape(states, other, of_a, of_b, 0);
    let (gathered, gathered2) = (
        lemma_embeds(model, states, out),
        lemma_embeds(model, other, out2),
    );
    let g = lemma_gathering(model, states, gathered);
    let g2 = lemma_gathering(model, other, gathered2);
    lemma_copies_share(model, states, g.x, other, g2.x, of_a, of_b);
    lemma_layer_norm_run_shares(
        model.cross_attend_norm.norm,
        g.x,
        g.normed,
        g2.x,
        g2.normed,
        of_a,
        of_b,
        0,
    );
    lemma_contexts_share(
        model,
        states,
        gathered,
        g,
        other,
        gathered2,
        g2,
        of_a,
        of_b,
        0,
    );
    law_items_attend_by_themselves(
        model.cross_attention,
        g.normed,
        g.context,
        g.cross,
        g2.normed,
        g2.context,
        g2.cross,
        of_a,
        of_b,
    );
    lemma_rest_shares(model, states, gathered, g, other, gathered2, g2, of_a, of_b);
    lemma_pooled_shares(
        model,
        states,
        gathered,
        out,
        other,
        gathered2,
        out2,
        of_a,
        of_b,
    );
}

proof fn lemma_embeds(model: LatentAttentionModel, states: Array, out: Array) -> (gathered: Array)
    requires
        is_taken(model, states),
        model.embeds(states, None, out),
    ensures
        model.gathers(states, gathered),
        gathered.dims == seq![
            states.dims[0],
            tensor_dims(model.latents)[0],
            tensor_dims(model.latents)[1],
        ],
        model.pools(gathered, None, states.dims[0], states.dims[1], out),
        out.dims == seq![states.dims[0], tensor_dims(model.latents)[1]],
{
    lemma_gathered_dims(model, states);
    choose|gathered: Array|
        {
            &&& #[trigger] model.gathers(states, gathered)
            &&& gathered.dims == model.gathered_dims(states.dims[0])
            &&& model.pools(gathered, None, states.dims[0], states.dims[1], out)
        }
}

/// The vector of a sequence does not depend on the order of its tokens' states.
pub proof fn law_order_of_the_states_does_not_matter(
    model: LatentAttentionModel,
    states: Array,
    out: Array,
    other: Array,
    out2: Array,
    order: Seq<nat>,
    order2: Seq<nat>,
)
    requires
        works_slice_by_slice(),
        softmax_ignores_order(),
        matmul_ignores_order(),
        is_taken(model, states),
        is_taken(model, other),
        model.embeds(states, None, out),
        model.embeds(other, None, out2),
        is_arrangement(order, 0, states.dims[1]),
        is_arrangement(order2, 0, other.dims[1]),
        shares(states, other, order, order2, 1),
    ensures
        same(out, out2),
{
    lemma_shared_shape(states, other, order, order2, 1);
    let (gathered, gathered2) = (
        lemma_embeds(model, states, out),
        lemma_embeds(model, other, out2),
    );
    let g = lemma_gathering(model, states, gathered);
    let g2 = lemma_gathering(model, other, gathered2);
    let all = run(0, states.dims[0]);
    assert(in_range(all, states.dims[0]));
    lemma_copies_share(model, states, g.x, other, g2.x, all, all);
    lemma_layer_norm_run_shares(
        model.cross_attend_norm.norm,
        g.x,
        g.normed,
        g2.x,
        g2.normed,
        all,
        all,
        0,
    );
    lemma_shares_same(g.normed, g2.normed, 0);
    lemma_contexts_share(
        model,
        states,
        gathered,
        g,
        other,
        gathered2,
        g2,
        order,
        order2,
        1,
    );
    law_order_of_the_context_does_not_matter(
        model.cross_attention,
        g.normed,
        g2.normed,
        g.context,
        g2.context,
        g.cross,
        g2.cross,
        order,
        order2,
    );
    lemma_same_shares(g.cross, g2.cross, 0);
    lemma_rest_shares(model, states, gathered, g, other, gathered2, g2, all, all);
    lemma_pooled_shares(
        model,
        states,
        gathered,
        out,
        other,
        gathered2,
        out2,
        all,
        all,
    );
    lemma_shares_same(out, out2, 0);
}

/// Halves of one shape that can be put next to each other.
pub open spec fn are_halves(a: Array, b: Array) -> bool {
    &&& well_formed(a)
    &&& well_formed(b)
    &&& a.dims.len() > 0
    &&& a.dims.last() > 0
    &&& a.dims == b.dims
    &&& a.dtype == b.dtype
}

/// The gated linear unit is additive in its first half.
pub proof fn law_unit_is_additive(
    a: Array,
    b: Array,
    sum: Array,
    gates: Array,
    of_a: Array,
    of_b: Array,
    of_sum: Array,
)
    requires
        works_slice_by_slice(),
        products_distribute(),
        are_halves(a, gates),
        are_halves(b, gates),
        are_halves(sum, gates),
        add_gives(a, b, sum),
        geglu_run(join(a, gates, a.dims.len() - 1), of_a),
        geglu_run(join(b, gates, a.dims.len() - 1), of_b),
        geglu_run(join(sum, gates, a.dims.len() - 1), of_sum),
    ensures
        add_gives(of_a, of_b, of_sum),
{
    let g = lemma_gate(a, gates, of_a);
    let g2 = lemma_gate(b, gates, of_b);
    let g3 = lemma_gate(sum, gates, of_sum);
    let all = run(0, gates.dims[0]);
    lemma_same_shares(gates, gates, 0);
    lemma_gelu_shares(gates, g, gates, g2, all, all, 0);
    lemma_gelu_shares(gates, g, gates, g3, all, all, 0);
    lemma_shares_same(g, g2, 0);
    lemma_shares_same(g, g3, 0);
}

pub(crate) proof fn lemma_gate(a: Array, gates: Array, out: Array) -> (gate: Array)
    requires
        are_halves(a, gates),
        geglu_run(join(a, gates, a.dims.len() - 1), out),
    ensures
        gelu_gives(gates, gate),
        mul_gives(a, gate, out),
        gate.dims == a.dims,
        out.dims == a.dims,
{
    law_unit_of_joined_halves(a, gates, out);
    choose|gate: Array|
        {
            &&& #[trigger] gelu_gives(gates, gate)
            &&& mul_gives(a, gate, out)
            &&& gate.dims == a.dims
            &&& out.dims == a.dims
        }
}

/// The gated linear unit gives zeros where one of its halves is zero.
pub proof fn law_unit_of_zeros_is_zero(a: Array, gates: Array, out: Array, rows: Seq<nat>)
    requires
        zero_stays_zero(),
        are_halves(a, gates),
        geglu_run(join(a, gates, a.dims.len() - 1), out),
        are_zero_rows(a, rows) || are_zero_rows(gates, rows),
    ensures
        are_zero_rows(out, rows),
        out.dims == a.dims,
{
    reveal(zero_stays_zero);
    let gate = lemma_gate(a, gates, out);
    if are_zero_rows(gates, rows) {
        assert(are_zero_rows(gate, rows));
    }
}

} // verus!
