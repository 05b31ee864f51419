//! The attention of the latents to the states of the language model.
use crate::array::{
    chunk_of, count, countable, has_host_matmul, in_bounds, is_float, is_order, is_plain,
    is_spanned, is_view, lemma_cells, lemma_count_three, lemma_count_two, lemma_span, permuted,
    row_major, scalar_bits, sizes, span, swapped, transposed, well_formed, Array,
};
use crate::error::{lift, ModelError};
use crate::feed_forward::{halved, halves};
use crate::layers::{
    inverse_sqrt, is_float_type, is_inverse_sqrt, is_number, is_operation_error,
    lemma_linear_fits_stack, number, reshaped, Linear,
};
use crate::ops::{self, affine_gives, linear_fits, linear_gives, softmax_gives};
use crate::tensor::{
    array, matmul_fits, matmul_gives, same_kind, tensor_dims, tensor_dtype, tensor_on_host,
    tensor_packed, tensor_strides, walks_evenly,
};
use crate::weights::{
    dims_of, expect_countable, has_matrix, holds_matrix, matrix_fails, weights_start_inside,
    Weights,
};
use candle_core::Tensor;
use vstd::prelude::*;

verus! {

/// An attention with several heads, from one set of states to another.
pub struct CrossAttention {
    pub to_q: Linear,
    pub to_kv: Linear,
    pub to_out: Linear,
    pub heads: usize,
    pub scale: Tensor,
}

/// The order of dimensions that brings the heads before the rows, and back.
pub open spec fn heads_first() -> Seq<usize> {
    seq![0usize, 2, 1, 3]
}

/// The bits of the double zero.
pub const ZERO: u64 = 0;

/// `out` is `a` cut into `heads` heads of this size, with the heads before the rows.
pub open spec fn is_split(
    a: Array,
    batch: nat,
    rows: nat,
    heads: nat,
    size: nat,
    out: Array,
) -> bool {
    exists|apart: Array|
        {
            &&& #[trigger] is_view(a, apart)
            &&& apart.dims == seq![batch, rows, heads, size]
            &&& out == permuted(apart, heads_first())
        }
}

/// `probs` are the weights that the queries give to the keys: their scaled products, brought to a
/// sum of one.
pub open spec fn is_weighing(q: Array, k: Array, scale: u64, probs: Array) -> bool {
    exists|scores: Array, scaled: Array|
        {
            &&& #[trigger] matmul_gives(q, transposed(k, 2, 3), scores)
            &&& #[trigger] affine_gives(scores, scale, ZERO, scaled)
            &&& softmax_gives(scaled, 3, probs)
            &&& scores.dims == q.dims.update(3, k.dims[2])
            &&& scaled.dims == scores.dims
            &&& probs.dims == scores.dims
        }
}

/// `flat` is `mixed` with the heads behind the rows again and put together.
pub open spec fn is_merged(mixed: Array, batch: nat, rows: nat, flat: Array) -> bool {
    &&& is_view(permuted(mixed, heads_first()), flat)
    &&& flat.dims.len() == 3
    &&& flat.dims[0] == batch
    &&& flat.dims[1] == rows
    &&& countable(permuted(mixed, heads_first()).dims) ==> batch * rows * flat.dims[2] == count(
        permuted(mixed, heads_first()).dims,
    )
}

/// A tensor cut into heads, with the heads before the rows.
fn split(t: &Tensor, batch: usize, rows: usize, heads: usize, size: usize) -> (r: Result<
    Tensor,
    ModelError,
>)
    ensures
        r matches Ok(o) ==> {
            let dims = seq![batch as nat, rows as nat, heads as nat, size as nat];
            &&& is_split(
                array(*t),
                batch as nat,
                rows as nat,
                heads as nat,
                size as nat,
                array(o),
            )
            &&& tensor_dims(o) == seq![batch as nat, heads as nat, rows as nat, size as nat]
            &&& same_kind(o, *t)
            &&& count(tensor_dims(o)) > 0 ==> walks_evenly(o)
            &&& tensor_strides(o).len() == 4
            &&& countable(tensor_dims(*t)) ==> count(dims) == count(tensor_dims(*t))
        },
        r matches Err(e) ==> is_operation_error(e),
        tensor_on_host(*t) && is_plain(tensor_dtype(*t)) && countable(tensor_dims(*t)) && count(
            seq![batch as nat, rows as nat, heads as nat, size as nat],
        ) == count(tensor_dims(*t)) && count(tensor_dims(*t)) > 0 ==> r is Ok,
{
    let shape: Vec<usize> = vec![batch, rows, heads, size];
    let order: Vec<usize> = vec![0usize, 2usize, 1usize, 3usize];
    let ghost dims = seq![batch as nat, rows as nat, heads as nat, size as nat];
    proof {
        assert(sizes(shape@) =~= dims);
        assert(order@ =~= heads_first());
        lemma_heads_first();
        lemma_row_major_four(dims);
        lemma_span(dims);
    }
    let apart: Tensor = reshaped(t, &shape)?;
    let turned: Tensor = lift(ops::permute(&apart, &order))?;
    proof {
        assert(tensor_dims(turned) == array(turned).dims);
        assert(tensor_dims(turned) =~= seq![
            batch as nat,
            heads as nat,
            rows as nat,
            size as nat,
        ]);
        lemma_span_turned(batch as nat, rows as nat, heads as nat, size as nat);
    }
    lift(ops::contiguous(&turned))
}

proof fn lemma_span_turned(batch: nat, rows: nat, heads: nat, size: nat)
    ensures
        span(seq![batch, heads, rows, size]) == span(seq![batch, rows, heads, size]),
{
    reveal_with_fuel(span, 5);
    let (a, b) = (seq![batch, heads, rows, size], seq![batch, rows, heads, size]);
    assert(a.drop_last() =~= seq![batch, heads, rows]);
    assert(b.drop_last() =~= seq![batch, rows, heads]);
    assert(a.drop_last().drop_last() =~= seq![batch, heads]);
    assert(b.drop_last().drop_last() =~= seq![batch, rows]);
    assert(a.drop_last().drop_last().drop_last() =~= seq![batch]);
    assert(b.drop_last().drop_last().drop_last() =~= seq![batch]);
    let one = span(seq![batch]);
    assert(one * rows * heads == one * heads * rows) by (nonlinear_arith);
}

proof fn lemma_heads_first()
    ensures
        is_order(heads_first(), 4),
{
    let order = heads_first();
    assert forall|d: usize| d < 4 implies #[trigger] order.contains(d) by {
        assert(order[0] == 0 && order[1] == 2 && order[2] == 1 && order[3] == 3);
    }
}

/// The number of cells and the distances of a stack of stacks of matrices.
pub proof fn lemma_row_major_four(dims: Seq<nat>)
    requires
        dims.len() == 4,
    ensures
        count(dims) == dims[0] * dims[1] * dims[2] * dims[3],
        row_major(dims) == seq![dims[1] * dims[2] * dims[3], dims[2] * dims[3], dims[3], 1],
{
    reveal_with_fuel(count, 2);
    let strides = row_major(dims);
    lemma_count_three(dims.drop_last());
    lemma_count_three(dims.subrange(1, 4));
    lemma_count_two(dims.subrange(2, 4));
    assert(dims.subrange(3, 4).drop_last() =~= Seq::empty());
    assert(count(dims.subrange(3, 4)) == 1 * dims[3]);
    assert(count(dims.subrange(4, 4)) == 1);
    assert(strides =~= seq![dims[1] * dims[2] * dims[3], dims[2] * dims[3], dims[3], 1]);
}

/// An error where a machine word cannot count the cells of a matrix product.
fn expect_product(a: &Tensor, b: &Tensor) -> (r: Result<(), ModelError>)
    requires
        tensor_dims(*a).len() >= 2,
        tensor_dims(*b).len() >= 2,
    ensures
        r is Ok <==> is_spanned(tensor_dims(*a).drop_last().push(tensor_dims(*b).last())),
        r matches Err(e) ==> is_operation_error(e),
{
    let mut dims: Vec<usize> = dims_of(a);
    let other: Vec<usize> = dims_of(b);
    proof {
        assert(sizes(dims@).len() == dims@.len());
        assert(sizes(other@).len() == other@.len());
        assert(sizes(other@)[other@.len() - 1] == other@[other@.len() - 1]);
    }
    let _ = dims.pop();
    dims.push(other[other.len() - 1]);
    assert(sizes(dims@) =~= tensor_dims(*a).drop_last().push(tensor_dims(*b).last()));
    expect_countable(&dims)
}

/// The weights that the queries give to the keys.
fn weigh(q: &Tensor, k: &Tensor, scale: &Tensor) -> (r: Result<Tensor, ModelError>)
    requires
        is_float(tensor_dtype(*q)),
        tensor_dims(*q).len() == 4,
        tensor_dims(*k).len() == 4,
        tensor_dims(*q)[0] > 0,
        tensor_dims(*q)[1] > 0,
        tensor_dims(*q)[2] > 0,
        tensor_dims(*k)[2] > 0,
    ensures
        r matches Ok(o) ==> {
            &&& is_weighing(array(*q), array(*k), scalar_bits(array(*scale)), array(o))
            &&& tensor_dims(o) == tensor_dims(*q).update(3, tensor_dims(*k)[2])
            &&& same_kind(o, *q)
            &&& countable(tensor_dims(o)) && count(tensor_dims(o)) > 0 ==> tensor_strides(o)
                == row_major(tensor_dims(o))
        },
        r matches Err(e) ==> is_operation_error(e),
        can_weigh(*q, *k) && is_number(*scale) ==> r is Ok,
{
    let k_t: Tensor = lift(ops::transpose(k, 2, 3))?;
    proof {
        if can_weigh(*q, *k) {
            lemma_can_weigh(*q, *k, k_t);
        }
    }
    proof {
        assert(tensor_dims(k_t) == array(k_t).dims);
        let out = tensor_dims(*q).drop_last().push(tensor_dims(k_t).last());
        assert(out =~= tensor_dims(*q).update(3, tensor_dims(*k)[2]));
        lemma_cells(out);
        lemma_span(out);
    }
    expect_product(q, &k_t)?;
    let scores: Tensor = lift(q.matmul(&k_t))?;
    assert(tensor_dims(scores) =~= tensor_dims(*q).update(3, tensor_dims(*k)[2]));
    proof {
        lemma_cells(tensor_dims(scores));
    }
    let zero: Tensor = number(ZERO)?;
    let scaled: Tensor = lift(ops::affine(&scores, scale, &zero))?;
    lift(ops::softmax(&scaled, 3))
}

/// Queries and keys that can be weighed in host memory.
pub open spec fn can_weigh(q: Tensor, k: Tensor) -> bool {
    let from = tensor_dims(q);
    let to = tensor_dims(k);
    &&& from.len() == 4
    &&& to.len() == 4
    &&& to[0] == from[0]
    &&& to[1] == from[1]
    &&& to[3] == from[3]
    &&& tensor_on_host(q)
    &&& tensor_on_host(k)
    &&& tensor_dtype(k) == tensor_dtype(q)
    &&& has_host_matmul(tensor_dtype(q))
    &&& count(from) > 0
    &&& count(to) > 0
    &&& countable(from)
    &&& countable(to)
    &&& countable(from.update(3, to[2]))
    &&& walks_evenly(q)
    &&& walks_evenly(k)
    &&& tensor_strides(k).len() == 4
}

proof fn lemma_can_weigh(q: Tensor, k: Tensor, k_t: Tensor)
    requires
        can_weigh(q, k),
        array(k_t) == transposed(array(k), 2, 3),
        tensor_strides(k_t) == swapped(tensor_strides(k), 2, 3),
        tensor_on_host(k_t) == tensor_on_host(k),
    ensures
        matmul_fits(q, k_t),
{
    let from = tensor_dims(q);
    let to = tensor_dims(k);
    let turned = tensor_dims(k_t);
    assert(turned == array(k_t).dims);
    lemma_row_major_four(to);
    lemma_row_major_four(turned);
    assert(to[0] * to[1] * to[2] * to[3] == to[0] * to[1] * to[3] * to[2]) by (nonlinear_arith);
    assert(turned.take(2) =~= from.take(2));
    assert(from.drop_last().push(turned.last()) =~= from.update(3, to[2]));
}

/// The heads of every row put together again.
fn merge(mixed: &Tensor, batch: usize, rows: usize) -> (r: Result<Tensor, ModelError>)
    requires
        batch * rows <= usize::MAX,
    ensures
        r matches Ok(o) ==> {
            &&& is_merged(array(*mixed), batch as nat, rows as nat, array(o))
            &&& same_kind(o, *mixed)
            &&& tensor_packed(o)
        },
        r matches Err(e) ==> e is Candle,
        tensor_on_host(*mixed) && is_plain(tensor_dtype(*mixed)) && tensor_dims(*mixed).len() == 4
            && tensor_dims(*mixed)[0] == batch && tensor_dims(*mixed)[2] == rows && batch * rows > 0
            && countable(tensor_dims(*mixed)) ==> r is Ok && tensor_dims(r->Ok_0)[2]
            == tensor_dims(*mixed)[1] * tensor_dims(*mixed)[3],
{
    let order: Vec<usize> = vec![0usize, 2usize, 1usize, 3usize];
    proof {
        assert(order@ =~= heads_first());
        lemma_heads_first();
    }
    let back: Tensor = lift(ops::permute(mixed, &order))?;
    let ghost d = tensor_dims(*mixed);
    let ghost fits = tensor_on_host(*mixed) && is_plain(tensor_dtype(*mixed)) && d.len() == 4
        && d[0] == batch && d[2] == rows && batch * rows > 0 && countable(d);
    proof {
        if d.len() == 4 {
            assert(tensor_dims(back) =~= seq![d[0], d[2], d[1], d[3]]);
            lemma_row_major_four(d);
            lemma_row_major_four(tensor_dims(back));
            assert(d[0] * d[2] * d[1] * d[3] == d[0] * d[1] * d[2] * d[3]) by (nonlinear_arith);
        }
        if fits {
            let p = (batch * rows) as nat;
            let h = d[1] * d[3];
            assert(d[0] * d[2] * d[1] * d[3] == p * h) by (nonlinear_arith)
                requires
                    p == d[0] * d[2],
                    h == d[1] * d[3],
            ;
            vstd::arithmetic::div_mod::lemma_mod_multiples_basic(h as int, p as int);
            assert(h * p == p * h) by (nonlinear_arith);
        }
    }
    let o: Tensor = lift(ops::reshape_rest(&back, batch, rows))?;
    proof {
        if fits {
            let p = (batch * rows) as nat;
            let h = d[1] * d[3];
            let last = tensor_dims(o)[2];
            assert(last == h) by (nonlinear_arith)
                requires
                    p * last == p * h,
                    p > 0,
            ;
        }
    }
    Ok(o)
}

proof fn lemma_heads(width: nat, heads: nat)
    requires
        heads > 0,
        width > 0,
        width % heads == 0,
    ensures
        heads * (width / heads) == width,
        width / heads > 0,
{
    vstd::arithmetic::div_mod::lemma_fundamental_div_mod(width as int, heads as int);
    assert(width / heads > 0) by (nonlinear_arith)
        requires
            heads * (width / heads) == width,
            width > 0,
    ;
}

proof fn lemma_split_count(dims: Seq<nat>, heads: nat, size: nat)
    requires
        dims.len() == 3,
        heads * size == dims[2],
    ensures
        count(dims) == dims[0] * dims[1] * dims[2],
        count(seq![dims[0], dims[1], heads, size]) == count(dims),
{
    lemma_count_three(dims);
    lemma_row_major_four(seq![dims[0], dims[1], heads, size]);
    assert(dims[0] * dims[1] * heads * size == dims[0] * dims[1] * (heads * size))
        by (nonlinear_arith);
}

proof fn lemma_head_product(batch: nat, rows: nat, heads: nat, size: nat)
    requires
        batch > 0,
        rows > 0,
        heads > 0,
        size > 0,
    ensures
        count(seq![batch, heads, rows, size]) == batch * rows * (heads * size),
        count(seq![batch, heads, rows, size]) > 0,
        count(seq![batch, rows, heads, size]) == batch * rows * (heads * size),
{
    lemma_row_major_four(seq![batch, heads, rows, size]);
    lemma_row_major_four(seq![batch, rows, heads, size]);
    assert(batch * heads * rows * size == batch * rows * (heads * size)) by (nonlinear_arith);
    assert(batch * rows * heads * size == batch * rows * (heads * size)) by (nonlinear_arith);
    assert(batch * heads * rows * size > 0) by (nonlinear_arith)
        requires
            batch > 0,
            heads > 0,
            rows > 0,
            size > 0,
    ;
}

proof fn lemma_mixing_fits(
    probs: Tensor,
    values: Tensor,
    batch: nat,
    heads: nat,
    rows: nat,
    columns: nat,
    size: nat,
)
    requires
        tensor_dims(probs) == seq![batch, heads, rows, columns],
        tensor_dims(values) == seq![batch, heads, columns, size],
        batch > 0,
        heads > 0,
        rows > 0,
        columns > 0,
        size > 0,
        batch * heads * rows * columns <= usize::MAX,
        batch * rows * (heads * size) <= usize::MAX,
        batch * columns * (heads * size) <= usize::MAX,
        tensor_strides(probs) == row_major(tensor_dims(probs)),
        walks_evenly(values),
        tensor_on_host(probs),
        tensor_on_host(values),
        tensor_dtype(values) == tensor_dtype(probs),
        has_host_matmul(tensor_dtype(probs)),
    ensures
        matmul_fits(probs, values),
{
    let dims = tensor_dims(probs);
    lemma_row_major_four(dims);
    lemma_head_product(batch, columns, heads, size);
    lemma_head_product(batch, rows, heads, size);
    assert(batch * heads * rows * columns > 0) by (nonlinear_arith)
        requires
            batch > 0,
            heads > 0,
            rows > 0,
            columns > 0,
    ;
    assert(heads * rows * columns == rows * columns * heads) by (nonlinear_arith);
    assert(tensor_dims(values).take(2) =~= dims.take(2));
    assert(dims.drop_last().push(size) =~= seq![batch, heads, rows, size]);
}

impl CrossAttention {
    /// The attention that is stored at this place.
    pub open spec fn is_stored(
        self,
        vb: Weights,
        query_dim: nat,
        context_dim: nat,
        heads: nat,
        dim_head: nat,
    ) -> bool {
        let inner = dim_head * heads;
        &&& self.heads == heads
        &&& is_inverse_sqrt(dim_head as u64, array(self.scale))
        &&& is_number(self.scale)
        &&& holds_matrix(vb, "to_q"@, inner, query_dim, array(self.to_q.weight))
        &&& holds_matrix(vb, "to_kv"@, inner * 2, context_dim, array(self.to_kv.weight))
        &&& holds_matrix(vb, "to_out"@, query_dim, inner, array(self.to_out.weight))
    }

    /// The attention is stored at this place.
    pub open spec fn is_there(
        vb: Weights,
        query_dim: nat,
        context_dim: nat,
        heads: nat,
        dim_head: nat,
    ) -> bool {
        exists|attention: Self| #[trigger]
            attention.is_stored(vb, query_dim, context_dim, heads, dim_head)
    }

    /// `e` says why the first weight that failed was not read from this place.
    pub open spec fn is_refused(
        vb: Weights,
        query_dim: nat,
        context_dim: nat,
        heads: nat,
        dim_head: nat,
        e: ModelError,
    ) -> bool {
        let inner = dim_head * heads;
        let has_q = has_matrix(vb, "to_q"@, inner, query_dim);
        let has_kv = has_matrix(vb, "to_kv"@, inner * 2, context_dim);
        ||| matrix_fails(vb, "to_q"@, inner, query_dim, e)
        ||| has_q && matrix_fails(vb, "to_kv"@, inner * 2, context_dim, e)
        ||| has_q && has_kv && matrix_fails(vb, "to_out"@, query_dim, inner, e)
    }

    /// Reads the weights of the attention from this place.
    pub fn load(
        vb: &Weights,
        query_dim: usize,
        context_dim: usize,
        heads: usize,
        dim_head: usize,
    ) -> (r: Result<Self, ModelError>)
        requires
            dim_head * heads * 2 <= usize::MAX,
            dim_head <= i64::MAX,
            query_dim > 0 && context_dim > 0 && heads > 0 && dim_head > 0 || weights_start_inside(
                *vb,
            ),
        ensures
            r matches Ok(attention) ==> attention.is_stored(
                *vb,
                query_dim as nat,
                context_dim as nat,
                heads as nat,
                dim_head as nat,
            ),
            r matches Err(e) ==> Self::is_refused(
                *vb,
                query_dim as nat,
                context_dim as nat,
                heads as nat,
                dim_head as nat,
                e,
            ),
    {
        let inner_dim: usize = dim_head * heads;
        assert(dim_head > 0 && heads > 0 ==> dim_head * heads > 0) by (nonlinear_arith);
        let scale: Tensor = inverse_sqrt(dim_head)?;
        let to_q: Tensor = vb.matrix("to_q", inner_dim, query_dim)?;
        let to_kv: Tensor = vb.matrix("to_kv", inner_dim * 2, context_dim)?;
        let to_out: Tensor = vb.matrix("to_out", query_dim, inner_dim)?;
        Ok(
            CrossAttention {
                to_q: Linear::new(to_q),
                to_kv: Linear::new(to_kv),
                to_out: Linear::new(to_out),
                heads,
                scale,
            },
        )
    }

    /// The size of one head, for projected states of this width.
    pub open spec fn head_size(self, width: nat) -> nat {
        width / (self.heads as nat)
    }

    /// The steps from the projected queries, keys and values to an outcome of the attention of
    /// `batch` times `rows` queries to `columns` keys.
    pub open spec fn mixing_steps(
        self,
        batch: nat,
        rows: nat,
        columns: nat,
        q: Array,
        k: Array,
        v: Array,
        heads: (Array, Array, Array),
        probs: Array,
        mixed: Array,
        flat: Array,
        out: Array,
    ) -> bool {
        let (qh, kh, vh) = heads;
        let count_of_heads = self.heads as nat;
        let size = self.head_size(q.dims.last());
        &&& is_split(q, batch, rows, count_of_heads, size, qh)
        &&& is_split(k, batch, columns, count_of_heads, size, kh)
        &&& is_split(v, batch, columns, count_of_heads, size, vh)
        &&& is_weighing(qh, kh, scalar_bits(array(self.scale)), probs)
        &&& matmul_gives(probs, vh, mixed)
        &&& is_merged(mixed, batch, rows, flat)
        &&& linear_gives(array(self.to_out.weight), flat, out)
        &&& mixed.dims == seq![batch, count_of_heads, rows, size]
        &&& out.dims == seq![batch, rows, self.to_out.outputs()]
    }

    /// `out` is an outcome of the attention of `batch` times `rows` queries to `columns` keys,
    /// given the projected queries, keys and values.
    pub open spec fn mixes(
        self,
        batch: nat,
        rows: nat,
        columns: nat,
        q: Array,
        k: Array,
        v: Array,
        out: Array,
    ) -> bool {
        exists|heads: (Array, Array, Array), probs: Array, mixed: Array, flat: Array| #[trigger]
            self.mixing_steps(
                batch,
                rows,
                columns,
                q,
                k,
                v,
                heads,
                probs,
                mixed,
                flat,
                out,
            )
    }

    /// `out` is an outcome of the attention of `x` to the context: the keys are the first half of
    /// a projection of the context, the values the second.
    pub open spec fn attends(self, x: Array, context: Array, out: Array) -> bool {
        exists|q: Array, kv: Array|
            {
                &&& #[trigger] linear_gives(array(self.to_q.weight), x, q)
                &&& #[trigger] linear_gives(array(self.to_kv.weight), context, kv)
                &&& q.dims == x.dims.drop_last().push(self.to_q.outputs())
                &&& kv.dims == context.dims.drop_last().push(self.to_kv.outputs())
                &&& self.to_kv.outputs() >= 2
                &&& self.mixes(
                    x.dims[0],
                    x.dims[1],
                    context.dims[1],
                    q,
                    chunk_of(kv, 2, 0),
                    chunk_of(kv, 2, 1),
                    out,
                )
            }
    }

    /// The queries and the context on which the attention in host memory succeeds.
    pub open spec fn fits(self, x: Tensor, context: Tensor) -> bool {
        let dims = tensor_dims(x);
        let other = tensor_dims(context);
        let inner = self.to_q.outputs();
        &&& dims.len() == 3
        &&& other.len() == 3
        &&& other[0] == dims[0]
        &&& dims[0] > 0
        &&& dims[1] > 0
        &&& other[1] > 0
        &&& inner > 0
        &&& inner % (self.heads as nat) == 0
        &&& self.heads > 0
        &&& self.to_out.outputs() > 0
        &&& tensor_dims(self.to_q.weight) == seq![inner, dims[2]]
        &&& tensor_dims(self.to_kv.weight) == seq![2 * inner, other[2]]
        &&& tensor_dims(self.to_out.weight) == seq![self.to_out.outputs(), inner]
        &&& tensor_on_host(x)
        &&& has_host_matmul(tensor_dtype(x))
        &&& same_kind(context, x)
        &&& same_kind(self.to_q.weight, x)
        &&& same_kind(self.to_kv.weight, x)
        &&& same_kind(self.to_out.weight, x)
        &&& is_number(self.scale)
        &&& dims[0] * dims[1] * dims[2] <= usize::MAX
        &&& dims[0] * dims[1] * inner <= usize::MAX
        &&& dims[0] * dims[1] * self.to_out.outputs() <= usize::MAX
        &&& other[0] * other[1] * other[2] <= usize::MAX
        &&& other[0] * other[1] * (2 * inner) <= usize::MAX
        &&& dims[0] * self.heads * dims[1] * other[1] <= usize::MAX
    }

    /// The shape of the keys, and of the values where the projection has two halves.
    pub open spec fn key_dims(self, context: Tensor) -> Seq<nat> {
        halved(tensor_dims(context).drop_last().push(self.to_kv.outputs()))
    }

    /// The queries or the context have another number of dimensions than three, but can be
    /// projected.
    pub open spec fn has_wrong_rank(self, x: Tensor, context: Tensor) -> bool {
        &&& tensor_dims(x).len() != 3 || tensor_dims(context).len() != 3
        &&& linear_fits(self.to_q.weight, x)
        &&& linear_fits(self.to_kv.weight, context)
        &&& self.to_kv.outputs() >= 2
    }

    /// These are the sizes of the queries, which are none, or of the keys, which are none.
    pub open spec fn has_nothing(self, x: Tensor, context: Tensor, dims: Seq<nat>) -> bool {
        ||| dims == tensor_dims(x) && dims.len() == 3 && (dims[0] == 0 || dims[1] == 0)
        ||| dims == self.key_dims(context) && dims.len() == 3 && dims[1] == 0
    }

    /// Projected queries that do not split into heads of one size.
    pub open spec fn is_unsplittable(self, x: Tensor) -> bool {
        let dims = tensor_dims(x);
        &&& dims.len() == 3
        &&& dims[0] * dims[1] > 0
        &&& dims[0] * dims[1] * self.to_q.outputs() <= usize::MAX
        &&& self.to_q.outputs() % (self.heads as nat) != 0
    }

    /// Queries and a context of different numbers of batches.
    pub open spec fn is_unpaired(self, x: Tensor, context: Tensor) -> bool {
        let dims = tensor_dims(x);
        let other = tensor_dims(context);
        let inner = self.to_q.outputs();
        &&& dims.len() == 3
        &&& other.len() == 3
        &&& other[0] != dims[0]
        &&& other[1] > 0
        &&& inner > 0
        &&& inner % (self.heads as nat) == 0
        &&& self.to_kv.outputs() == 2 * inner
        &&& other[0] * other[1] * inner <= usize::MAX
    }

    proof fn lemma_unsplittable(self, x: Tensor, q: Tensor)
        requires
            self.heads > 0,
            self.is_unsplittable(x),
            tensor_dims(q) == tensor_dims(x).drop_last().push(self.to_q.outputs()),
        ensures
            countable(tensor_dims(q)),
            count(
                seq![
                    tensor_dims(x)[0],
                    tensor_dims(x)[1],
                    self.heads as nat,
                    self.head_size(self.to_q.outputs()),
                ],
            ) != count(tensor_dims(q)),
    {
        let w = self.to_q.outputs();
        let h = self.heads as nat;
        let (b, n, d) = (tensor_dims(x)[0], tensor_dims(x)[1], self.head_size(w));
        lemma_count_three(tensor_dims(q));
        lemma_row_major_four(seq![b, n, h, d]);
        vstd::arithmetic::div_mod::lemma_fundamental_div_mod(w as int, h as int);
        assert(b * n * h * d < b * n * w) by (nonlinear_arith)
            requires
                b * n > 0,
                h * d < w,
        ;
    }

    proof fn lemma_unpaired(self, x: Tensor, context: Tensor, k: Tensor)
        requires
            self.heads > 0,
            self.is_unpaired(x, context),
            tensor_dims(k) == self.key_dims(context),
        ensures
            countable(tensor_dims(k)),
            count(
                seq![
                    tensor_dims(x)[0],
                    tensor_dims(context)[1],
                    self.heads as nat,
                    self.head_size(self.to_q.outputs()),
                ],
            ) != count(tensor_dims(k)),
    {
        let w = self.to_q.outputs();
        let h = self.heads as nat;
        let d = self.head_size(w);
        let (b, c, m) = (tensor_dims(x)[0], tensor_dims(context)[0], tensor_dims(context)[1]);
        lemma_count_three(tensor_dims(k));
        lemma_row_major_four(seq![b, m, h, d]);
        lemma_heads(w, h);
        assert(tensor_dims(k)[2] == w);
        assert(b * m * h * d != c * m * w) by (nonlinear_arith)
            requires
                h * d == w,
                w > 0,
                m > 0,
                b != c,
        ;
    }

    /// The attention of `x` to the context.
    pub fn forward(&self, x: &Tensor, context: &Tensor) -> (r: Result<Tensor, ModelError>)
        requires
            self.heads > 0,
            tensor_dims(*x).len() == 3 ==> tensor_dims(*x)[0] * tensor_dims(*x)[1] <= usize::MAX,
        ensures
            r matches Ok(o) ==> {
                &&& self.attends(array(*x), array(*context), array(o))
                &&& is_float(tensor_dtype(*x))
                &&& tensor_dims(*x).len() == 3
                &&& tensor_dims(*context).len() == 3
                &&& tensor_dims(*x)[0] > 0
                &&& tensor_dims(*x)[1] > 0
                &&& tensor_dims(*context)[1] > 0
                &&& tensor_dims(o) == tensor_dims(*x).update(2, self.to_out.outputs())
                &&& same_kind(o, *x)
                &&& tensor_packed(o)
                &&& !self.to_q.misfits(*x)
                &&& !self.to_kv.misfits(*context)
                &&& !self.is_unsplittable(*x)
                &&& !self.is_unpaired(*x, *context)
            },
            r matches Err(e) ==> {
                ||| is_operation_error(e)
                ||| e is IntegerStates && !is_float(tensor_dtype(*x))
                ||| e matches ModelError::EmptyStates { dims } && self.has_nothing(
                    *x,
                    *context,
                    sizes(dims@),
                )
                ||| e matches ModelError::NotTwoChunks { got } && got == self.to_kv.outputs() && got
                    < 2
                ||| e matches ModelError::AttentionRank { x: a, k: b } && sizes(a@) == tensor_dims(
                    *x,
                ) && sizes(b@) == self.key_dims(*context) && (a@.len() != 3 || b@.len() != 3)
            },
            self.has_wrong_rank(*x, *context) ==> r matches Err(
                ModelError::AttentionRank { x: _, k: _ },
            ),
            tensor_dims(*x).len() == 3 && tensor_dims(*context).len() == 3 ==> !(
            r matches Err(ModelError::AttentionRank { x: _, k: _ })),
            self.fits(*x, *context) ==> r is Ok,
    {
        let ghost fits = self.fits(*x, *context);
        proof {
            if fits {
                lemma_linear_fits_stack(self.to_q.weight, *x);
                lemma_linear_fits_stack(self.to_kv.weight, *context);
            }
        }
        let q: Tensor = self.to_q.forward(x)?;
        let kv: Tensor = self.to_kv.forward(context)?;
        let (k, v) = halves(&kv)?;
        let x_dims: Vec<usize> = dims_of(x);
        let k_dims: Vec<usize> = dims_of(&k);
        proof {
            assert(sizes(x_dims@).len() == x_dims@.len());
            assert(sizes(k_dims@).len() == k_dims@.len());
            assert(tensor_dims(kv).drop_last() =~= tensor_dims(*context).drop_last());
            assert(tensor_dims(k).drop_last() =~= tensor_dims(*context).drop_last());
            assert(tensor_dims(k) =~= self.key_dims(*context));
        }
        if x_dims.len() != 3 || k_dims.len() != 3 {
            return Err(ModelError::AttentionRank { x: x_dims, k: k_dims });
        }
        proof {
            assert(sizes(x_dims@)[0] == x_dims@[0] && sizes(x_dims@)[1] == x_dims@[1]);
            assert(sizes(k_dims@)[1] == k_dims@[1]);
            assert(tensor_dims(k).drop_last()[1] == tensor_dims(*context).drop_last()[1]);
        }
        if x_dims[0] == 0 || x_dims[1] == 0 {
            return Err(ModelError::EmptyStates { dims: x_dims });
        }
        if k_dims[1] == 0 {
            return Err(ModelError::EmptyStates { dims: k_dims });
        }
        if !is_float_type(q.dtype()) {
            return Err(ModelError::IntegerStates);
        }
        let batch_size: usize = x_dims[0];
        let seq_len_q: usize = x_dims[1];
        let seq_len_k: usize = k_dims[1];
        let width: usize = lift(ops::dim(&q, 2))?;
        let head_dim: usize = width / self.heads;
        let ghost h = self.heads as nat;
        let ghost d = head_dim as nat;
        let ghost (b, n, m) = (batch_size as nat, seq_len_q as nat, seq_len_k as nat);
        proof {
            if fits {
                lemma_heads(width as nat, h);
                assert(b * m * (h * d) <= b * m * (2 * (h * d))) by (nonlinear_arith);
                lemma_split_count(tensor_dims(q), h, d);
                lemma_split_count(tensor_dims(k), h, d);
                lemma_split_count(tensor_dims(v), h, d);
                lemma_head_product(b, n, h, d);
                lemma_head_product(b, m, h, d);
            }
            if self.is_unsplittable(*x) {
                self.lemma_unsplittable(*x, q);
            }
            if self.is_unpaired(*x, *context) {
                self.lemma_unpaired(*x, *context, k);
            }
        }
        let qh: Tensor = split(&q, batch_size, seq_len_q, self.heads, head_dim)?;
        let kh: Tensor = split(&k, batch_size, seq_len_k, self.heads, head_dim)?;
        let vh: Tensor = split(&v, batch_size, seq_len_k, self.heads, head_dim)?;
        proof {
            if fits {
                lemma_row_major_four(tensor_dims(qh).update(3, m));
            }
        }
        let probs: Tensor = weigh(&qh, &kh, &self.scale)?;
        proof {
            if fits {
                assert(tensor_dims(probs) =~= seq![b, h, n, m]);
                assert(b * h * n * m > 0) by (nonlinear_arith)
                    requires
                        b > 0,
                        h > 0,
                        n > 0,
                        m > 0,
                ;
                lemma_mixing_fits(probs, vh, b, h, n, m, d);
            }
        }
        proof {
            let out = tensor_dims(probs).drop_last().push(tensor_dims(vh).last());
            if fits {
                assert(out =~= seq![b, h, n, d]);
                lemma_span(out);
            }
        }
        expect_product(&probs, &vh)?;
        let mixed: Tensor = lift(probs.matmul(&vh))?;
        proof {
            if fits {
                assert(tensor_dims(mixed) =~= seq![b, h, n, d]);
                assert(b * n > 0) by (nonlinear_arith)
                    requires
                        b > 0,
                        n > 0,
                ;
            }
        }
        let flat: Tensor = merge(&mixed, batch_size, seq_len_q)?;
        proof {
            if fits {
                lemma_linear_fits_stack(self.to_out.weight, flat);
            }
        }
        let o: Tensor = self.to_out.forward(&flat)?;
        proof {
            assert(tensor_dims(o) =~= tensor_dims(*x).update(2, self.to_out.outputs()));
            assert(array(q).dims.last() == width);
            assert(self.head_size(array(q).dims.last()) == head_dim);
            assert(tensor_dims(mixed) =~= seq![b, h, n, d]);
            assert(tensor_dims(o) =~= seq![b, n, self.to_out.outputs()]);
            assert(self.mixing_steps(
                b,
                n,
                m,
                array(q),
                array(k),
                array(v),
                (array(qh), array(kh), array(vh)),
                array(probs),
                array(mixed),
                array(flat),
                array(o),
            ));
            assert(self.mixes(
                batch_size as nat,
                seq_len_q as nat,
                seq_len_k as nat,
                array(q),
                array(k),
                array(v),
                array(o),
            ));
        }
        Ok(o)
    }
}

/// Bringing the heads before the rows and back again changes nothing.
pub proof fn law_heads_come_back(a: Array)
    requires
        well_formed(a),
        a.dims.len() == 4,
    ensures
        permuted(permuted(a, heads_first()), heads_first()) == a,
{
    let order = heads_first();
    let once = permuted(a, order);
    let twice = permuted(once, order);
    assert(order.index_of(0usize) == 0 && order.index_of(1usize) == 2 && order.index_of(2usize) == 1
        && order.index_of(3usize) == 3) by {
        assert(order[0] == 0 && order[1] == 2 && order[2] == 1 && order[3] == 3);
        assert(order.contains(0usize));
        assert(order.contains(1usize));
        assert(order.contains(2usize));
        assert(order.contains(3usize));
    }
    assert(twice.dims =~= a.dims);
    assert forall|i: Seq<nat>| in_bounds(i, a.dims) implies twice.cells[i] == a.cells[i] by {
        let j = Seq::new(4, |d: int| i[order.index_of(d as usize)]);
        assert(in_bounds(j, once.dims));
        assert(Seq::new(4, |d: int| j[order.index_of(d as usize)]) =~= i);
        assert(twice.cells[i] == once.cells[j]);
    }
    assert(twice.cells =~= a.cells);
}

} // verus!
