//! How calls that pool what the latents gathered relate to each other.
use crate::array::{
    count, countable, in_bounds, is_reshape, is_view, is_widened, lemma_count_one,
    lemma_count_three, lemma_count_two, unsqueezed, widened, Array,
};
use crate::error::ModelError;
use crate::exact::{
    agree_where_weighed, lemma_affine_same, lemma_cast_same, lemma_cast_shares, lemma_div_same,
    lemma_mean_same, lemma_mul_same, lemma_same_shares, lemma_same_tensors, lemma_shares_same,
    lemma_sqr_same, lemma_sqrt_same, lemma_sum_keepdim_same, lemma_sum_same, same, sum_is_local,
    works_slice_by_slice, zero_absorbs,
};
use crate::latent::{
    are_weights, is_lifted, is_mean, is_normalized, is_weighted, is_weighted_mean, normalize,
    weigh_rows, weighted_mean, wide_type, LatentAttentionModel, ONE, POOL_EPSILON,
};
use crate::latent_calls::gathering_gave;
use crate::latent_laws::{
    is_taken, law_items_attend_by_themselves, lemma_contexts_share, lemma_copies_share,
    lemma_gathered_dims, lemma_gathering, lemma_layer_norm_run_shares, lemma_normalized,
    lemma_normalized_shares, lemma_rest_shares,
};
use crate::ops::{affine_gives, mean_gives, sum_gives, sum_keepdim_gives};
use crate::rows::{
    in_range, lemma_position_append, lemma_shared_cell, lemma_shared_shape, run, shares,
};
use crate::tensor::{
    array, cast_gives, div_gives, mul_gives, sqr_gives, sqrt_gives, tensor_dims, tensor_dtype,
};
use crate::token_calls::{cell, lemma_position_one, lemma_view_same};
use candle_core::{DType, Tensor};
use vstd::prelude::*;

verus! {

/// A column laid out over rows of a width is the same for the same column.
proof fn lemma_widened_same(a: Array, b: Array, width: nat, x: Array, y: Array)
    requires
        same(a, b),
        is_widened(a, width, x),
        is_widened(b, width, y),
        a.dims.len() > 0,
        a.dims.last() == 1,
        countable(a.dims),
        countable(x.dims),
    ensures
        same(x, y),
{
    let last = a.dims.len() - 1;
    assert(x.dims == y.dims);
    assert forall|i: Seq<nat>| #[trigger] in_bounds(i, x.dims) implies x.cells[i]
        == y.cells[i] by {
        let j = i.update(last, 0nat);
        assert forall|k: int| 0 <= k < a.dims.len() implies j[k] < a.dims[k] by {
            assert(i[k] < x.dims[k]);
        }
        assert(in_bounds(j, a.dims));
    }
}

proof fn lemma_column_counts(b: nat, w: nat)
    requires
        b * w <= usize::MAX,
        w > 0,
    ensures
        countable(seq![b, 1nat]),
        countable(seq![b, w]),
{
    lemma_count_two(seq![b, 1nat]);
    lemma_count_two(seq![b, w]);
    assert(b * 1 <= b * w) by (nonlinear_arith)
        requires
            w > 0,
    ;
}

/// Rows divided by their lengths are the same for the same rows.
proof fn lemma_normalized_same(x: Array, o: Array, y: Array, p: Array)
    requires
        works_slice_by_slice(),
        is_normalized(x, o),
        is_normalized(y, p),
        same(x, y),
        x.dims.len() == 2,
        x.dims[1] > 0,
        x.dims[0] * x.dims[1] <= usize::MAX,
    ensures
        same(o, p),
{
    let all = run(0, x.dims[0]);
    lemma_same_shares(x, y, 0);
    lemma_normalized_shares(x, o, y, p, all, all);
    let r = lemma_normalized(x, o);
    let s = lemma_normalized(y, p);
    lemma_shares_same(o, p, 0);
}

/// The rows, called to be brought to length one, gave `out`.
pub open spec fn normalizing_gave(x: Tensor, out: Tensor) -> bool {
    call_ensures(normalize, (&x,), Ok::<Tensor, ModelError>(out))
}

/// Every row is divided by the root of the sum of its squares plus a billionth, all of it in the
/// wider of single precision and the type of the rows.
pub proof fn law_rows_are_divided_by_their_lengths(
    x: Tensor,
    wide: Array,
    squares: Array,
    sums: Array,
    lengths: Array,
    divisors: Array,
    spread: Array,
    quotients: Array,
    expected: Array,
    out: Tensor,
)
    requires
        works_slice_by_slice(),
        tensor_dims(x).len() == 2,
        tensor_dims(x)[1] > 0,
        tensor_dims(x)[0] * tensor_dims(x)[1] <= usize::MAX,
        cast_gives(
            array(x),
            if tensor_dtype(x) is F64 {
                DType::F64
            } else {
                DType::F32
            },
            wide,
        ),
        wide.dims == tensor_dims(x),
        sqr_gives(wide, squares),
        squares.dims == tensor_dims(x),
        sum_keepdim_gives(squares, 1, sums),
        sums.dims == seq![tensor_dims(x)[0], 1nat],
        sqrt_gives(sums, lengths),
        lengths.dims == sums.dims,
        affine_gives(lengths, 0x3ff0_0000_0000_0000, 0x3e11_2e0b_e826_d695, divisors),
        divisors.dims == sums.dims,
        spread == widened(divisors, tensor_dims(x)[1]),
        div_gives(wide, spread, quotients),
        quotients.dims == tensor_dims(x),
        cast_gives(quotients, tensor_dtype(x), expected),
        expected.dims == tensor_dims(x),
        normalizing_gave(x, out),
    ensures
        same(array(out), expected),
{
    let ax = array(x);
    let (b, d) = (ax.dims[0], ax.dims[1]);
    let (w, sq, su, le, sa, di, qu) = lemma_normalized_steps(ax, array(out));
    assert(same(ax, ax));
    lemma_cast_same(wide_type(ax.dtype), ax, w, ax, wide);
    lemma_sqr_same(w, sq, wide, squares);
    assert(su.dims =~= sums.dims);
    lemma_sum_keepdim_same(1, sq, su, squares, sums);
    lemma_sqrt_same(su, le, sums, lengths);
    lemma_affine_same(ONE, POOL_EPSILON, le, sa, lengths, divisors);
    lemma_column_counts(b, d);
    assert(di.dims =~= seq![b, d]);
    assert(spread.dims =~= seq![b, d]);
    assert(is_widened(divisors, d, spread));
    lemma_widened_same(sa, divisors, d, di, spread);
    assert(ax.dims =~= seq![b, d]);
    lemma_div_same(w, di, qu, wide, spread, quotients);
    lemma_cast_same(ax.dtype, qu, array(out), quotients, expected);
}

proof fn lemma_normalized_steps(x: Array, out: Array) -> (r: (
    Array,
    Array,
    Array,
    Array,
    Array,
    Array,
    Array,
))
    requires
        is_normalized(x, out),
        x.dims.len() == 2,
    ensures
        ({
            let (wide, squares, sums, lengths, safe, divisor, quotient) = r;
            &&& cast_gives(x, wide_type(x.dtype), wide)
            &&& sqr_gives(wide, squares)
            &&& sum_keepdim_gives(squares, 1, sums)
            &&& sqrt_gives(sums, lengths)
            &&& is_lifted(lengths, safe)
            &&& is_widened(safe, x.dims[1], divisor)
            &&& div_gives(wide, divisor, quotient)
            &&& cast_gives(quotient, x.dtype, out)
            &&& wide.dims == x.dims
            &&& squares.dims == x.dims
            &&& sums.dims == x.dims.update(1, 1)
            &&& lengths.dims == sums.dims
            &&& safe.dims == sums.dims
            &&& quotient.dims == x.dims
            &&& out.dims == x.dims
        }),
{
    choose|
        wide: Array,
        squares: Array,
        sums: Array,
        lengths: Array,
        safe: Array,
        divisor: Array,
        quotient: Array,
    |
        {
            &&& #[trigger] cast_gives(x, wide_type(x.dtype), wide)
            &&& #[trigger] sqr_gives(wide, squares)
            &&& #[trigger] sum_keepdim_gives(squares, 1, sums)
            &&& #[trigger] sqrt_gives(sums, lengths)
            &&& #[trigger] is_lifted(lengths, safe)
            &&& #[trigger] is_widened(safe, x.dims[1], divisor)
            &&& #[trigger] div_gives(wide, divisor, quotient)
            &&& cast_gives(quotient, x.dtype, out)
            &&& wide.dims == x.dims
            &&& squares.dims == x.dims
            &&& sums.dims == x.dims.update(1, 1)
            &&& lengths.dims == sums.dims
            &&& safe.dims == sums.dims
            &&& quotient.dims == x.dims
            &&& out.dims == x.dims
        }
}

/// Every row is divided by its own length: rows that two inputs share come out the same.
pub proof fn law_rows_are_normalized_one_by_one(
    x: Tensor,
    y: Tensor,
    out: Tensor,
    other: Tensor,
    of_x: Seq<nat>,
    of_y: Seq<nat>,
)
    requires
        works_slice_by_slice(),
        tensor_dims(x).len() == 2,
        tensor_dims(x)[1] > 0,
        tensor_dims(x)[0] * tensor_dims(x)[1] <= usize::MAX,
        tensor_dims(y)[0] * tensor_dims(x)[1] <= usize::MAX,
        shares(array(x), array(y), of_x, of_y, 0),
        normalizing_gave(x, out),
        normalizing_gave(y, other),
    ensures
        shares(array(out), array(other), of_x, of_y, 0),
{
    lemma_normalized_shares(
        array(x),
        array(out),
        array(y),
        array(other),
        of_x,
        of_y,
    );
}

/// The weights that a mask gives to rows.
pub open spec fn weighing_gave(
    mask: Tensor,
    kind: DType,
    batch: usize,
    tokens: usize,
    rows: usize,
    out: Tensor,
) -> bool {
    call_ensures(
        weigh_rows,
        (&mask, kind, batch, tokens, rows),
        Ok::<Tensor, ModelError>(out),
    )
}

/// The weighted mean of rows.
pub open spec fn weighted_mean_gave(x: Tensor, weights: Tensor, out: Tensor) -> bool {
    call_ensures(weighted_mean, (&x, &weights), Ok::<Tensor, ModelError>(out))
}

proof fn lemma_weighted(
    mask: Array,
    kind: DType,
    batch: nat,
    tokens: nat,
    rows: nat,
    weights: Array,
) -> (r: (Array, Array))
    requires
        are_weights(mask, kind, batch, tokens, rows, weights),
    ensures
        cast_gives(mask, kind, r.0),
        r.0.dims == mask.dims,
        is_view(r.0, r.1),
        r.1.dims == seq![batch, tokens],
        is_weighted(r.1, tokens, rows, weights),
{
    choose|numbers: Array, entries: Array|
        {
            &&& #[trigger] cast_gives(mask, kind, numbers)
            &&& #[trigger] is_view(numbers, entries)
            &&& numbers.dims == mask.dims
            &&& entries.dims == seq![batch, tokens]
            &&& is_weighted(entries, tokens, rows, weights)
        }
}

/// The weights of the same mask are the same.
proof fn lemma_weights_same(
    mask: Array,
    kind: DType,
    batch: nat,
    tokens: nat,
    rows: nat,
    weights: Array,
    mask2: Array,
    weights2: Array,
)
    requires
        works_slice_by_slice(),
        are_weights(mask, kind, batch, tokens, rows, weights),
        are_weights(mask2, kind, batch, tokens, rows, weights2),
        same(mask, mask2),
        mask.dims == seq![batch * tokens],
        batch * tokens <= usize::MAX,
        batch * rows <= usize::MAX,
        rows > 0,
    ensures
        same(weights, weights2),
        weights.dims == seq![batch, rows],
{
    let (numbers, entries) = lemma_weighted(mask, kind, batch, tokens, rows, weights);
    let (numbers2, entries2) = lemma_weighted(mask2, kind, batch, tokens, rows, weights2);
    lemma_cast_same(kind, mask, numbers, mask2, numbers2);
    lemma_count_one(batch * tokens);
    lemma_count_two(entries.dims);
    lemma_view_same(numbers, entries, numbers2, entries2);
    if tokens != rows {
        let kept = choose|kept: Array|
            {
                &&& #[trigger] sum_keepdim_gives(entries, 1, kept)
                &&& kept.dims == entries.dims.update(1, 1)
                &&& is_widened(kept, rows, weights)
            };
        let kept2 = choose|kept: Array|
            {
                &&& #[trigger] sum_keepdim_gives(entries2, 1, kept)
                &&& kept.dims == entries2.dims.update(1, 1)
                &&& is_widened(kept, rows, weights2)
            };
        assert(kept.dims =~= seq![batch, 1nat]);
        lemma_sum_keepdim_same(1, entries, kept, entries2, kept2);
        lemma_column_counts(batch, rows);
        assert(weights.dims =~= seq![batch, rows]);
        lemma_widened_same(kept, kept2, rows, weights, weights2);
    }
}

/// The steps of a weighted mean.
pub struct Averaging {
    pub wide: Array,
    pub spread: Array,
    pub product: Array,
    pub sum: Array,
    pub kept: Array,
    pub safe: Array,
    pub divisor: Array,
    pub mean: Array,
}

/// These are the steps from the rows and their weights to the mean.
pub open spec fn is_averaging(x: Array, weights: Array, out: Array, a: Averaging) -> bool {
    &&& cast_gives(x, wide_type(x.dtype), a.wide)
    &&& is_widened(unsqueezed(weights, 2), x.dims[2], a.spread)
    &&& mul_gives(a.wide, a.spread, a.product)
    &&& sum_gives(a.product, 1, a.sum)
    &&& sum_keepdim_gives(weights, 1, a.kept)
    &&& is_lifted(a.kept, a.safe)
    &&& is_widened(a.safe, x.dims[2], a.divisor)
    &&& div_gives(a.sum, a.divisor, a.mean)
    &&& cast_gives(a.mean, x.dtype, out)
    &&& a.wide.dims == x.dims
    &&& a.product.dims == x.dims
    &&& a.sum.dims == x.dims.remove(1)
    &&& a.kept.dims == weights.dims.update(1, 1)
    &&& a.safe.dims == a.kept.dims
    &&& a.mean.dims == a.sum.dims
    &&& out.dims == a.sum.dims
}

proof fn lemma_averaging(x: Array, weights: Array, out: Array) -> (a: Averaging)
    requires
        is_weighted_mean(x, weights, out),
    ensures
        is_averaging(x, weights, out, a),
{
    let (wide, spread, product, sum, kept, safe, divisor, mean) = choose|
        wide: Array,
        spread: Array,
        product: Array,
        sum: Array,
        kept: Array,
        safe: Array,
        divisor: Array,
        mean: Array,
    |
        {
            &&& #[trigger] cast_gives(x, wide_type(x.dtype), wide)
            &&& #[trigger] is_widened(unsqueezed(weights, 2), x.dims[2], spread)
            &&& #[trigger] mul_gives(wide, spread, product)
            &&& #[trigger] sum_gives(product, 1, sum)
            &&& #[trigger] sum_keepdim_gives(weights, 1, kept)
            &&& #[trigger] is_lifted(kept, safe)
            &&& #[trigger] is_widened(safe, x.dims[2], divisor)
            &&& #[trigger] div_gives(sum, divisor, mean)
            &&& cast_gives(mean, x.dtype, out)
            &&& wide.dims == x.dims
            &&& product.dims == x.dims
            &&& sum.dims == x.dims.remove(1)
            &&& kept.dims == weights.dims.update(1, 1)
            &&& safe.dims == kept.dims
            &&& mean.dims == sum.dims
            &&& out.dims == sum.dims
        };
    Averaging { wide, spread, product, sum, kept, safe, divisor, mean }
}

proof fn lemma_unsqueezed_same(a: Array, b: Array)
    requires
        same(a, b),
        a.dims.len() == 2,
    ensures
        same(unsqueezed(a, 2), unsqueezed(b, 2)),
        unsqueezed(a, 2).dims == seq![a.dims[0], a.dims[1], 1nat],
{
    let (x, y) = (unsqueezed(a, 2), unsqueezed(b, 2));
    assert(x.dims =~= seq![a.dims[0], a.dims[1], 1nat]);
    assert forall|i: Seq<nat>| #[trigger] in_bounds(i, x.dims) implies x.cells[i]
        == y.cells[i] by {
        assert(i[0] < x.dims[0] && i[1] < x.dims[1]);
        let j = i.remove(2);
        assert(in_bounds(j, a.dims));
    }
}

proof fn lemma_mean_dims(dims: Seq<nat>)
    requires
        dims.len() == 3,
        dims[1] > 0,
        dims[2] > 0,
        dims[0] * dims[1] * dims[2] <= usize::MAX,
    ensures
        countable(seq![dims[0], dims[1], 1nat]),
        countable(dims),
        countable(seq![dims[0], 1nat]),
        countable(seq![dims[0], dims[2]]),
        dims.remove(1) == seq![dims[0], dims[2]],
        dims[0] * dims[2] <= usize::MAX,
        dims[0] * dims[1] <= usize::MAX,
{
    let (b, l, d) = (dims[0], dims[1], dims[2]);
    lemma_count_three(dims);
    lemma_count_three(seq![b, l, 1nat]);
    assert(b * l * 1 <= b * l * d && b * d <= b * l * d) by (nonlinear_arith)
        requires
            l > 0,
            d > 0,
    ;
    lemma_column_counts(b, d);
    assert(dims.remove(1) =~= seq![b, d]);
}

/// What follows the products in a weighted mean is the same for the same products and weights.
proof fn lemma_averages_same(
    x: Array,
    weights: Array,
    out: Array,
    a: Averaging,
    y: Array,
    weights2: Array,
    out2: Array,
    b: Averaging,
)
    requires
        works_slice_by_slice(),
        sum_is_local(),
        is_averaging(x, weights, out, a),
        is_averaging(y, weights2, out2, b),
        x.dims.len() == 3,
        y.dims == x.dims,
        y.dtype == x.dtype,
        x.dims[1] > 0,
        x.dims[2] > 0,
        x.dims[0] * x.dims[1] * x.dims[2] <= usize::MAX,
        weights.dims == seq![x.dims[0], x.dims[1]],
        same(weights, weights2),
        same(a.product, b.product),
    ensures
        same(out, out2),
{
    let (n, d) = (x.dims[0], x.dims[2]);
    lemma_mean_dims(x.dims);
    lemma_sum_same(1, a.product, a.sum, b.product, b.sum);
    assert(a.kept.dims =~= seq![n, 1nat]);
    lemma_sum_keepdim_same(1, weights, a.kept, weights2, b.kept);
    lemma_affine_same(ONE, POOL_EPSILON, a.kept, a.safe, b.kept, b.safe);
    assert(a.divisor.dims =~= seq![n, d]);
    lemma_widened_same(a.safe, b.safe, d, a.divisor, b.divisor);
    lemma_div_same(a.sum, a.divisor, a.mean, b.sum, b.divisor, b.mean);
    lemma_cast_same(x.dtype, a.mean, out, b.mean, out2);
}

/// The weighted mean of the same rows with the same weights is the same.
proof fn lemma_weighted_mean_same(
    x: Array,
    weights: Array,
    out: Array,
    y: Array,
    weights2: Array,
    out2: Array,
)
    requires
        works_slice_by_slice(),
        sum_is_local(),
        is_weighted_mean(x, weights, out),
        is_weighted_mean(y, weights2, out2),
        same(x, y),
        same(weights, weights2),
        x.dims.len() == 3,
        x.dims[1] > 0,
        x.dims[2] > 0,
        x.dims[0] * x.dims[1] * x.dims[2] <= usize::MAX,
        weights.dims == seq![x.dims[0], x.dims[1]],
    ensures
        same(out, out2),
{
    let a = lemma_averaging(x, weights, out);
    let b = lemma_averaging(y, weights2, out2);
    let d = x.dims[2];
    lemma_mean_dims(x.dims);
    lemma_cast_same(wide_type(x.dtype), x, a.wide, y, b.wide);
    lemma_unsqueezed_same(weights, weights2);
    let (c, c2) = (unsqueezed(weights, 2), unsqueezed(weights2, 2));
    assert(a.spread.dims =~= x.dims);
    lemma_widened_same(c, c2, d, a.spread, b.spread);
    lemma_mul_same(a.wide, a.spread, a.product, b.wide, b.spread, b.product);
    lemma_averages_same(x, weights, out, a, y, weights2, out2, b);
}

/// Rows whose weight is zero do not matter: two sequences that agree on all other rows have the
/// same weighted mean.
pub proof fn law_rows_without_weight_do_not_matter(
    x: Tensor,
    y: Tensor,
    weights: Tensor,
    kept: Seq<nat>,
    out: Tensor,
    other: Tensor,
)
    requires
        works_slice_by_slice(),
        sum_is_local(),
        zero_absorbs(),
        tensor_dims(x).len() == 3,
        tensor_dims(x)[0] == 1,
        tensor_dims(x)[1] > 0,
        tensor_dims(x)[2] > 0,
        tensor_dims(x)[0] * tensor_dims(x)[1] * tensor_dims(x)[2] <= usize::MAX,
        tensor_dims(y) == tensor_dims(x),
        tensor_dims(weights) == seq![tensor_dims(x)[0], tensor_dims(x)[1]],
        shares(array(x), array(y), kept, kept, 1),
        forall|l: nat|
            l < tensor_dims(x)[1] && #[trigger] entry(array(weights), 0, l) != 0 ==> kept.contains(
                l,
            ),
        weighted_mean_gave(x, weights, out),
        weighted_mean_gave(y, weights, other),
    ensures
        array(out) == array(other),
{
    let (ax, ay, w) = (array(x), array(y), array(weights));
    let a = lemma_averaging(ax, w, array(out));
    let b = lemma_averaging(ay, w, array(other));
    let d = ax.dims[2];
    lemma_mean_dims(ax.dims);
    lemma_shared_shape(ax, ay, kept, kept, 1);
    lemma_cast_shares(wide_type(ax.dtype), ax, a.wide, ay, b.wide, kept, kept, 1);
    lemma_shared_shape(a.wide, b.wide, kept, kept, 1);
    assert(same(w, w));
    lemma_unsqueezed_same(w, w);
    let c = unsqueezed(w, 2);
    assert(a.spread.dims =~= ax.dims);
    lemma_widened_same(c, c, d, a.spread, b.spread);
    assert forall|i: Seq<nat>| #[trigger]
        in_bounds(i, a.wide.dims) && a.spread.cells[i] != 0 implies a.wide.cells[i]
        == b.wide.cells[i] by {
        assert(i[0] < a.wide.dims[0] && i[1] < a.wide.dims[1] && i[2] < a.wide.dims[2]);
        assert(in_bounds(i, a.spread.dims));
        let j = i.update(2, 0nat);
        assert(in_bounds(j, c.dims));
        assert(j.remove(2) =~= seq![0nat, i[1]]);
        assert(entry(w, 0, i[1]) != 0);
        let k = kept.index_of(i[1]);
        assert(kept[k] == i[1]);
        let at = i.update(1, k as nat);
        assert(in_bounds(at, a.wide.dims.update(1, kept.len())));
        lemma_shared_cell(a.wide, b.wide, kept, kept, 1, at);
        assert(at.update(1, kept[at[1] as int]) =~= i);
    }
    assert(agree_where_weighed(a.wide, b.wide, a.spread));
    assert(same(a.product, b.product));
    lemma_averages_same(ax, w, array(out), a, ay, w, array(other), b);
    lemma_same_tensors(out, other);
}

/// An entry of a matrix.
pub open spec fn entry(a: Array, i: nat, j: nat) -> u64 {
    a.cells[seq![i, j]]
}

/// A mask with as many entries per sequence as there are rows gives the weights entry by entry;
/// any other mask gives every row of a sequence the sum of the entries of that sequence.
pub proof fn law_masks_weigh_rows(
    mask: Tensor,
    kind: DType,
    batch: usize,
    tokens: usize,
    rows: usize,
    numbers: Tensor,
    table: Array,
    sums: Array,
    weights: Tensor,
)
    requires
        works_slice_by_slice(),
        tokens > 0,
        rows > 0,
        tensor_dims(mask) == seq![(batch * tokens) as nat],
        batch * tokens <= usize::MAX,
        batch * rows <= usize::MAX,
        call_ensures(
            Tensor::to_dtype,
            (&mask, kind),
            Ok::<Tensor, candle_core::Error>(numbers),
        ),
        table.dims == seq![batch as nat, tokens as nat],
        table.dtype == tensor_dtype(numbers),
        forall|b: nat, i: nat|
            b < batch && i < tokens ==> #[trigger] entry(table, b, i) == array(
                numbers,
            ).cells[seq![(b * tokens + i) as nat]],
        sum_keepdim_gives(table, 1, sums),
        sums.dims == seq![batch as nat, 1nat],
        weighing_gave(mask, kind, batch, tokens, rows, weights),
    ensures
        tensor_dims(weights) == seq![batch as nat, rows as nat],
        tokens == rows ==> forall|b: nat, i: nat|
            b < batch && i < tokens ==> #[trigger] entry(array(weights), b, i)
                == array(numbers).cells[seq![(b * tokens + i) as nat]],
        tokens != rows ==> forall|b: nat, i: nat|
            b < batch && i < rows ==> #[trigger] entry(array(weights), b, i) == entry(sums, b, 0),
{
    let (m, w) = (array(mask), array(weights));
    let (bn, tn, rn) = (batch as nat, tokens as nat, rows as nat);
    let (inner, entries) = lemma_weighted(m, kind, bn, tn, rn, w);
    assert(same(m, m));
    lemma_weights_same(m, kind, bn, tn, rn, w, m, w);
    lemma_cast_same(kind, m, inner, m, array(numbers));
    lemma_count_one((batch * tokens) as nat);
    lemma_count_two(entries.dims);
    assert forall|b: nat, i: nat| b < batch && i < tokens implies #[trigger] entry(entries, b, i)
        == array(numbers).cells[seq![(b * tokens + i) as nat]] by {
        let (p, q) = (seq![(b * tokens + i) as nat], seq![b, i]);
        assert(b * tokens + i < batch * tokens) by (nonlinear_arith)
            requires
                b + 1 <= batch,
                i < tokens,
        ;
        assert(in_bounds(p, inner.dims));
        assert(in_bounds(q, entries.dims));
        lemma_position_one((b * tokens + i) as nat, inner.dims);
        lemma_position_append(seq![b], seq![i], seq![bn], seq![tn]);
        assert(seq![b] + seq![i] =~= q);
        assert(seq![bn] + seq![tn] =~= entries.dims);
        lemma_position_one(b, seq![bn]);
        lemma_position_one(i, seq![tn]);
        lemma_count_one(tn);
        assert(is_reshape(inner, entries));
        assert(entries.cells[q] == inner.cells[p]);
    }
    if tokens != rows {
        let kept = choose|kept: Array|
            {
                &&& #[trigger] sum_keepdim_gives(entries, 1, kept)
                &&& kept.dims == entries.dims.update(1, 1)
                &&& is_widened(kept, rn, w)
            };
        assert(kept.dims =~= seq![bn, 1nat]);
        lemma_column_counts(bn, rn);
        assert forall|i: Seq<nat>| #[trigger] in_bounds(i, entries.dims) implies entries.cells[i]
            == table.cells[i] by {
            assert(i[0] < entries.dims[0] && i[1] < entries.dims[1]);
            assert(i =~= seq![i[0], i[1]]);
            assert(entry(table, i[0], i[1]) == entry(entries, i[0], i[1]));
        }
        assert(same(entries, table));
        lemma_sum_keepdim_same(1, entries, kept, table, sums);
        assert forall|b: nat, i: nat| b < batch && i < rows implies #[trigger] entry(w, b, i)
            == entry(sums, b, 0) by {
            let (p, q) = (seq![b, i], seq![b, 0nat]);
            assert(in_bounds(p, w.dims) && in_bounds(q, kept.dims));
            assert(p.update(1, 0nat) =~= q);
        }
    }
}

/// The weighted mean is the sum of the rows times their weights, divided by the sum of the weights
/// plus a billionth, all of it in the wider of single precision and the type of the rows.
pub proof fn law_weighted_sums_are_divided_by_the_weights(
    x: Tensor,
    weights: Tensor,
    wide: Array,
    factors: Array,
    products: Array,
    sums: Array,
    totals: Array,
    divisors: Array,
    quotients: Array,
    expected: Array,
    out: Tensor,
)
    requires
        works_slice_by_slice(),
        sum_is_local(),
        tensor_dims(x).len() == 3,
        tensor_dims(x)[1] > 0,
        tensor_dims(x)[2] > 0,
        tensor_dims(x)[0] * tensor_dims(x)[1] * tensor_dims(x)[2] <= usize::MAX,
        tensor_dims(weights) == seq![tensor_dims(x)[0], tensor_dims(x)[1]],
        cast_gives(
            array(x),
            if tensor_dtype(x) is F64 {
                DType::F64
            } else {
                DType::F32
            },
            wide,
        ),
        wide.dims == tensor_dims(x),
        factors.dims == tensor_dims(x),
        factors.dtype == tensor_dtype(weights),
        forall|b: nat, l: nat, d: nat|
            b < factors.dims[0] && l < factors.dims[1] && d < factors.dims[2] ==> #[trigger] cell(
                factors,
                b,
                l,
                d,
            ) == array(weights).cells[seq![b, l]],
        mul_gives(wide, factors, products),
        products.dims == wide.dims,
        sum_gives(products, 1, sums),
        sums.dims == seq![tensor_dims(x)[0], tensor_dims(x)[2]],
        sum_keepdim_gives(array(weights), 1, totals),
        totals.dims == seq![tensor_dims(x)[0], 1nat],
        affine_gives(totals, 0x3ff0_0000_0000_0000, 0x3e11_2e0b_e826_d695, divisors),
        divisors.dims == totals.dims,
        div_gives(sums, widened(divisors, tensor_dims(x)[2]), quotients),
        quotients.dims == sums.dims,
        cast_gives(quotients, tensor_dtype(x), expected),
        expected.dims == sums.dims,
        weighted_mean_gave(x, weights, out),
    ensures
        same(array(out), expected),
{
    let (ax, w) = (array(x), array(weights));
    let a = lemma_averaging(ax, w, array(out));
    let (n, d) = (ax.dims[0], ax.dims[2]);
    lemma_mean_dims(ax.dims);
    assert(same(ax, ax) && same(w, w));
    lemma_cast_same(wide_type(ax.dtype), ax, a.wide, ax, wide);
    lemma_unsqueezed_same(w, w);
    let c = unsqueezed(w, 2);
    assert(a.spread.dims =~= ax.dims);
    assert forall|i: Seq<nat>| #[trigger] in_bounds(i, a.spread.dims) implies a.spread.cells[i]
        == factors.cells[i] by {
        assert(i[0] < a.spread.dims[0] && i[1] < a.spread.dims[1] && i[2] < a.spread.dims[2]);
        assert(i =~= seq![i[0], i[1], i[2]]);
        let j = i.update(2, 0nat);
        assert(in_bounds(j, c.dims));
        assert(j.remove(2) =~= seq![i[0], i[1]]);
        assert(cell(factors, i[0], i[1], i[2]) == w.cells[seq![i[0], i[1]]]);
    }
    assert(same(a.spread, factors));
    lemma_mul_same(a.wide, a.spread, a.product, wide, factors, products);
    lemma_sum_same(1, a.product, a.sum, products, sums);
    assert(a.kept.dims =~= seq![n, 1nat]);
    lemma_sum_keepdim_same(1, w, a.kept, w, totals);
    lemma_affine_same(ONE, POOL_EPSILON, a.kept, a.safe, totals, divisors);
    let spread = widened(divisors, d);
    assert(a.divisor.dims =~= seq![n, d]);
    assert(spread.dims =~= seq![n, d]);
    assert(is_widened(divisors, d, spread));
    lemma_widened_same(a.safe, divisors, d, a.divisor, spread);
    lemma_div_same(a.sum, a.divisor, a.mean, sums, spread, quotients);
    lemma_cast_same(ax.dtype, a.mean, array(out), quotients, expected);
}

/// The model, called to pool what was gathered, gave `out`.
pub open spec fn pooling_gave(
    model: LatentAttentionModel,
    gathered: Tensor,
    mask: Option<Tensor>,
    batch: usize,
    tokens: usize,
    out: Tensor,
) -> bool {
    call_ensures(
        LatentAttentionModel::pool,
        (
            &model,
            &gathered,
            match mask {
                Some(m) => Some(&m),
                None => None,
            },
            batch,
            tokens,
        ),
        Ok::<Tensor, ModelError>(out),
    )
}

/// What was gathered has rows, a width, and no more cells than a machine word can count.
pub open spec fn is_poolable(g: Array, mask: Option<Array>, batch: nat, tokens: nat) -> bool {
    &&& g.dims.len() == 3
    &&& g.dims[0] == batch
    &&& g.dims[1] > 0
    &&& g.dims[2] > 0
    &&& g.dims[0] * g.dims[1] * g.dims[2] <= usize::MAX
    &&& mask matches Some(m) ==> m.dims == seq![batch * tokens] && batch * tokens <= usize::MAX
}

/// The mean of the same under the same mask is the same.
pub(crate) proof fn lemma_is_mean_same(
    g: Array,
    mask: Option<Array>,
    batch: nat,
    tokens: nat,
    out: Array,
    g2: Array,
    mask2: Option<Array>,
    out2: Array,
)
    requires
        works_slice_by_slice(),
        sum_is_local(),
        is_poolable(g, mask, batch, tokens),
        is_mean(g, mask, batch, tokens, out),
        is_mean(g2, mask2, batch, tokens, out2),
        same(g, g2),
        mask is Some <==> mask2 is Some,
        mask matches Some(m) ==> same(m, mask2->Some_0),
        out.dims == seq![g.dims[0], g.dims[2]],
        out2.dims == out.dims,
    ensures
        same(out, out2),
{
    lemma_mean_dims(g.dims);
    match mask {
        Some(m) => {
            let m2 = mask2->Some_0;
            let (kind, rows) = (wide_type(g.dtype), g.dims[1]);
            let w = choose|w: Array| #[trigger]
                are_weights(m, kind, batch, tokens, rows, w) && is_weighted_mean(g, w, out);
            let w2 = choose|w: Array| #[trigger]
                are_weights(m2, kind, batch, tokens, rows, w) && is_weighted_mean(g2, w, out2);
            lemma_weights_same(m, kind, batch, tokens, rows, w, m2, w2);
            lemma_weighted_mean_same(g, w, out, g2, w2, out2);
        },
        None => {
            lemma_mean_same(1, g, out, g2, out2);
        },
    }
}

/// What a model pools of the same under the same mask is the same.
pub(crate) proof fn lemma_pools_same(
    model: LatentAttentionModel,
    g: Array,
    mask: Option<Array>,
    batch: nat,
    tokens: nat,
    out: Array,
    g2: Array,
    mask2: Option<Array>,
    out2: Array,
)
    requires
        works_slice_by_slice(),
        sum_is_local(),
        is_poolable(g, mask, batch, tokens),
        model.pools(g, mask, batch, tokens, out),
        model.pools(g2, mask2, batch, tokens, out2),
        same(g, g2),
        mask is Some <==> mask2 is Some,
        mask matches Some(m) ==> same(m, mask2->Some_0),
    ensures
        same(out, out2),
{
    lemma_mean_dims(g.dims);
    if model.output_normalize {
        let mean = choose|mean: Array|
            {
                &&& #[trigger] is_mean(g, mask, batch, tokens, mean)
                &&& mean.dims == seq![g.dims[0], g.dims[2]]
                &&& is_normalized(mean, out)
            };
        let mean2 = choose|mean: Array|
            {
                &&& #[trigger] is_mean(g2, mask2, batch, tokens, mean)
                &&& mean.dims == seq![g2.dims[0], g2.dims[2]]
                &&& is_normalized(mean, out2)
            };
        lemma_is_mean_same(g, mask, batch, tokens, mean, g2, mask2, mean2);
        lemma_normalized_same(mean, out, mean2, out2);
    } else {
        lemma_is_mean_same(g, mask, batch, tokens, out, g2, mask2, out2);
    }
}

/// The value of an optional tensor.
pub open spec fn mask_of(mask: Option<Tensor>) -> Option<Array> {
    match mask {
        Some(m) => Some(array(m)),
        None => None,
    }
}

/// Without a mask and without being brought to length one, what is pooled is the mean of the rows.
pub proof fn law_pooling_without_a_mask_is_the_mean(
    model: LatentAttentionModel,
    gathered: Tensor,
    batch: usize,
    tokens: usize,
    out: Tensor,
)
    requires
        !model.output_normalize,
        pooling_gave(model, gathered, None, batch, tokens, out),
    ensures
        mean_gives(array(gathered), 1, array(out)),
{
}

/// With a mask, and without being brought to length one, what is pooled is the mean of the rows
/// with the weights that the mask gives them, taken in the wider of single precision and the type
/// of the rows.
pub proof fn law_pooling_with_a_mask_is_the_weighted_mean(
    model: LatentAttentionModel,
    gathered: Tensor,
    mask: Tensor,
    kind: DType,
    batch: usize,
    tokens: usize,
    rows: usize,
    weights: Tensor,
    expected: Tensor,
    out: Tensor,
)
    requires
        works_slice_by_slice(),
        sum_is_local(),
        !model.output_normalize,
        is_poolable(array(gathered), Some(array(mask)), batch as nat, tokens as nat),
        rows == tensor_dims(gathered)[1],
        kind == (if tensor_dtype(gathered) is F64 {
            DType::F64
        } else {
            DType::F32
        }),
        weighing_gave(mask, kind, batch, tokens, rows, weights),
        weighted_mean_gave(gathered, weights, expected),
        pooling_gave(model, gathered, Some(mask), batch, tokens, out),
    ensures
        array(out) == array(expected),
{
    let (g, m) = (array(gathered), array(mask));
    let (b, t) = (batch as nat, tokens as nat);
    lemma_mean_dims(g.dims);
    let w = choose|w: Array| #[trigger]
        are_weights(m, wide_type(g.dtype), b, t, g.dims[1], w) && is_weighted_mean(
            g,
            w,
            array(out),
        );
    assert(same(m, m) && same(g, g));
    lemma_weights_same(m, kind, b, t, g.dims[1], w, m, array(weights));
    lemma_weighted_mean_same(g, w, array(out), g, array(weights), array(expected));
    lemma_same_tensors(out, expected);
}

/// A model that brings its vectors to length one divides what the same model pools without that by
/// the lengths of the rows.
pub proof fn law_normalized_pooling_is_pooling_then_normalizing(
    model: LatentAttentionModel,
    plain: LatentAttentionModel,
    gathered: Tensor,
    mask: Option<Tensor>,
    batch: usize,
    tokens: usize,
    mean: Tensor,
    expected: Tensor,
    out: Tensor,
)
    requires
        works_slice_by_slice(),
        sum_is_local(),
        model.output_normalize,
        !plain.output_normalize,
        is_poolable(array(gathered), mask_of(mask), batch as nat, tokens as nat),
        pooling_gave(plain, gathered, mask, batch, tokens, mean),
        normalizing_gave(mean, expected),
        pooling_gave(model, gathered, mask, batch, tokens, out),
    ensures
        array(out) == array(expected),
{
    let (g, m) = (array(gathered), mask_of(mask));
    let (b, t) = (batch as nat, tokens as nat);
    lemma_mean_dims(g.dims);
    let inner = choose|inner: Array|
        {
            &&& #[trigger] is_mean(g, m, b, t, inner)
            &&& inner.dims == seq![g.dims[0], g.dims[2]]
            &&& is_normalized(inner, array(out))
        };
    assert(same(g, g));
    match m {
        Some(a) => {
            assert(same(a, a));
        },
        None => {},
    }
    lemma_is_mean_same(g, m, b, t, inner, g, m, array(mean));
    lemma_normalized_same(inner, array(out), array(mean), array(expected));
    lemma_same_tensors(out, expected);
}

/// The latent attention, called on these states and this mask, gave `out`.
pub open spec fn latents_gave(
    model: LatentAttentionModel,
    states: Tensor,
    mask: Option<Tensor>,
    out: Tensor,
) -> bool {
    call_ensures(
        LatentAttentionModel::forward,
        (
            &model,
            &states,
            match mask {
                Some(m) => Some(&m),
                None => None,
            },
        ),
        Ok::<Tensor, ModelError>(out),
    )
}

/// What the latent attention gathers of the same states is the same.
pub(crate) proof fn lemma_gathers_same(
    model: LatentAttentionModel,
    states: Array,
    out: Array,
    other: Array,
    out2: Array,
)
    requires
        works_slice_by_slice(),
        is_taken(model, states),
        model.gathers(states, out),
        model.gathers(other, out2),
        same(states, other),
    ensures
        same(out, out2),
        out.dims == seq![
            states.dims[0],
            tensor_dims(model.latents)[0],
            tensor_dims(model.latents)[1],
        ],
{
    let all = run(0, states.dims[0]);
    assert(in_range(all, states.dims[0]));
    lemma_same_shares(states, other, 0);
    assert(is_taken(model, other));
    let g = lemma_gathering(model, states, out);
    let g2 = lemma_gathering(model, other, out2);
    lemma_copies_share(model, states, g.x, other, g2.x, all, all);
    lemma_layer_norm_run_shares(
        model.cross_attend_norm.norm,
        g.x,
        g.normed,
        g2.x,
        g2.normed,
        all,
        all,
        0,
    );
    lemma_contexts_share(
        model,
        states,
        out,
        g,
        other,
        out2,
        g2,
        all,
        all,
        0,
    );
    law_items_attend_by_themselves(
        model.cross_attention,
        g.normed,
        g.context,
        g.cross,
        g2.normed,
        g2.context,
        g2.cross,
        all,
        all,
    );
    lemma_rest_shares(model, states, out, g, other, out2, g2, all, all);
    lemma_shares_same(out, out2, 0);
}

/// What the latent attention gives for the same states under the same mask is the same.
pub(crate) proof fn lemma_embeds_same(
    model: LatentAttentionModel,
    states: Array,
    mask: Option<Array>,
    out: Array,
    other: Array,
    mask2: Option<Array>,
    out2: Array,
)
    requires
        works_slice_by_slice(),
        sum_is_local(),
        is_taken(model, states),
        model.embeds(states, mask, out),
        model.embeds(other, mask2, out2),
        same(states, other),
        mask is Some <==> mask2 is Some,
        mask matches Some(m) ==> same(m, mask2->Some_0),
        mask matches Some(m) ==> m.dims == seq![states.dims[0] * states.dims[1]] && states.dims[0]
            * states.dims[1] <= usize::MAX,
    ensures
        same(out, out2),
{
    let (b, t) = (states.dims[0], states.dims[1]);
    lemma_gathered_dims(model, states);
    let g = choose|g: Array|
        {
            &&& #[trigger] model.gathers(states, g)
            &&& g.dims == model.gathered_dims(b)
            &&& model.pools(g, mask, b, t, out)
        };
    let g2 = choose|g: Array|
        {
            &&& #[trigger] model.gathers(other, g)
            &&& g.dims == model.gathered_dims(other.dims[0])
            &&& model.pools(g, mask2, other.dims[0], other.dims[1], out2)
        };
    lemma_gathers_same(model, states, g, other, g2);
    lemma_pools_same(model, g, mask, b, t, out, g2, mask2, out2);
}

/// The latent attention pools what it gathers, under the mask, for as many sequences and tokens as
/// the states have.
pub proof fn law_latent_attention_pools_what_it_gathers(
    model: LatentAttentionModel,
    states: Tensor,
    mask: Option<Tensor>,
    batch: usize,
    tokens: usize,
    gathered: Tensor,
    expected: Tensor,
    out: Tensor,
)
    requires
        works_slice_by_slice(),
        sum_is_local(),
        is_taken(model, array(states)),
        batch == tensor_dims(states)[0],
        tokens == tensor_dims(states)[1],
        is_poolable(array(gathered), mask_of(mask), batch as nat, tokens as nat),
        gathering_gave(model, states, gathered),
        pooling_gave(model, gathered, mask, batch, tokens, expected),
        latents_gave(model, states, mask, out),
    ensures
        array(out) == array(expected),
{
    let (s, m) = (array(states), mask_of(mask));
    let (b, t) = (batch as nat, tokens as nat);
    let g = choose|g: Array|
        {
            &&& #[trigger] model.gathers(s, g)
            &&& g.dims == model.gathered_dims(b)
            &&& model.pools(g, m, b, t, array(out))
        };
    assert(same(s, s));
    lemma_gathers_same(model, s, array(gathered), s, g);
    match m {
        Some(a) => {
            assert(same(a, a));
        },
        None => {},
    }
    lemma_pools_same(model, array(gathered), m, b, t, array(expected), g, m, array(out));
    lemma_same_tensors(out, expected);
}

} // verus!
