//! What operations keep when no digit is lost.
//!
//! A floating-point operation rounds, and how it rounds may depend on the shape it is given: a row
//! of a product need not come out bit for bit as it would alone, and a sum may depend on the order
//! of its terms. The laws of the layers that hold up to rounding are therefore stated of operations
//! that do not round. Each predicate here says of one operation of candle what it keeps in that
//! case, and a law asks for what it needs.
use crate::array::{in_bounds, narrowed, zeroed, Array};
use crate::ops::{
    affine_gives, layer_norm_gives, linear_gives, mean_gives, rms_norm_gives, softmax_gives,
    sum_gives, sum_keepdim_gives,
};
use crate::rows::{
    in_range, is_arrangement, lemma_shared_cell, lemma_shared_shape, lemma_shares, run, shares,
};
use crate::tensor::{
    add_gives, array, cast_gives, div_gives, gelu_gives, matmul_gives, mul_gives, relu_gives,
    silu_gives, sqr_gives, sqrt_gives,
};
use candle_core::{DType, Tensor};
use vstd::prelude::*;

verus! {

/// Two arrays have the same shape, element type and cells.
pub open spec fn same(a: Array, b: Array) -> bool {
    &&& a.dims == b.dims
    &&& a.dtype == b.dtype
    &&& forall|i: Seq<nat>| #[trigger] in_bounds(i, a.dims) ==> a.cells[i] == b.cells[i]
}

/// A linear map works row by row.
pub open spec fn linear_is_local() -> bool {
    forall|
        w: Array,
        x: Array,
        o: Array,
        y: Array,
        p: Array,
        of_x: Seq<nat>,
        of_y: Seq<nat>,
        dim: int,
    |
        {
            &&& #[trigger] linear_gives(w, x, o)
            &&& #[trigger] linear_gives(w, y, p)
            &&& #[trigger] shares(x, y, of_x, of_y, dim)
            &&& dim < x.dims.len() - 1
        } ==> shares(o, p, of_x, of_y, dim)
}

/// A norm by the mean square works row by row.
pub open spec fn rms_norm_is_local() -> bool {
    forall|
        w: Array,
        eps: u64,
        x: Array,
        o: Array,
        y: Array,
        p: Array,
        of_x: Seq<nat>,
        of_y: Seq<nat>,
        dim: int,
    |
        {
            &&& #[trigger] rms_norm_gives(w, eps, x, o)
            &&& #[trigger] rms_norm_gives(w, eps, y, p)
            &&& #[trigger] shares(x, y, of_x, of_y, dim)
            &&& dim < x.dims.len() - 1
        } ==> shares(o, p, of_x, of_y, dim)
}

/// A norm by mean and variance works row by row.
pub open spec fn layer_norm_is_local() -> bool {
    forall|
        w: Array,
        bias: Array,
        eps: u64,
        x: Array,
        o: Array,
        y: Array,
        p: Array,
        of_x: Seq<nat>,
        of_y: Seq<nat>,
        dim: int,
    |
        {
            &&& #[trigger] layer_norm_gives(w, bias, eps, x, o)
            &&& #[trigger] layer_norm_gives(w, bias, eps, y, p)
            &&& #[trigger] shares(x, y, of_x, of_y, dim)
            &&& dim < x.dims.len() - 1
        } ==> shares(o, p, of_x, of_y, dim)
}

/// The gaussian error linear unit works cell by cell.
pub open spec fn gelu_is_local() -> bool {
    forall|
        x: Array,
        o: Array,
        y: Array,
        p: Array,
        of_x: Seq<nat>,
        of_y: Seq<nat>,
        dim: int,
    |
        {
            &&& #[trigger] gelu_gives(x, o)
            &&& #[trigger] gelu_gives(y, p)
            &&& #[trigger] shares(x, y, of_x, of_y, dim)
        } ==> shares(o, p, of_x, of_y, dim)
}

/// The positive part works cell by cell.
pub open spec fn relu_is_local() -> bool {
    forall|
        x: Array,
        o: Array,
        y: Array,
        p: Array,
        of_x: Seq<nat>,
        of_y: Seq<nat>,
        dim: int,
    |
        {
            &&& #[trigger] relu_gives(x, o)
            &&& #[trigger] relu_gives(y, p)
            &&& #[trigger] shares(x, y, of_x, of_y, dim)
        } ==> shares(o, p, of_x, of_y, dim)
}

/// The sigmoid linear unit works cell by cell.
pub open spec fn silu_is_local() -> bool {
    forall|
        x: Array,
        o: Array,
        y: Array,
        p: Array,
        of_x: Seq<nat>,
        of_y: Seq<nat>,
        dim: int,
    |
        {
            &&& #[trigger] silu_gives(x, o)
            &&& #[trigger] silu_gives(y, p)
            &&& #[trigger] shares(x, y, of_x, of_y, dim)
        } ==> shares(o, p, of_x, of_y, dim)
}

/// The square works cell by cell.
pub open spec fn sqr_is_local() -> bool {
    forall|
        x: Array,
        o: Array,
        y: Array,
        p: Array,
        of_x: Seq<nat>,
        of_y: Seq<nat>,
        dim: int,
    |
        {
            &&& #[trigger] sqr_gives(x, o)
            &&& #[trigger] sqr_gives(y, p)
            &&& #[trigger] shares(x, y, of_x, of_y, dim)
        } ==> shares(o, p, of_x, of_y, dim)
}

/// The square root works cell by cell.
pub open spec fn sqrt_is_local() -> bool {
    forall|
        x: Array,
        o: Array,
        y: Array,
        p: Array,
        of_x: Seq<nat>,
        of_y: Seq<nat>,
        dim: int,
    |
        {
            &&& #[trigger] sqrt_gives(x, o)
            &&& #[trigger] sqrt_gives(y, p)
            &&& #[trigger] shares(x, y, of_x, of_y, dim)
        } ==> shares(o, p, of_x, of_y, dim)
}

/// A conversion works cell by cell.
pub open spec fn cast_is_local() -> bool {
    forall|
        d: DType,
        x: Array,
        o: Array,
        y: Array,
        p: Array,
        of_x: Seq<nat>,
        of_y: Seq<nat>,
        dim: int,
    |
        {
            &&& #[trigger] cast_gives(x, d, o)
            &&& #[trigger] cast_gives(y, d, p)
            &&& #[trigger] shares(x, y, of_x, of_y, dim)
        } ==> shares(o, p, of_x, of_y, dim)
}

/// A product with a number plus a number works cell by cell.
pub open spec fn affine_is_local() -> bool {
    forall|
        scale: u64,
        offset: u64,
        x: Array,
        o: Array,
        y: Array,
        p: Array,
        of_x: Seq<nat>,
        of_y: Seq<nat>,
        dim: int,
    |
        {
            &&& #[trigger] affine_gives(x, scale, offset, o)
            &&& #[trigger] affine_gives(y, scale, offset, p)
            &&& #[trigger] shares(x, y, of_x, of_y, dim)
        } ==> shares(o, p, of_x, of_y, dim)
}

/// Softmax works line by line.
pub open spec fn softmax_is_local() -> bool {
    forall|
        along: nat,
        x: Array,
        o: Array,
        y: Array,
        p: Array,
        of_x: Seq<nat>,
        of_y: Seq<nat>,
        dim: int,
    |
        {
            &&& #[trigger] softmax_gives(x, along, o)
            &&& #[trigger] softmax_gives(y, along, p)
            &&& #[trigger] shares(x, y, of_x, of_y, dim)
            &&& dim != along
        } ==> shares(o, p, of_x, of_y, dim)
}

/// A sum works line by line.
pub open spec fn sum_keepdim_is_local() -> bool {
    forall|
        along: nat,
        x: Array,
        o: Array,
        y: Array,
        p: Array,
        of_x: Seq<nat>,
        of_y: Seq<nat>,
        dim: int,
    |
        {
            &&& #[trigger] sum_keepdim_gives(x, along, o)
            &&& #[trigger] sum_keepdim_gives(y, along, p)
            &&& #[trigger] shares(x, y, of_x, of_y, dim)
            &&& dim != along
        } ==> shares(o, p, of_x, of_y, dim)
}

/// A mean works line by line, before the dimension that disappears.
pub open spec fn mean_is_local() -> bool {
    forall|
        along: nat,
        x: Array,
        o: Array,
        y: Array,
        p: Array,
        of_x: Seq<nat>,
        of_y: Seq<nat>,
        dim: int,
    |
        {
            &&& #[trigger] mean_gives(x, along, o)
            &&& #[trigger] mean_gives(y, along, p)
            &&& #[trigger] shares(x, y, of_x, of_y, dim)
            &&& dim < along
        } ==> shares(o, p, of_x, of_y, dim)
}

/// Sums of two arrays are taken cell by cell.
pub open spec fn add_is_local() -> bool {
    forall|
        x: Array,
        x2: Array,
        o: Array,
        y: Array,
        y2: Array,
        p: Array,
        of_x: Seq<nat>,
        of_y: Seq<nat>,
        dim: int,
    |
        {
            &&& #[trigger] add_gives(x, x2, o)
            &&& #[trigger] add_gives(y, y2, p)
            &&& #[trigger] shares(x, y, of_x, of_y, dim)
            &&& shares(x2, y2, of_x, of_y, dim)
        } ==> shares(o, p, of_x, of_y, dim)
}

/// Products of two arrays are taken cell by cell.
pub open spec fn mul_is_local() -> bool {
    forall|
        x: Array,
        x2: Array,
        o: Array,
        y: Array,
        y2: Array,
        p: Array,
        of_x: Seq<nat>,
        of_y: Seq<nat>,
        dim: int,
    |
        {
            &&& #[trigger] mul_gives(x, x2, o)
            &&& #[trigger] mul_gives(y, y2, p)
            &&& #[trigger] shares(x, y, of_x, of_y, dim)
            &&& shares(x2, y2, of_x, of_y, dim)
        } ==> shares(o, p, of_x, of_y, dim)
}

/// Quotients of two arrays are taken cell by cell.
pub open spec fn div_is_local() -> bool {
    forall|
        x: Array,
        x2: Array,
        o: Array,
        y: Array,
        y2: Array,
        p: Array,
        of_x: Seq<nat>,
        of_y: Seq<nat>,
        dim: int,
    |
        {
            &&& #[trigger] div_gives(x, x2, o)
            &&& #[trigger] div_gives(y, y2, p)
            &&& #[trigger] shares(x, y, of_x, of_y, dim)
            &&& shares(x2, y2, of_x, of_y, dim)
        } ==> shares(o, p, of_x, of_y, dim)
}

/// A stack of matrix products is taken matrix by matrix; rows of a product belong to rows of the
/// first factor, and columns to columns of the second one.
pub open spec fn matmul_is_local() -> bool {
    forall|
        x: Array,
        x2: Array,
        o: Array,
        y: Array,
        y2: Array,
        p: Array,
        of_x: Seq<nat>,
        of_y: Seq<nat>,
        dim: int,
    |
        {
            &&& #[trigger] matmul_gives(x, x2, o)
            &&& #[trigger] matmul_gives(y, y2, p)
            &&& #[trigger] is_product_slice(x, x2, y, y2, of_x, of_y, dim)
        } ==> shares(o, p, of_x, of_y, dim)
}

/// The slices of two matrix products come from the same slices of the factors.
pub open spec fn is_product_slice(
    x: Array,
    x2: Array,
    y: Array,
    y2: Array,
    of_x: Seq<nat>,
    of_y: Seq<nat>,
    dim: int,
) -> bool {
    if dim < x.dims.len() - 2 {
        shares(x, y, of_x, of_y, dim) && shares(x2, y2, of_x, of_y, dim)
    } else if dim == x.dims.len() - 2 {
        shares(x, y, of_x, of_y, dim) && same(x2, y2)
    } else {
        same(x, y) && shares(x2, y2, of_x, of_y, dim)
    }
}

/// Softmax gives every entry of a line its weight, wherever in the line it is.
pub open spec fn softmax_ignores_order() -> bool {
    forall|
        x: Array,
        o: Array,
        y: Array,
        p: Array,
        of_x: Seq<nat>,
        of_y: Seq<nat>,
        along: nat,
    |
        {
            &&& #[trigger] softmax_gives(x, along, o)
            &&& #[trigger] softmax_gives(y, along, p)
            &&& #[trigger] shares(x, y, of_x, of_y, along as int)
            &&& is_arrangement(of_x, 0, x.dims[along as int])
            &&& is_arrangement(of_y, 0, y.dims[along as int])
        } ==> shares(o, p, of_x, of_y, along as int)
}

/// A matrix product adds up the same terms in whatever order they come.
pub open spec fn matmul_ignores_order() -> bool {
    forall|
        x: Array,
        x2: Array,
        o: Array,
        y: Array,
        y2: Array,
        p: Array,
        of_x: Seq<nat>,
        of_y: Seq<nat>,
    |
        {
            &&& #[trigger] matmul_gives(x, x2, o)
            &&& #[trigger] matmul_gives(y, y2, p)
            &&& #[trigger] are_same_terms(x, x2, y, y2, of_x, of_y)
            &&& o.dims == p.dims
        } ==> same(o, p)
}

/// Two matrix products have the same terms, in the orders of the two lists.
pub open spec fn are_same_terms(
    x: Array,
    x2: Array,
    y: Array,
    y2: Array,
    of_x: Seq<nat>,
    of_y: Seq<nat>,
) -> bool {
    let last = x.dims.len() - 1;
    &&& last >= 1
    &&& shares(x, y, of_x, of_y, last)
    &&& shares(x2, y2, of_x, of_y, last - 1)
    &&& is_arrangement(of_x, 0, x.dims[last])
    &&& is_arrangement(of_y, 0, y.dims[last])
}

/// The weights of softmax add up to one: weighed by them, rows that are all the same give that row.
pub open spec fn softmax_weights_add_up_to_one() -> bool {
    forall|s: Array, w: Array, v: Array, o: Array, i: nat, j: nat|
        {
            &&& #[trigger] softmax_gives(s, 3, w)
            &&& #[trigger] matmul_gives(w, v, o)
            &&& are_equal_rows(v)
            &&& i < w.dims[2]
            &&& j < v.dims[2]
        } ==> #[trigger] is_row_of(o, i, v, j)
}

/// Rows `i` of the matrices of one stack are rows `j` of those of another.
pub open spec fn is_row_of(o: Array, i: nat, v: Array, j: nat) -> bool {
    shares(o, v, seq![i], seq![j], 2)
}

/// In every matrix of a stack of stacks, all rows are the same.
pub open spec fn are_equal_rows(v: Array) -> bool {
    &&& v.dims.len() == 4
    &&& forall|i: nat, j: nat|
        i < v.dims[2] && j < v.dims[2] ==> #[trigger] shares(v, v, seq![i], seq![j], 2)
}

/// The slices of `a` along its first dimension that the list names are zero.
pub open spec fn are_zero_rows(a: Array, rows: Seq<nat>) -> bool {
    shares(a, zeroed(a), rows, rows, 0)
}

/// Rows of zeros stay rows of zeros.
#[verifier::opaque]
pub open spec fn zero_stays_zero() -> bool {
    &&& forall|w: Array, x: Array, o: Array, rows: Seq<nat>| #[trigger]
        linear_gives(w, x, o) && #[trigger] are_zero_rows(x, rows) && x.dims.len() >= 2
            ==> are_zero_rows(o, rows)
    &&& forall|x: Array, o: Array, rows: Seq<nat>| #[trigger]
        gelu_gives(x, o) && #[trigger] are_zero_rows(x, rows) ==> are_zero_rows(o, rows)
    &&& forall|x: Array, o: Array, rows: Seq<nat>| #[trigger]
        relu_gives(x, o) && #[trigger] are_zero_rows(x, rows) ==> are_zero_rows(o, rows)
    &&& forall|x: Array, o: Array, rows: Seq<nat>| #[trigger]
        silu_gives(x, o) && #[trigger] are_zero_rows(x, rows) ==> are_zero_rows(o, rows)
    &&& forall|x: Array, y: Array, o: Array, rows: Seq<nat>| #[trigger]
        mul_gives(x, y, o) && #[trigger] are_zero_rows(x, rows) ==> are_zero_rows(o, rows)
    &&& forall|x: Array, y: Array, o: Array, rows: Seq<nat>| #[trigger]
        mul_gives(x, y, o) && #[trigger] are_zero_rows(y, rows) ==> are_zero_rows(o, rows)
}

/// A product with a sum is the sum of the products.
pub open spec fn products_distribute() -> bool {
    forall|
        a: Array,
        b: Array,
        s: Array,
        g: Array,
        g2: Array,
        g3: Array,
        p: Array,
        q: Array,
        r: Array,
    |
        {
            &&& #[trigger] add_gives(a, b, s)
            &&& #[trigger] mul_gives(a, g, p)
            &&& #[trigger] mul_gives(b, g2, q)
            &&& #[trigger] mul_gives(s, g3, r)
            &&& same(g, g2)
            &&& same(g, g3)
        } ==> add_gives(p, q, r)
}

/// A product with a sum as its second factor is the sum of the products.
pub open spec fn products_distribute_to_the_right() -> bool {
    forall|
        g: Array,
        g2: Array,
        g3: Array,
        a: Array,
        b: Array,
        s: Array,
        p: Array,
        q: Array,
        r: Array,
    |
        {
            &&& #[trigger] add_gives(a, b, s)
            &&& #[trigger] mul_gives(g, a, p)
            &&& #[trigger] mul_gives(g2, b, q)
            &&& #[trigger] mul_gives(g3, s, r)
            &&& same(g, g2)
            &&& same(g, g3)
        } ==> add_gives(p, q, r)
}

/// A linear map takes sums to sums.
pub open spec fn linear_maps_add_up() -> bool {
    forall|
        w: Array,
        w2: Array,
        w3: Array,
        x: Array,
        y: Array,
        s: Array,
        o: Array,
        p: Array,
        r: Array,
    |
        {
            &&& #[trigger] add_gives(x, y, s)
            &&& #[trigger] linear_gives(w, x, o)
            &&& #[trigger] linear_gives(w2, y, p)
            &&& #[trigger] linear_gives(w3, s, r)
            &&& same(w, w2)
            &&& same(w, w3)
        } ==> add_gives(o, p, r)
}

/// Linear maps whose weights add up give outcomes that add up.
pub open spec fn weights_add_up() -> bool {
    forall|
        w: Array,
        v: Array,
        u: Array,
        x: Array,
        x2: Array,
        x3: Array,
        o: Array,
        p: Array,
        r: Array,
    |
        {
            &&& #[trigger] add_gives(w, v, u)
            &&& #[trigger] linear_gives(w, x, o)
            &&& #[trigger] linear_gives(v, x2, p)
            &&& #[trigger] linear_gives(u, x3, r)
            &&& same(x, x2)
            &&& same(x, x3)
        } ==> add_gives(o, p, r)
}

/// Some rows of the weight of a linear map give some features of its outcome.
pub open spec fn linear_works_feature_by_feature() -> bool {
    forall|w: Array, x: Array, o: Array, start: nat, len: nat|
        {
            &&& #[trigger] linear_gives(w, x, o)
            &&& w.dims.len() == 2
            &&& start + len <= w.dims[0]
            &&& o.dims == x.dims.drop_last().push(w.dims[0])
        } ==> linear_gives(
            #[trigger] narrowed(w, 0, start, len),
            x,
            narrowed(o, o.dims.len() - 1, start, len),
        )
}

/// A sum works line by line, before the dimension that disappears.
pub open spec fn sum_is_local() -> bool {
    forall|
        along: nat,
        x: Array,
        o: Array,
        y: Array,
        p: Array,
        of_x: Seq<nat>,
        of_y: Seq<nat>,
        dim: int,
    |
        {
            &&& #[trigger] sum_gives(x, along, o)
            &&& #[trigger] sum_gives(y, along, p)
            &&& #[trigger] shares(x, y, of_x, of_y, dim)
            &&& dim < along
        } ==> shares(o, p, of_x, of_y, dim)
}

/// What is multiplied by zero does not matter.
pub open spec fn zero_absorbs() -> bool {
    forall|x: Array, y: Array, w: Array, v: Array, p: Array, q: Array|
        {
            &&& #[trigger] mul_gives(x, w, p)
            &&& #[trigger] mul_gives(y, v, q)
            &&& same(w, v)
            &&& x.dims == y.dims
            &&& x.dtype == y.dtype
            &&& p.dims == q.dims
            &&& agree_where_weighed(x, y, w)
        } ==> same(p, q)
}

/// Two arrays have the same cells wherever the weight is not zero.
pub open spec fn agree_where_weighed(x: Array, y: Array, w: Array) -> bool {
    forall|i: Seq<nat>| #[trigger]
        in_bounds(i, x.dims) && w.cells[i] != 0 ==> x.cells[i] == y.cells[i]
}

/// Every operation gives for a slice what it would give for it alone.
#[verifier::opaque]
pub open spec fn works_slice_by_slice() -> bool {
    &&& linear_is_local()
    &&& rms_norm_is_local()
    &&& layer_norm_is_local()
    &&& gelu_is_local()
    &&& relu_is_local()
    &&& silu_is_local()
    &&& sqr_is_local()
    &&& sqrt_is_local()
    &&& cast_is_local()
    &&& affine_is_local()
    &&& softmax_is_local()
    &&& sum_keepdim_is_local()
    &&& mean_is_local()
    &&& add_is_local()
    &&& mul_is_local()
    &&& div_is_local()
    &&& matmul_is_local()
}

/// Slices that two inputs share give slices that the outcomes share.
pub proof fn lemma_linear_shares(
    w: Array,
    x: Array,
    o: Array,
    y: Array,
    p: Array,
    of_x: Seq<nat>,
    of_y: Seq<nat>,
    dim: int,
)
    requires
        works_slice_by_slice(),
        linear_gives(w, x, o),
        linear_gives(w, y, p),
        shares(x, y, of_x, of_y, dim),
        dim < x.dims.len() - 1,
    ensures
        shares(o, p, of_x, of_y, dim),
{
    reveal(works_slice_by_slice);
}

/// Slices that two inputs share give slices that the outcomes share.
pub proof fn lemma_rms_norm_shares(
    w: Array,
    eps: u64,
    x: Array,
    o: Array,
    y: Array,
    p: Array,
    of_x: Seq<nat>,
    of_y: Seq<nat>,
    dim: int,
)
    requires
        works_slice_by_slice(),
        rms_norm_gives(w, eps, x, o),
        rms_norm_gives(w, eps, y, p),
        shares(x, y, of_x, of_y, dim),
        dim < x.dims.len() - 1,
    ensures
        shares(o, p, of_x, of_y, dim),
{
    reveal(works_slice_by_slice);
}

/// Slices that two inputs share give slices that the outcomes share.
pub proof fn lemma_layer_norm_shares(
    w: Array,
    bias: Array,
    eps: u64,
    x: Array,
    o: Array,
    y: Array,
    p: Array,
    of_x: Seq<nat>,
    of_y: Seq<nat>,
    dim: int,
)
    requires
        works_slice_by_slice(),
        layer_norm_gives(w, bias, eps, x, o),
        layer_norm_gives(w, bias, eps, y, p),
        shares(x, y, of_x, of_y, dim),
        dim < x.dims.len() - 1,
    ensures
        shares(o, p, of_x, of_y, dim),
{
    reveal(works_slice_by_slice);
}

/// Slices that two inputs share give slices that the outcomes share.
pub proof fn lemma_gelu_shares(
    x: Array,
    o: Array,
    y: Array,
    p: Array,
    of_x: Seq<nat>,
    of_y: Seq<nat>,
    dim: int,
)
    requires
        works_slice_by_slice(),
        gelu_gives(x, o),
        gelu_gives(y, p),
        shares(x, y, of_x, of_y, dim),
    ensures
        shares(o, p, of_x, of_y, dim),
{
    reveal(works_slice_by_slice);
}

/// Slices that two inputs share give slices that the outcomes share.
pub proof fn lemma_relu_shares(
    x: Array,
    o: Array,
    y: Array,
    p: Array,
    of_x: Seq<nat>,
    of_y: Seq<nat>,
    dim: int,
)
    requires
        works_slice_by_slice(),
        relu_gives(x, o),
        relu_gives(y, p),
        shares(x, y, of_x, of_y, dim),
    ensures
        shares(o, p, of_x, of_y, dim),
{
    reveal(works_slice_by_slice);
}

/// Slices that two inputs share give slices that the outcomes share.
pub proof fn lemma_silu_shares(
    x: Array,
    o: Array,
    y: Array,
    p: Array,
    of_x: Seq<nat>,
    of_y: Seq<nat>,
    dim: int,
)
    requires
        works_slice_by_slice(),
        silu_gives(x, o),
        silu_gives(y, p),
        shares(x, y, of_x, of_y, dim),
    ensures
        shares(o, p, of_x, of_y, dim),
{
    reveal(works_slice_by_slice);
}

/// Slices that two inputs share give slices that the outcomes share.
pub proof fn lemma_sqr_shares(
    x: Array,
    o: Array,
    y: Array,
    p: Array,
    of_x: Seq<nat>,
    of_y: Seq<nat>,
    dim: int,
)
    requires
        works_slice_by_slice(),
        sqr_gives(x, o),
        sqr_gives(y, p),
        shares(x, y, of_x, of_y, dim),
    ensures
        shares(o, p, of_x, of_y, dim),
{
    reveal(works_slice_by_slice);
}

/// Slices that two inputs share give slices that the outcomes share.
pub proof fn lemma_sqrt_shares(
    x: Array,
    o: Array,
    y: Array,
    p: Array,
    of_x: Seq<nat>,
    of_y: Seq<nat>,
    dim: int,
)
    requires
        works_slice_by_slice(),
        sqrt_gives(x, o),
        sqrt_gives(y, p),
        shares(x, y, of_x, of_y, dim),
    ensures
        shares(o, p, of_x, of_y, dim),
{
    reveal(works_slice_by_slice);
}

/// Slices that two inputs share give slices that the outcomes share.
pub proof fn lemma_cast_shares(
    d: DType,
    x: Array,
    o: Array,
    y: Array,
    p: Array,
    of_x: Seq<nat>,
    of_y: Seq<nat>,
    dim: int,
)
    requires
        works_slice_by_slice(),
        cast_gives(x, d, o),
        cast_gives(y, d, p),
        shares(x, y, of_x, of_y, dim),
    ensures
        shares(o, p, of_x, of_y, dim),
{
    reveal(works_slice_by_slice);
}

/// Slices that two inputs share give slices that the outcomes share.
pub proof fn lemma_affine_shares(
    scale: u64,
    offset: u64,
    x: Array,
    o: Array,
    y: Array,
    p: Array,
    of_x: Seq<nat>,
    of_y: Seq<nat>,
    dim: int,
)
    requires
        works_slice_by_slice(),
        affine_gives(x, scale, offset, o),
        affine_gives(y, scale, offset, p),
        shares(x, y, of_x, of_y, dim),
    ensures
        shares(o, p, of_x, of_y, dim),
{
    reveal(works_slice_by_slice);
}

/// Slices that two inputs share give slices that the outcomes share.
pub proof fn lemma_softmax_shares(
    along: nat,
    x: Array,
    o: Array,
    y: Array,
    p: Array,
    of_x: Seq<nat>,
    of_y: Seq<nat>,
    dim: int,
)
    requires
        works_slice_by_slice(),
        softmax_gives(x, along, o),
        softmax_gives(y, along, p),
        shares(x, y, of_x, of_y, dim),
        dim != along,
    ensures
        shares(o, p, of_x, of_y, dim),
{
    reveal(works_slice_by_slice);
}

/// Slices that two inputs share give slices that the outcomes share.
pub proof fn lemma_sum_keepdim_shares(
    along: nat,
    x: Array,
    o: Array,
    y: Array,
    p: Array,
    of_x: Seq<nat>,
    of_y: Seq<nat>,
    dim: int,
)
    requires
        works_slice_by_slice(),
        sum_keepdim_gives(x, along, o),
        sum_keepdim_gives(y, along, p),
        shares(x, y, of_x, of_y, dim),
        dim != along,
    ensures
        shares(o, p, of_x, of_y, dim),
{
    reveal(works_slice_by_slice);
}

/// Slices that two inputs share give slices that the outcomes share.
pub proof fn lemma_mean_shares(
    along: nat,
    x: Array,
    o: Array,
    y: Array,
    p: Array,
    of_x: Seq<nat>,
    of_y: Seq<nat>,
    dim: int,
)
    requires
        works_slice_by_slice(),
        mean_gives(x, along, o),
        mean_gives(y, along, p),
        shares(x, y, of_x, of_y, dim),
        dim < along,
    ensures
        shares(o, p, of_x, of_y, dim),
{
    reveal(works_slice_by_slice);
}

/// Slices that two inputs share give slices that the outcomes share.
pub proof fn lemma_add_shares(
    x: Array,
    x2: Array,
    o: Array,
    y: Array,
    y2: Array,
    p: Array,
    of_x: Seq<nat>,
    of_y: Seq<nat>,
    dim: int,
)
    requires
        works_slice_by_slice(),
        add_gives(x, x2, o),
        add_gives(y, y2, p),
        shares(x, y, of_x, of_y, dim),
        shares(x2, y2, of_x, of_y, dim),
    ensures
        shares(o, p, of_x, of_y, dim),
{
    reveal(works_slice_by_slice);
}

/// Slices that two inputs share give slices that the outcomes share.
pub proof fn lemma_mul_shares(
    x: Array,
    x2: Array,
    o: Array,
    y: Array,
    y2: Array,
    p: Array,
    of_x: Seq<nat>,
    of_y: Seq<nat>,
    dim: int,
)
    requires
        works_slice_by_slice(),
        mul_gives(x, x2, o),
        mul_gives(y, y2, p),
        shares(x, y, of_x, of_y, dim),
        shares(x2, y2, of_x, of_y, dim),
    ensures
        shares(o, p, of_x, of_y, dim),
{
    reveal(works_slice_by_slice);
}

/// Slices that two inputs share give slices that the outcomes share.
pub proof fn lemma_div_shares(
    x: Array,
    x2: Array,
    o: Array,
    y: Array,
    y2: Array,
    p: Array,
    of_x: Seq<nat>,
    of_y: Seq<nat>,
    dim: int,
)
    requires
        works_slice_by_slice(),
        div_gives(x, x2, o),
        div_gives(y, y2, p),
        shares(x, y, of_x, of_y, dim),
        shares(x2, y2, of_x, of_y, dim),
    ensures
        shares(o, p, of_x, of_y, dim),
{
    reveal(works_slice_by_slice);
}

/// Slices that two inputs share give slices that the outcomes share.
pub proof fn lemma_matmul_shares(
    x: Array,
    x2: Array,
    o: Array,
    y: Array,
    y2: Array,
    p: Array,
    of_x: Seq<nat>,
    of_y: Seq<nat>,
    dim: int,
)
    requires
        works_slice_by_slice(),
        matmul_gives(x, x2, o),
        matmul_gives(y, y2, p),
        is_product_slice(x, x2, y, y2, of_x, of_y, dim),
    ensures
        shares(o, p, of_x, of_y, dim),
{
    reveal(works_slice_by_slice);
}

/// Arrays that are the same share all of their slices.
pub proof fn lemma_same_shares(a: Array, b: Array, dim: int)
    requires
        same(a, b),
        0 <= dim < a.dims.len(),
    ensures
        shares(a, b, run(0, a.dims[dim]), run(0, a.dims[dim]), dim),
{
    let all = run(0, a.dims[dim]);
    assert(in_range(all, a.dims[dim]));
    assert forall|i: Seq<nat>| #[trigger] in_bounds(i, a.dims.update(dim, all.len())) implies
        a.cells[i.update(dim, all[i[dim] as int])] == b.cells[i.update(
        dim,
        all[i[dim] as int],
    )] by {
        assert(i[dim] < a.dims.update(dim, all.len())[dim]);
        assert(i.update(dim, all[i[dim] as int]) =~= i);
        assert(a.dims.update(dim, all.len()) =~= a.dims);
    }
    lemma_shares(a, b, all, all, dim);
}

/// Arrays of one shape that share all of their slices are the same.
pub proof fn lemma_shares_same(a: Array, b: Array, dim: int)
    requires
        0 <= dim < a.dims.len(),
        a.dims == b.dims,
        shares(a, b, run(0, a.dims[dim]), run(0, a.dims[dim]), dim),
    ensures
        same(a, b),
{
    let all = run(0, a.dims[dim]);
    lemma_shared_shape(a, b, all, all, dim);
    assert forall|i: Seq<nat>| #[trigger] in_bounds(i, a.dims) implies a.cells[i]
        == b.cells[i] by {
        assert(i[dim] < a.dims[dim]);
        assert(a.dims.update(dim, all.len()) =~= a.dims);
        lemma_shared_cell(a, b, all, all, dim, i);
        assert(i.update(dim, all[i[dim] as int]) =~= i);
    }
}

/// Tensors with the same cells are the same as values.
pub proof fn lemma_same_tensors(a: Tensor, b: Tensor)
    requires
        same(array(a), array(b)),
    ensures
        array(a) == array(b),
{
    let (x, y) = (array(a), array(b));
    assert forall|i: Seq<nat>| in_bounds(i, x.dims) implies x.cells[i] == y.cells[i] by {
        assert(in_bounds(i, x.dims));
    }
    assert(x.cells =~= y.cells);
}

/// One and the same linear map gives the same for the same rows.
pub proof fn lemma_linear_same(w: Array, x: Array, o: Array, y: Array, p: Array)
    requires
        works_slice_by_slice(),
        linear_gives(w, x, o),
        linear_gives(w, y, p),
        same(x, y),
        x.dims.len() >= 2,
        o.dims.len() > 0,
        o.dims[0] == x.dims[0],
        p.dims == o.dims,
    ensures
        same(o, p),
{
    let all = run(0, x.dims[0]);
    lemma_same_shares(x, y, 0);
    lemma_linear_shares(w, x, o, y, p, all, all, 0);
    lemma_shares_same(o, p, 0);
}

/// Sums of the same are the same.
pub proof fn lemma_add_same(x: Array, x2: Array, o: Array, y: Array, y2: Array, p: Array)
    requires
        works_slice_by_slice(),
        add_gives(x, x2, o),
        add_gives(y, y2, p),
        same(x, y),
        same(x2, y2),
        x.dims.len() > 0,
        x2.dims == x.dims,
        o.dims == x.dims,
        p.dims == x.dims,
    ensures
        same(o, p),
{
    let all = run(0, x.dims[0]);
    lemma_same_shares(x, y, 0);
    lemma_same_shares(x2, y2, 0);
    lemma_add_shares(x, x2, o, y, y2, p, all, all, 0);
    lemma_shares_same(o, p, 0);
}

/// Products of the same are the same.
pub proof fn lemma_mul_same(x: Array, x2: Array, o: Array, y: Array, y2: Array, p: Array)
    requires
        works_slice_by_slice(),
        mul_gives(x, x2, o),
        mul_gives(y, y2, p),
        same(x, y),
        same(x2, y2),
        x.dims.len() > 0,
        x2.dims == x.dims,
        o.dims == x.dims,
        p.dims == x.dims,
    ensures
        same(o, p),
{
    let all = run(0, x.dims[0]);
    lemma_same_shares(x, y, 0);
    lemma_same_shares(x2, y2, 0);
    lemma_mul_shares(x, x2, o, y, y2, p, all, all, 0);
    lemma_shares_same(o, p, 0);
}

/// The same input gives the same outcome.
pub proof fn lemma_gelu_same(
    x: Array,
    o: Array,
    y: Array,
    p: Array,
)
    requires
        works_slice_by_slice(),
        gelu_gives(x, o),
        gelu_gives(y, p),
        same(x, y),
        x.dims.len() > 0,
        o.dims.len() > 0,
        o.dims[0] == x.dims[0],
        p.dims == o.dims,
    ensures
        same(o, p),
{
    let all = run(0, x.dims[0]);
    lemma_same_shares(x, y, 0);
    lemma_gelu_shares(x, o, y, p, all, all, 0);
    lemma_shares_same(o, p, 0);
}

/// The same input gives the same outcome.
pub proof fn lemma_sqr_same(
    x: Array,
    o: Array,
    y: Array,
    p: Array,
)
    requires
        works_slice_by_slice(),
        sqr_gives(x, o),
        sqr_gives(y, p),
        same(x, y),
        x.dims.len() > 0,
        o.dims.len() > 0,
        o.dims[0] == x.dims[0],
        p.dims == o.dims,
    ensures
        same(o, p),
{
    let all = run(0, x.dims[0]);
    lemma_same_shares(x, y, 0);
    lemma_sqr_shares(x, o, y, p, all, all, 0);
    lemma_shares_same(o, p, 0);
}

/// The same input gives the same outcome.
pub proof fn lemma_sqrt_same(
    x: Array,
    o: Array,
    y: Array,
    p: Array,
)
    requires
        works_slice_by_slice(),
        sqrt_gives(x, o),
        sqrt_gives(y, p),
        same(x, y),
        x.dims.len() > 0,
        o.dims.len() > 0,
        o.dims[0] == x.dims[0],
        p.dims == o.dims,
    ensures
        same(o, p),
{
    let all = run(0, x.dims[0]);
    lemma_same_shares(x, y, 0);
    lemma_sqrt_shares(x, o, y, p, all, all, 0);
    lemma_shares_same(o, p, 0);
}

/// The same input gives the same outcome.
pub proof fn lemma_cast_same(
    d: DType,
    x: Array,
    o: Array,
    y: Array,
    p: Array,
)
    requires
        works_slice_by_slice(),
        cast_gives(x, d, o),
        cast_gives(y, d, p),
        same(x, y),
        x.dims.len() > 0,
        o.dims.len() > 0,
        o.dims[0] == x.dims[0],
        p.dims == o.dims,
    ensures
        same(o, p),
{
    let all = run(0, x.dims[0]);
    lemma_same_shares(x, y, 0);
    lemma_cast_shares(d, x, o, y, p, all, all, 0);
    lemma_shares_same(o, p, 0);
}

/// The same input gives the same outcome.
pub proof fn lemma_affine_same(
    scale: u64,
    offset: u64,
    x: Array,
    o: Array,
    y: Array,
    p: Array,
)
    requires
        works_slice_by_slice(),
        affine_gives(x, scale, offset, o),
        affine_gives(y, scale, offset, p),
        same(x, y),
        x.dims.len() > 0,
        o.dims.len() > 0,
        o.dims[0] == x.dims[0],
        p.dims == o.dims,
    ensures
        same(o, p),
{
    let all = run(0, x.dims[0]);
    lemma_same_shares(x, y, 0);
    lemma_affine_shares(scale, offset, x, o, y, p, all, all, 0);
    lemma_shares_same(o, p, 0);
}

/// The same input gives the same outcome.
pub proof fn lemma_softmax_same(
    along: nat,
    x: Array,
    o: Array,
    y: Array,
    p: Array,
)
    requires
        works_slice_by_slice(),
        softmax_gives(x, along, o),
        softmax_gives(y, along, p),
        same(x, y),
        x.dims.len() > 0 && along > 0,
        o.dims.len() > 0,
        o.dims[0] == x.dims[0],
        p.dims == o.dims,
    ensures
        same(o, p),
{
    let all = run(0, x.dims[0]);
    lemma_same_shares(x, y, 0);
    lemma_softmax_shares(along, x, o, y, p, all, all, 0);
    lemma_shares_same(o, p, 0);
}

/// The same input gives the same outcome.
pub proof fn lemma_sum_keepdim_same(
    along: nat,
    x: Array,
    o: Array,
    y: Array,
    p: Array,
)
    requires
        works_slice_by_slice(),
        sum_keepdim_gives(x, along, o),
        sum_keepdim_gives(y, along, p),
        same(x, y),
        x.dims.len() > 0 && along > 0,
        o.dims.len() > 0,
        o.dims[0] == x.dims[0],
        p.dims == o.dims,
    ensures
        same(o, p),
{
    let all = run(0, x.dims[0]);
    lemma_same_shares(x, y, 0);
    lemma_sum_keepdim_shares(along, x, o, y, p, all, all, 0);
    lemma_shares_same(o, p, 0);
}

/// The same input gives the same outcome.
pub proof fn lemma_mean_same(
    along: nat,
    x: Array,
    o: Array,
    y: Array,
    p: Array,
)
    requires
        works_slice_by_slice(),
        mean_gives(x, along, o),
        mean_gives(y, along, p),
        same(x, y),
        x.dims.len() > 0 && along > 0,
        o.dims.len() > 0,
        o.dims[0] == x.dims[0],
        p.dims == o.dims,
    ensures
        same(o, p),
{
    let all = run(0, x.dims[0]);
    lemma_same_shares(x, y, 0);
    lemma_mean_shares(along, x, o, y, p, all, all, 0);
    lemma_shares_same(o, p, 0);
}

/// The same input gives the same outcome.
pub proof fn lemma_layer_norm_same(
    w: Array,
    bias: Array,
    eps: u64,
    x: Array,
    o: Array,
    y: Array,
    p: Array,
)
    requires
        works_slice_by_slice(),
        layer_norm_gives(w, bias, eps, x, o),
        layer_norm_gives(w, bias, eps, y, p),
        same(x, y),
        x.dims.len() > 1,
        o.dims.len() > 0,
        o.dims[0] == x.dims[0],
        p.dims == o.dims,
    ensures
        same(o, p),
{
    let all = run(0, x.dims[0]);
    lemma_same_shares(x, y, 0);
    lemma_layer_norm_shares(w, bias, eps, x, o, y, p, all, all, 0);
    lemma_shares_same(o, p, 0);
}

/// Quotients of the same are the same.
pub proof fn lemma_div_same(x: Array, x2: Array, o: Array, y: Array, y2: Array, p: Array)
    requires
        works_slice_by_slice(),
        div_gives(x, x2, o),
        div_gives(y, y2, p),
        same(x, y),
        same(x2, y2),
        x.dims.len() > 0,
        x2.dims == x.dims,
        o.dims == x.dims,
        p.dims == x.dims,
    ensures
        same(o, p),
{
    let all = run(0, x.dims[0]);
    lemma_same_shares(x, y, 0);
    lemma_same_shares(x2, y2, 0);
    lemma_div_shares(x, x2, o, y, y2, p, all, all, 0);
    lemma_shares_same(o, p, 0);
}

/// Matrix products of the same are the same.
pub proof fn lemma_matmul_same(x: Array, x2: Array, o: Array, y: Array, y2: Array, p: Array)
    requires
        works_slice_by_slice(),
        matmul_gives(x, x2, o),
        matmul_gives(y, y2, p),
        same(x, y),
        same(x2, y2),
        x.dims.len() > 2,
        x2.dims.len() > 2,
        x2.dims[0] == x.dims[0],
        o.dims.len() > 0,
        o.dims[0] == x.dims[0],
        p.dims == o.dims,
    ensures
        same(o, p),
{
    let all = run(0, x.dims[0]);
    lemma_same_shares(x, y, 0);
    lemma_same_shares(x2, y2, 0);
    assert(is_product_slice(x, x2, y, y2, all, all, 0));
    lemma_matmul_shares(x, x2, o, y, y2, p, all, all, 0);
    lemma_shares_same(o, p, 0);
}

/// Sums of the same are the same.
pub proof fn lemma_sum_same(along: nat, x: Array, o: Array, y: Array, p: Array)
    requires
        sum_is_local(),
        sum_gives(x, along, o),
        sum_gives(y, along, p),
        same(x, y),
        along > 0,
        x.dims.len() > 0,
        o.dims.len() > 0,
        o.dims[0] == x.dims[0],
        p.dims == o.dims,
    ensures
        same(o, p),
{
    let all = run(0, x.dims[0]);
    lemma_same_shares(x, y, 0);
    assert(shares(o, p, all, all, 0));
    lemma_shares_same(o, p, 0);
}

} // verus!
