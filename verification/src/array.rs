//! The mathematical model of a tensor: a shape, an element type, and the bits of every cell.
//!
//! Rearrangements of cells (slicing, joining, transposing, repeating) are total functions on this
//! model. They say where each cell of the result comes from.
use candle_core::DType;
use vstd::prelude::*;

verus! {

/// A tensor as a value. `cells` holds, for every index inside the shape, the bits of that element
/// extended with zeros to 64 bits; for an unsigned integer these are the integer itself.
#[verifier::ext_equal]
pub struct Array {
    pub dims: Seq<nat>,
    pub dtype: DType,
    pub cells: Map<Seq<nat>, u64>,
}

/// Whether `i` is the index of a cell of a tensor of this shape.
pub open spec fn in_bounds(i: Seq<nat>, dims: Seq<nat>) -> bool {
    i.len() == dims.len() && forall|k: int| 0 <= k < dims.len() ==> i[k] < dims[k]
}

/// The array of this shape whose cell at `i` is `f(i)`.
pub open spec fn filled(dims: Seq<nat>, dtype: DType, f: spec_fn(Seq<nat>) -> u64) -> Array {
    Array { dims, dtype, cells: Map::new(|i: Seq<nat>| in_bounds(i, dims), f) }
}

/// Every index inside the shape has a cell, and no other index has one.
pub open spec fn well_formed(a: Array) -> bool {
    a.cells.dom() =~= Set::new(|i: Seq<nat>| in_bounds(i, a.dims))
}

/// The number of cells of a shape.
pub open spec fn count(dims: Seq<nat>) -> nat
    decreases dims.len(),
{
    if dims.len() == 0 {
        1
    } else {
        count(dims.drop_last()) * dims.last()
    }
}

/// The product of the sizes, where a size of zero counts as one. No part of the shape has a larger
/// product.
pub open spec fn span(dims: Seq<nat>) -> nat
    decreases dims.len(),
{
    if dims.len() == 0 {
        1
    } else if dims.last() == 0 {
        span(dims.drop_last())
    } else {
        span(dims.drop_last()) * dims.last()
    }
}

/// Whatever is multiplied of these sizes fits in a machine word.
pub open spec fn is_spanned(dims: Seq<nat>) -> bool {
    span(dims) <= usize::MAX
}

/// The number of cells can be held in a machine word.
pub open spec fn countable(dims: Seq<nat>) -> bool {
    count(dims) <= usize::MAX
}

/// The row-major position of a cell.
pub open spec fn position(i: Seq<nat>, dims: Seq<nat>) -> nat
    decreases dims.len(),
{
    if dims.len() == 0 || i.len() == 0 {
        0
    } else {
        position(i.drop_last(), dims.drop_last()) * dims.last() + i.last()
    }
}

/// The distances between neighbours along each dimension when the cells lie in row-major order.
pub open spec fn row_major(dims: Seq<nat>) -> Seq<nat> {
    Seq::new(dims.len(), |k: int| count(dims.subrange(k + 1, dims.len() as int)))
}

/// `b` holds the cells of `a` in the same row-major order, under another shape.
pub open spec fn is_reshape(a: Array, b: Array) -> bool {
    &&& b.dtype == a.dtype
    &&& count(b.dims) == count(a.dims)
    &&& forall|i: Seq<nat>, j: Seq<nat>|
        #![trigger a.cells[i], b.cells[j]]
        in_bounds(i, a.dims) && in_bounds(j, b.dims) && position(i, a.dims) == position(j, b.dims)
            ==> b.cells[j] == a.cells[i]
}

/// `b` is `a` under another shape. Where the number of cells does not fit in a machine word, only
/// the element type is known.
pub open spec fn is_view(a: Array, b: Array) -> bool {
    &&& b.dtype == a.dtype
    &&& countable(a.dims) && countable(b.dims) ==> is_reshape(a, b)
}

/// `b` is `a` with the last two dimensions made one.
pub open spec fn is_flattened(a: Array, b: Array) -> bool {
    let rank = a.dims.len() as int;
    &&& rank >= 2
    &&& b.dims.len() == rank - 1
    &&& b.dims.drop_last() == a.dims.take(rank - 2)
    &&& is_view(a, b)
    &&& a.dims[rank - 2] * a.dims[rank - 1] <= usize::MAX ==> b.dims.last() == a.dims[rank - 2]
        * a.dims[rank - 1]
}

/// The cells whose index along `dim` lies in `start..start + len`.
pub open spec fn narrowed(a: Array, dim: int, start: nat, len: nat) -> Array {
    filled(
        a.dims.update(dim, len),
        a.dtype,
        |i: Seq<nat>| a.cells[i.update(dim, i[dim] + start)],
    )
}

/// Zeros in the shape of `a`.
pub open spec fn zeroed(a: Array) -> Array {
    filled(a.dims, a.dtype, |i: Seq<nat>| 0u64)
}

/// `a` followed by `b` along `dim`.
pub open spec fn join(a: Array, b: Array, dim: int) -> Array {
    filled(
        a.dims.update(dim, a.dims[dim] + b.dims[dim]),
        a.dtype,
        |i: Seq<nat>|
            if i[dim] < a.dims[dim] {
                a.cells[i]
            } else {
                b.cells[i.update(dim, (i[dim] - a.dims[dim]) as nat)]
            },
    )
}

/// All parts, one after the other along `dim`.
pub open spec fn joined(parts: Seq<Array>, dim: int) -> Array
    recommends
        parts.len() > 0,
    decreases parts.len(),
{
    if parts.len() <= 1 {
        parts[0]
    } else {
        join(joined(parts.drop_last(), dim), parts.last(), dim)
    }
}

/// Two arrays that can stand next to each other along `dim`.
pub open spec fn joinable(a: Array, b: Array, dim: int) -> bool {
    &&& dim < a.dims.len()
    &&& b.dims.len() == a.dims.len()
    &&& b.dtype == a.dtype
    &&& forall|k: int| 0 <= k < a.dims.len() && k != dim ==> b.dims[k] == a.dims[k]
}

/// All parts can stand next to the first one.
pub open spec fn all_joinable(parts: Seq<Array>, dim: int) -> bool {
    forall|k: int| 0 <= k < parts.len() ==> joinable(parts[0], #[trigger] parts[k], dim)
}

/// `out` is made of the parts, one after the other along `dim`.
pub open spec fn is_joined(parts: Seq<Array>, dim: int, out: Array) -> bool {
    &&& out.dims == joined(parts, dim).dims
    &&& out.dtype == joined(parts, dim).dtype
    &&& countable(out.dims) ==> out == joined(parts, dim)
}

/// The dimensions in another order: dimension `k` of the result is dimension `order[k]` of `a`.
pub open spec fn permuted(a: Array, order: Seq<usize>) -> Array {
    filled(
        Seq::new(order.len(), |k: int| a.dims[order[k] as int]),
        a.dtype,
        |i: Seq<nat>| a.cells[Seq::new(order.len(), |d: int| i[order.index_of(d as usize)])],
    )
}

/// `order` names each of the dimensions `0..rank` once.
pub open spec fn is_order(order: Seq<usize>, rank: nat) -> bool {
    &&& order.len() == rank
    &&& forall|d: usize| d < rank ==> #[trigger] order.contains(d)
}

/// A sequence with two entries swapped.
pub open spec fn swapped(s: Seq<nat>, d1: int, d2: int) -> Seq<nat> {
    s.update(d1, s[d2]).update(d2, s[d1])
}

/// Two dimensions swapped.
pub open spec fn transposed(a: Array, d1: int, d2: int) -> Array {
    filled(swapped(a.dims, d1, d2), a.dtype, |i: Seq<nat>| a.cells[swapped(i, d1, d2)])
}

/// The products of the cells of two arrays of machine integers fit in their type.
pub open spec fn products_fit(a: Array, b: Array) -> bool {
    forall|i: Seq<nat>|
        in_bounds(i, a.dims) ==> #[trigger] a.cells[i] * b.cells[i] <= u32::MAX
}

/// The products of the cells of two arrays.
pub open spec fn multiplied(a: Array, b: Array) -> Array {
    filled(a.dims, a.dtype, |i: Seq<nat>| (a.cells[i] * b.cells[i]) as u64)
}

/// One more dimension, of size one, before dimension `dim`.
pub open spec fn unsqueezed(a: Array, dim: int) -> Array {
    filled(a.dims.insert(dim, 1), a.dtype, |i: Seq<nat>| a.cells[i.remove(dim)])
}

/// A last dimension of size one, laid out again and again.
pub open spec fn widened(a: Array, width: nat) -> Array {
    let last = a.dims.len() - 1;
    filled(
        a.dims.update(last, width),
        a.dtype,
        |i: Seq<nat>| a.cells[i.update(last, 0)],
    )
}

/// `out` is `a` with its last dimension, of size one, laid out again and again.
pub open spec fn is_widened(a: Array, width: nat, out: Array) -> bool {
    &&& out.dtype == a.dtype
    &&& out.dims == a.dims.update(a.dims.len() - 1, width)
    &&& countable(a.dims) && countable(out.dims) ==> out == widened(a, width)
}

/// The slices of `a` along `dim` that `ids` lists, in that order.
pub open spec fn picked(a: Array, ids: Array, dim: int) -> Array {
    filled(
        a.dims.update(dim, ids.dims[0]),
        a.dtype,
        |i: Seq<nat>| a.cells[i.update(dim, ids.cells[seq![i[dim]]] as nat)],
    )
}

/// Every entry of `ids` names one of the `len` slices and is not the largest `u32`.
pub open spec fn ids_below(ids: Array, len: nat) -> bool {
    forall|k: nat|
        k < ids.dims[0] ==> (#[trigger] ids.cells[seq![k]]) < len && ids.cells[seq![k]] < u32::MAX
}

/// `out` holds the slices of `a` along `dim` that `ids` lists. What stands for a number that names
/// no slice is not known.
pub open spec fn is_picked(a: Array, ids: Array, dim: int, out: Array) -> bool {
    &&& out.dims == a.dims.update(dim, ids.dims[0])
    &&& out.dtype == a.dtype
    &&& ids.dtype is U32 && ids_below(ids, a.dims[dim]) ==> out == picked(a, ids, dim)
}

/// `out` holds the rows of the matrix `a` that `ids` lists, under the shape of `ids`. What stands
/// for a number that names no row is not known.
pub open spec fn is_embedded(a: Array, ids: Array, out: Array) -> bool {
    &&& out.dtype == a.dtype
    &&& out.dims == ids.dims.push(a.dims.last())
    &&& ids.dtype is U32 && ids.dims.len() == 1 && ids_below(ids, a.dims[0]) ==> out == picked(
        a,
        ids,
        0,
    )
}

/// The shape with ones put in front until it has `rank` dimensions.
pub open spec fn padded(dims: Seq<nat>, rank: nat) -> Seq<nat> {
    if dims.len() < rank {
        Seq::new((rank - dims.len()) as nat, |k: int| 1nat) + dims
    } else {
        dims
    }
}

/// How often dimension `k` is repeated: a count below two leaves it as it is.
pub open spec fn times(reps: Seq<usize>, k: int) -> nat {
    if k < reps.len() && reps[k] > 1 {
        reps[k] as nat
    } else {
        1
    }
}

/// `a` laid out again and again, `reps[k]` times along dimension `k`.
pub open spec fn repeated(a: Array, reps: Seq<usize>) -> Array {
    let from = padded(a.dims, reps.len());
    filled(
        Seq::new(from.len(), |k: int| from[k] * times(reps, k)),
        a.dtype,
        |i: Seq<nat>|
            a.cells[Seq::new(
                a.dims.len(),
                |k: int|
                    (i[k + from.len() - a.dims.len()] as int % from[k + from.len()
                        - a.dims.len()] as int) as nat,
            )],
    )
}

/// `out` is `a` laid out again and again.
pub open spec fn is_repeated(a: Array, reps: Seq<usize>, out: Array) -> bool {
    let whole = repeated(a, reps);
    &&& out.dtype == a.dtype
    &&& (forall|k: int| 0 <= k < whole.dims.len() ==> #[trigger] whole.dims[k] <= usize::MAX)
        ==> out.dims == whole.dims
    &&& countable(a.dims) && countable(whole.dims) ==> out == whole
}

/// Where chunk `c` starts when `size` is cut into `chunks` chunks, the larger ones first.
pub open spec fn chunk_start(size: nat, chunks: nat, c: nat) -> nat {
    if size < chunks {
        c
    } else {
        c * (size / chunks) + if c < size % chunks {
            c
        } else {
            size % chunks
        }
    }
}

/// How long chunk `c` is.
pub open spec fn chunk_len(size: nat, chunks: nat, c: nat) -> nat {
    if size < chunks {
        1
    } else {
        size / chunks + if c < size % chunks {
            1nat
        } else {
            0nat
        }
    }
}

/// How many chunks there are.
pub open spec fn chunk_count(size: nat, chunks: nat) -> nat {
    if size < chunks {
        size
    } else {
        chunks
    }
}

/// Chunk `c` of the last dimension.
pub open spec fn chunk_of(a: Array, chunks: nat, c: nat) -> Array {
    let size = a.dims.last();
    narrowed(a, a.dims.len() - 1, chunk_start(size, chunks, c), chunk_len(size, chunks, c))
}

/// The one-dimensional array of these numbers.
pub open spec fn vector(data: Seq<u32>) -> Array {
    filled(seq![data.len()], DType::U32, |i: Seq<nat>| data[i[0] as int] as u64)
}

/// The array of no dimensions that holds one double, given by its bits.
pub open spec fn double(bits: u64) -> Array {
    filled(seq![], DType::F64, |i: Seq<nat>| bits)
}

/// The bits of an array of no dimensions.
pub open spec fn scalar_bits(a: Array) -> u64 {
    a.cells[seq![]]
}

/// The element types that hold a fraction.
pub open spec fn is_float(d: DType) -> bool {
    !(d is U8 || d is U32 || d is I16 || d is I32 || d is I64)
}

/// The element types that take a whole number of bytes and that host memory computes with.
pub open spec fn is_plain(d: DType) -> bool {
    !(d is F6E2M3 || d is F6E3M2 || d is F4 || d is F8E8M0)
}

/// The element types that host memory multiplies matrices of.
pub open spec fn has_host_matmul(d: DType) -> bool {
    d is F16 || d is F32 || d is F64
}

/// The element types that host memory takes norms of.
pub open spec fn has_host_norm(d: DType) -> bool {
    d is F16 || d is BF16 || d is F32
}

/// The element types that host memory converts into each other.
pub open spec fn is_convertible(d: DType) -> bool {
    d is U8 || d is U32 || d is I64 || d is BF16 || d is F16 || d is F32 || d is F64
}

/// The bits of the number one.
pub open spec fn one_bits(d: DType) -> u64 {
    match d {
        DType::F16 => 0x3c00,
        DType::BF16 => 0x3f80,
        DType::F32 => 0x3f80_0000,
        DType::F64 => 0x3ff0_0000_0000_0000,
        DType::F8E4M3 => 0x38,
        _ => 1,
    }
}

/// The vector of `n` ones.
pub open spec fn ones_array(n: nat, d: DType) -> Array {
    filled(seq![n], d, |i: Seq<nat>| one_bits(d))
}

/// The vector of `n` zeros.
pub open spec fn zeros_array(n: nat, d: DType) -> Array {
    filled(seq![n], d, |i: Seq<nat>| 0u64)
}

/// The sizes that a vector of machine words stands for.
pub open spec fn sizes(v: Seq<usize>) -> Seq<nat> {
    Seq::new(v.len(), |k: int| v[k] as nat)
}

/// Two parts joined are the second put after the first.
pub proof fn lemma_joined_two(a: Array, b: Array, dim: int)
    ensures
        joined(seq![a, b], dim) == join(a, b, dim),
{
    assert(seq![a, b].drop_last() =~= seq![a]);
    reveal_with_fuel(joined, 2);
}

/// Three parts joined are the third put after the first two.
pub proof fn lemma_joined_three(a: Array, b: Array, c: Array, dim: int)
    ensures
        joined(seq![a, b, c], dim) == join(join(a, b, dim), c, dim),
{
    assert(seq![a, b, c].drop_last() =~= seq![a, b]);
    lemma_joined_two(a, b, dim);
}

/// A shape has cells exactly where no dimension is empty.
pub proof fn lemma_cells(dims: Seq<nat>)
    ensures
        count(dims) > 0 <==> (forall|k: int| 0 <= k < dims.len() ==> #[trigger] dims[k] > 0),
    decreases dims.len(),
{
    if dims.len() > 0 {
        let front = dims.drop_last();
        let last = dims.last();
        lemma_cells(front);
        let c = count(front);
        assert(c * last > 0 <==> (c > 0 && last > 0)) by (nonlinear_arith)
            requires
                c >= 0,
                last >= 0,
        ;
        if count(dims) > 0 {
            assert forall|k: int| 0 <= k < dims.len() implies #[trigger] dims[k] > 0 by {
                if k < front.len() {
                    assert(front[k] == dims[k]);
                }
            }
        }
        if forall|k: int| 0 <= k < dims.len() ==> #[trigger] dims[k] > 0 {
            assert forall|k: int| 0 <= k < front.len() implies #[trigger] front[k] > 0 by {
                assert(front[k] == dims[k]);
            }
            assert(dims[dims.len() - 1] > 0);
        }
    }
}

/// Two sizes whose product fits in a machine word, and which fit in one themselves.
pub proof fn lemma_span_two(a: nat, b: nat)
    requires
        a * b <= usize::MAX,
        a <= usize::MAX,
        b <= usize::MAX,
    ensures
        is_spanned(seq![a, b]),
        count(seq![a, b]) == a * b,
{
    let dims = seq![a, b];
    reveal_with_fuel(span, 3);
    lemma_count_two(dims);
    assert(dims.drop_last() =~= seq![a]);
    assert(seq![a].drop_last() =~= Seq::empty());
    assert(1 * a == a && 1 * b == b);
}

/// A slice of nothing is nothing.
pub proof fn lemma_slice_of_nothing(dims: Seq<nat>, dim: int, len: nat)
    requires
        0 <= dim < dims.len(),
        len <= dims[dim],
        count(dims) == 0,
    ensures
        count(dims.update(dim, len)) == 0,
{
    let slice = dims.update(dim, len);
    lemma_cells(dims);
    lemma_cells(slice);
    let k = choose|k: int| 0 <= k < dims.len() && !(#[trigger] dims[k] > 0);
    assert(!(slice[k] > 0));
}

/// The number of cells of a vector.
pub proof fn lemma_count_one(n: nat)
    ensures
        count(seq![n]) == n,
{
    reveal_with_fuel(count, 2);
    assert(seq![n].drop_last() =~= Seq::empty());
    assert(1 * n == n);
}

/// The number of cells of a matrix.
pub proof fn lemma_count_two(dims: Seq<nat>)
    requires
        dims.len() == 2,
    ensures
        count(dims) == dims[0] * dims[1],
{
    reveal_with_fuel(count, 3);
    assert(1 * dims[0] == dims[0]);
}

/// The number of cells of a stack of matrices.
pub proof fn lemma_count_three(dims: Seq<nat>)
    requires
        dims.len() == 3,
    ensures
        count(dims) == dims[0] * dims[1] * dims[2],
{
    lemma_count_two(dims.drop_last());
    reveal_with_fuel(count, 2);
}

/// A shape with cells spans as many as it has, and no shape has more than it spans.
pub proof fn lemma_span(dims: Seq<nat>)
    ensures
        count(dims) <= span(dims),
        span(dims) > 0,
        count(dims) > 0 ==> span(dims) == count(dims),
    decreases dims.len(),
{
    if dims.len() > 0 {
        let front = dims.drop_last();
        let last = dims.last();
        lemma_span(front);
        let (c, s) = (count(front), span(front));
        if last > 0 {
            assert(c * last <= s * last && s * last > 0) by (nonlinear_arith)
                requires
                    c <= s,
                    s > 0,
                    last > 0,
            ;
            assert(c * last > 0 ==> c > 0) by (nonlinear_arith);
        } else {
            assert(c * last == 0) by (nonlinear_arith)
                requires
                    last == 0,
            ;
        }
    }
}

/// A shape spans at least as much as it does without its last dimension.
pub proof fn lemma_span_front(dims: Seq<nat>, k: int)
    requires
        0 <= k <= dims.len(),
    ensures
        span(dims.take(k)) <= span(dims),
    decreases dims.len() - k,
{
    if k == dims.len() {
        assert(dims.take(k) =~= dims);
    } else {
        lemma_span_front(dims, k + 1);
        let next = dims.take(k + 1);
        assert(next.drop_last() =~= dims.take(k));
        let (s, d) = (span(dims.take(k)), next.last());
        if d > 0 {
            assert(s <= s * d) by (nonlinear_arith)
                requires
                    d > 0,
            ;
        }
    }
}

/// Joined arrays have a cell for every index inside the shape.
pub proof fn lemma_join_well_formed(a: Array, b: Array, dim: int)
    ensures
        well_formed(join(a, b, dim)),
{
}

/// Slicing a joined array where it was joined gives back its parts.
pub proof fn law_narrowing_undoes_joining(a: Array, b: Array, dim: int)
    requires
        well_formed(a),
        well_formed(b),
        0 <= dim,
        joinable(a, b, dim),
    ensures
        narrowed(join(a, b, dim), dim, 0, a.dims[dim]) == a,
        narrowed(join(a, b, dim), dim, a.dims[dim], b.dims[dim]) == b,
{
    let whole = join(a, b, dim);
    let first = narrowed(whole, dim, 0, a.dims[dim]);
    let second = narrowed(whole, dim, a.dims[dim], b.dims[dim]);
    assert(first.dims =~= a.dims);
    assert(second.dims =~= b.dims);
    assert forall|i: Seq<nat>| in_bounds(i, a.dims) implies first.cells[i] == a.cells[i] by {
        assert(i.update(dim, i[dim] + 0) =~= i);
        assert(in_bounds(i, whole.dims));
    }
    assert forall|i: Seq<nat>| in_bounds(i, b.dims) implies second.cells[i] == b.cells[i] by {
        let j = i.update(dim, i[dim] + a.dims[dim]);
        assert(in_bounds(j, whole.dims));
        assert(j.update(dim, (j[dim] - a.dims[dim]) as nat) =~= i);
    }
    assert(first.cells =~= a.cells);
    assert(second.cells =~= b.cells);
}

/// The two sides of a cut, joined, give back the whole.
pub proof fn law_joining_undoes_narrowing(a: Array, dim: int, cut: nat, size: nat)
    requires
        well_formed(a),
        0 <= dim < a.dims.len(),
        cut <= size,
        size == a.dims[dim],
    ensures
        join(
            narrowed(a, dim, 0, cut),
            narrowed(a, dim, cut, (size - cut) as nat),
            dim,
        ) == a,
{
    let first = narrowed(a, dim, 0, cut);
    let second = narrowed(a, dim, cut, (size - cut) as nat);
    let whole = join(first, second, dim);
    assert(whole.dims =~= a.dims);
    assert forall|i: Seq<nat>| in_bounds(i, a.dims) implies whole.cells[i] == a.cells[i] by {
        if i[dim] < cut {
            assert(in_bounds(i, first.dims));
            assert(i.update(dim, i[dim] + 0) =~= i);
        } else {
            let j = i.update(dim, (i[dim] - cut) as nat);
            assert(in_bounds(j, second.dims));
            assert(j.update(dim, j[dim] + cut) =~= i);
        }
    }
    assert(whole.cells =~= a.cells);
}

/// A slice of a slice is one slice.
pub proof fn law_narrowing_twice(a: Array, dim: int, start: nat, len: nat, from: nat, size: nat)
    requires
        0 <= dim < a.dims.len(),
        from + size <= len,
    ensures
        narrowed(narrowed(a, dim, start, len), dim, from, size) == narrowed(
            a,
            dim,
            start + from,
            size,
        ),
{
    let outer = narrowed(a, dim, start, len);
    let inner = narrowed(outer, dim, from, size);
    let direct = narrowed(a, dim, start + from, size);
    assert(inner.dims =~= direct.dims);
    assert forall|i: Seq<nat>| in_bounds(i, direct.dims) implies inner.cells[i]
        == direct.cells[i] by {
        let j = i.update(dim, i[dim] + from);
        assert(in_bounds(j, outer.dims)) by {
            assert(forall|k: int| 0 <= k < a.dims.len() && k != dim ==> i[k] < direct.dims[k]);
        }
        assert(j.update(dim, j[dim] + start) =~= i.update(dim, i[dim] + (start + from)));
    }
    assert(inner.cells =~= direct.cells);
}

/// One more row below others leaves them where they are.
proof fn lemma_one_more_row(above: Array, last: Array, n: nat, width: nat)
    requires
        above.dims == seq![n, width],
        last.dims == seq![1nat, width],
        last.dtype == above.dtype,
        well_formed(above),
        well_formed(last),
    ensures
        join(above, last, 0).dims == seq![n + 1, width],
        join(above, last, 0).dtype == above.dtype,
        well_formed(join(above, last, 0)),
        narrowed(join(above, last, 0), 0, n, 1) == last,
        forall|k: nat|
            k < n ==> #[trigger] narrowed(join(above, last, 0), 0, k, 1) == narrowed(
                above,
                0,
                k,
                1,
            ),
{
    let whole = join(above, last, 0);
    assert(whole.dims =~= seq![n + 1, width]);
    assert(joinable(above, last, 0));
    law_narrowing_undoes_joining(above, last, 0);
    assert forall|k: nat| k < n implies #[trigger] narrowed(whole, 0, k, 1) == narrowed(
        above,
        0,
        k,
        1,
    ) by {
        law_narrowing_twice(whole, 0, 0, n, k, 1);
    }
}

/// A row by itself is all of its rows.
proof fn lemma_only_row(row: Array, width: nat)
    requires
        row.dims == seq![1nat, width],
        well_formed(row),
    ensures
        narrowed(row, 0, 0, 1) == row,
{
    let same = narrowed(row, 0, 0, 1);
    assert(same.dims =~= row.dims);
    assert forall|i: Seq<nat>| in_bounds(i, row.dims) implies same.cells[i] == row.cells[i] by {
        assert(i.update(0, i[0] + 0) =~= i);
    }
    assert(same.cells =~= row.cells);
}

/// Rows of one width and one element type.
pub open spec fn are_rows(parts: Seq<Array>, width: nat, dtype: DType) -> bool {
    forall|k: int|
        #![trigger parts[k]]
        0 <= k < parts.len() ==> parts[k].dims == seq![1nat, width] && parts[k].dtype == dtype
            && well_formed(parts[k])
}

/// Rows that are joined one below the other are the rows of the outcome, in that order.
pub proof fn law_joined_rows_are_rows(parts: Seq<Array>, width: nat, dtype: DType)
    requires
        parts.len() > 0,
        are_rows(parts, width, dtype),
    ensures
        joined(parts, 0).dims == seq![parts.len(), width],
        joined(parts, 0).dtype == dtype,
        well_formed(joined(parts, 0)),
        all_joinable(parts, 0),
        forall|k: int|
            #![trigger parts[k]]
            0 <= k < parts.len() ==> narrowed(joined(parts, 0), 0, k as nat, 1) == parts[k],
    decreases parts.len(),
{
    let last = parts[parts.len() - 1];
    if parts.len() == 1 {
        lemma_only_row(last, width);
    } else {
        let front = parts.drop_last();
        let n = front.len();
        assert(are_rows(front, width, dtype)) by {
            assert forall|k: int|
                #![trigger front[k]]
                0 <= k < front.len() implies front[k].dims == seq![1nat, width] && front[k].dtype
                == dtype && well_formed(front[k]) by {
                assert(front[k] == parts[k]);
            }
        }
        law_joined_rows_are_rows(front, width, dtype);
        let above = joined(front, 0);
        lemma_one_more_row(above, last, n, width);
        assert(joined(parts, 0) == join(above, last, 0));
        assert forall|k: int| #![trigger parts[k]] 0 <= k < parts.len() implies narrowed(
            joined(parts, 0),
            0,
            k as nat,
            1,
        ) == parts[k] by {
            if k < n {
                assert(front[k] == parts[k]);
                assert(narrowed(join(above, last, 0), 0, k as nat, 1) == narrowed(
                    above,
                    0,
                    k as nat,
                    1,
                ));
            }
        }
    }
}

} // verus!
