//! Slices of arrays, listed along one dimension, and what it is for two arrays to share them.
use crate::array::{
    count, filled, in_bounds, is_reshape, narrowed, permuted, position, transposed, well_formed,
    Array,
};
use crate::cross_attention::heads_first;
use vstd::prelude::*;

verus! {

/// The list names slices of a dimension of this size only.
pub open spec fn in_range(list: Seq<nat>, len: nat) -> bool {
    forall|k: int| 0 <= k < list.len() ==> #[trigger] list[k] < len
}

/// The slices of `a` along `dim` that the list names, in that order.
pub open spec fn chosen(a: Array, list: Seq<nat>, dim: int) -> Array {
    filled(
        a.dims.update(dim, list.len()),
        a.dtype,
        |i: Seq<nat>| a.cells[i.update(dim, list[i[dim] as int])],
    )
}

/// The slices of `a` along `dim` that one list names are those of `b` that the other names.
pub open spec fn shares(
    a: Array,
    b: Array,
    of_a: Seq<nat>,
    of_b: Seq<nat>,
    dim: int,
) -> bool {
    &&& 0 <= dim < a.dims.len()
    &&& dim < b.dims.len()
    &&& in_range(of_a, a.dims[dim])
    &&& in_range(of_b, b.dims[dim])
    &&& chosen(a, of_a, dim) == chosen(b, of_b, dim)
}

/// The numbers from `start` up to `start + len`.
pub open spec fn run(start: nat, len: nat) -> Seq<nat> {
    Seq::new(len, |k: int| (start + k) as nat)
}

/// The list names every one of the numbers from `start` up to `end`, each once.
pub open spec fn is_arrangement(list: Seq<nat>, start: nat, end: nat) -> bool {
    &&& list.len() == end - start
    &&& forall|k: int| 0 <= k < list.len() ==> start <= #[trigger] list[k] < end
    &&& forall|j: int, k: int|
        0 <= j < k < list.len() ==> #[trigger] list[j] != #[trigger] list[k]
}

/// Two arrays that share slices agree on everything else of their shape.
pub proof fn lemma_shared_shape(a: Array, b: Array, of_a: Seq<nat>, of_b: Seq<nat>, dim: int)
    requires
        shares(a, b, of_a, of_b, dim),
    ensures
        of_a.len() == of_b.len(),
        a.dims.len() == b.dims.len(),
        a.dtype == b.dtype,
        forall|k: int| 0 <= k < a.dims.len() && k != dim ==> #[trigger] a.dims[k] == b.dims[k],
        a.dims.update(dim, of_a.len()) == b.dims.update(dim, of_b.len()),
{
    let (ca, cb) = (chosen(a, of_a, dim), chosen(b, of_b, dim));
    assert(ca.dims == cb.dims);
    assert(ca.dims[dim] == of_a.len() && cb.dims[dim] == of_b.len());
    assert forall|k: int| 0 <= k < a.dims.len() && k != dim implies #[trigger] a.dims[k]
        == b.dims[k] by {
        assert(ca.dims[k] == a.dims[k] && cb.dims[k] == b.dims[k]);
    }
}

/// The cells of shared slices are the same.
pub proof fn lemma_shared_cell(
    a: Array,
    b: Array,
    of_a: Seq<nat>,
    of_b: Seq<nat>,
    dim: int,
    i: Seq<nat>,
)
    requires
        shares(a, b, of_a, of_b, dim),
        in_bounds(i, a.dims.update(dim, of_a.len())),
    ensures
        a.cells[i.update(dim, of_a[i[dim] as int])] == b.cells[i.update(
            dim,
            of_b[i[dim] as int],
        )],
{
    lemma_shared_shape(a, b, of_a, of_b, dim);
    let (ca, cb) = (chosen(a, of_a, dim), chosen(b, of_b, dim));
    assert(in_bounds(i, ca.dims) && in_bounds(i, cb.dims));
    assert(ca.cells[i] == cb.cells[i]);
}

/// Arrays whose listed slices have the same cells share them.
pub proof fn lemma_shares(a: Array, b: Array, of_a: Seq<nat>, of_b: Seq<nat>, dim: int)
    requires
        0 <= dim < a.dims.len(),
        a.dims.len() == b.dims.len(),
        a.dtype == b.dtype,
        of_a.len() == of_b.len(),
        in_range(of_a, a.dims[dim]),
        in_range(of_b, b.dims[dim]),
        forall|k: int| 0 <= k < a.dims.len() && k != dim ==> #[trigger] a.dims[k] == b.dims[k],
        forall|i: Seq<nat>| #[trigger]
            in_bounds(i, a.dims.update(dim, of_a.len())) ==> a.cells[i.update(
                dim,
                of_a[i[dim] as int],
            )] == b.cells[i.update(dim, of_b[i[dim] as int])],
    ensures
        shares(a, b, of_a, of_b, dim),
{
    let (ca, cb) = (chosen(a, of_a, dim), chosen(b, of_b, dim));
    assert(ca.dims =~= cb.dims);
    assert forall|i: Seq<nat>| in_bounds(i, ca.dims) implies ca.cells[i] == cb.cells[i] by {
        assert(in_bounds(i, a.dims.update(dim, of_a.len())));
    }
    assert(ca.cells =~= cb.cells);
}

/// An index with one entry replaced by a smaller one stays inside.
proof fn lemma_update_in_bounds(i: Seq<nat>, dims: Seq<nat>, dim: int, n: nat, to: nat)
    requires
        0 <= dim < dims.len(),
        in_bounds(i, dims.update(dim, n)),
        to < dims[dim],
    ensures
        in_bounds(i.update(dim, to), dims),
{
    assert forall|k: int| 0 <= k < dims.len() implies i.update(dim, to)[k] < dims[k] by {
        assert(i[k] < dims.update(dim, n)[k]);
    }
}

/// Slices along another dimension leave shared slices shared.
pub proof fn lemma_narrowed_shares(
    a: Array,
    b: Array,
    of_a: Seq<nat>,
    of_b: Seq<nat>,
    dim: int,
    other: int,
    start: nat,
    len: nat,
)
    requires
        shares(a, b, of_a, of_b, dim),
        0 <= other < a.dims.len(),
        other != dim,
        start + len <= a.dims[other],
    ensures
        shares(
            narrowed(a, other, start, len),
            narrowed(b, other, start, len),
            of_a,
            of_b,
            dim,
        ),
{
    lemma_shared_shape(a, b, of_a, of_b, dim);
    let (x, y) = (narrowed(a, other, start, len), narrowed(b, other, start, len));
    assert forall|i: Seq<nat>| #[trigger] in_bounds(i, x.dims.update(dim, of_a.len())) implies
        x.cells[i.update(dim, of_a[i[dim] as int])] == y.cells[i.update(
        dim,
        of_b[i[dim] as int],
    )] by {
        let d = x.dims.update(dim, of_a.len());
        assert(i[dim] < d[dim]);
        assert(i[other] < d[other]);
        let j = i.update(other, i[other] + start);
        assert(in_bounds(j, a.dims.update(dim, of_a.len()))) by {
            assert forall|k: int| 0 <= k < a.dims.len() implies j[k] < a.dims.update(
                dim,
                of_a.len(),
            )[k] by {
                assert(i[k] < d[k]);
            }
        }
        lemma_shared_cell(a, b, of_a, of_b, dim, j);
        let (ia, ib) = (
            i.update(dim, of_a[i[dim] as int]),
            i.update(dim, of_b[i[dim] as int]),
        );
        lemma_update_in_bounds(i, x.dims, dim, of_a.len(), of_a[i[dim] as int]);
        assert(i.len() == y.dims.len());
        assert(y.dims.update(dim, of_a.len()) =~= d);
        lemma_update_in_bounds(i, y.dims, dim, of_a.len(), of_b[i[dim] as int]);
        assert(ia.update(other, ia[other] + start) =~= j.update(dim, of_a[j[dim] as int]));
        assert(ib.update(other, ib[other] + start) =~= j.update(dim, of_b[j[dim] as int]));
    }
    lemma_shares(x, y, of_a, of_b, dim);
}

/// The position of an index is that of its front, times the cells behind it, plus that of its back.
pub(crate) proof fn lemma_position_append(h: Seq<nat>, t: Seq<nat>, hd: Seq<nat>, td: Seq<nat>)
    requires
        h.len() == hd.len(),
        t.len() == td.len(),
    ensures
        position(h + t, hd + td) == position(h, hd) * count(td) + position(t, td),
    decreases td.len(),
{
    if td.len() == 0 {
        assert(h + t =~= h && hd + td =~= hd);
        assert(position(h, hd) * 1 == position(h, hd));
    } else {
        let (t1, td1) = (t.drop_last(), td.drop_last());
        lemma_position_append(h, t1, hd, td1);
        assert((h + t).drop_last() =~= h + t1);
        assert((hd + td).drop_last() =~= hd + td1);
        let (p, c, q, l) = (position(h, hd), count(td1), position(t1, td1), td.last());
        assert((p * c + q) * l == p * (c * l) + q * l) by (nonlinear_arith);
    }
}

/// The position of an index lies inside.
pub(crate) proof fn lemma_position_bound(i: Seq<nat>, dims: Seq<nat>)
    requires
        in_bounds(i, dims),
    ensures
        position(i, dims) < count(dims),
    decreases dims.len(),
{
    if dims.len() > 0 {
        let (i1, d1) = (i.drop_last(), dims.drop_last());
        assert(in_bounds(i1, d1)) by {
            assert forall|k: int| 0 <= k < d1.len() implies i1[k] < d1[k] by {
                assert(i[k] < dims[k]);
            }
        }
        lemma_position_bound(i1, d1);
        let (p, c, x, l) = (position(i1, d1), count(d1), i.last(), dims.last());
        assert(i[dims.len() - 1] < dims[dims.len() - 1]);
        assert(p * l + x < c * l) by (nonlinear_arith)
            requires
                p + 1 <= c,
                x < l,
        ;
    }
}

/// The index at a position.
pub open spec fn index_at(p: nat, dims: Seq<nat>) -> Seq<nat>
    decreases dims.len(),
{
    if dims.len() == 0 || dims.last() == 0 {
        Seq::new(dims.len(), |k: int| 0nat)
    } else {
        index_at(p / dims.last(), dims.drop_last()).push(p % dims.last())
    }
}

/// Every position inside is that of an index.
pub(crate) proof fn lemma_index_at(p: nat, dims: Seq<nat>)
    requires
        p < count(dims),
    ensures
        in_bounds(index_at(p, dims), dims),
        position(index_at(p, dims), dims) == p,
    decreases dims.len(),
{
    if dims.len() > 0 {
        let (d1, l) = (dims.drop_last(), dims.last());
        let c = count(d1);
        assert(l > 0) by (nonlinear_arith)
            requires
                p < c * l,
                p >= 0,
                l >= 0,
        ;
        let q = p / l;
        vstd::arithmetic::div_mod::lemma_fundamental_div_mod(p as int, l as int);
        assert(q < c) by (nonlinear_arith)
            requires
                p < c * l,
                p == l * q + p % l,
                p % l >= 0,
                l > 0,
        ;
        lemma_index_at(q, d1);
        let i = index_at(p, dims);
        let front = index_at(q, d1);
        assert(i.drop_last() =~= front);
        assert(i.last() == p % l);
        assert(q * l + p % l == p) by (nonlinear_arith)
            requires
                p == l * q + p % l,
        ;
        assert forall|k: int| 0 <= k < dims.len() implies i[k] < dims[k] by {
            if k < d1.len() {
                assert(front[k] < d1[k]);
            }
        }
    }
}

/// Views that keep the first dimensions keep what is shared along one of them.
pub proof fn lemma_view_shares(
    a: Array,
    x: Array,
    b: Array,
    y: Array,
    of_a: Seq<nat>,
    of_b: Seq<nat>,
    dim: int,
    kept: int,
)
    requires
        shares(a, b, of_a, of_b, dim),
        is_reshape(a, x),
        is_reshape(b, y),
        dim < kept <= a.dims.len(),
        kept <= x.dims.len(),
        kept <= y.dims.len(),
        x.dims.take(kept) == a.dims.take(kept),
        y.dims.take(kept) == b.dims.take(kept),
        x.dims.skip(kept) == y.dims.skip(kept),
        count(x.dims.skip(kept)) == count(a.dims.skip(kept)),
    ensures
        shares(x, y, of_a, of_b, dim),
{
    lemma_shared_shape(a, b, of_a, of_b, dim);
    let (xt, at) = (x.dims.skip(kept), a.dims.skip(kept));
    assert(b.dims.skip(kept) =~= at);
    assert(x.dims =~= x.dims.take(kept) + xt);
    assert(y.dims =~= y.dims.take(kept) + xt);
    assert(a.dims =~= a.dims.take(kept) + at);
    assert(b.dims =~= b.dims.take(kept) + at);
    assert(x.dims[dim] == x.dims.take(kept)[dim] && a.dims[dim] == a.dims.take(kept)[dim]);
    assert(y.dims[dim] == y.dims.take(kept)[dim] && b.dims[dim] == b.dims.take(kept)[dim]);
    assert forall|k: int| 0 <= k < x.dims.len() && k != dim implies #[trigger] x.dims[k]
        == y.dims[k] by {
        if k < kept {
            assert(x.dims.take(kept)[k] == a.dims.take(kept)[k]);
            assert(y.dims.take(kept)[k] == b.dims.take(kept)[k]);
        } else {
            assert(x.dims.skip(kept)[k - kept] == y.dims.skip(kept)[k - kept]);
        }
    }
    assert forall|i: Seq<nat>| #[trigger] in_bounds(i, x.dims.update(dim, of_a.len())) implies
        x.cells[i.update(dim, of_a[i[dim] as int])] == y.cells[i.update(
        dim,
        of_b[i[dim] as int],
    )] by {
        let d = x.dims.update(dim, of_a.len());
        assert(i[dim] < d[dim]);
        let (head, tail) = (i.take(kept), i.skip(kept));
        assert(in_bounds(tail, xt)) by {
            assert forall|k: int| 0 <= k < xt.len() implies tail[k] < xt[k] by {
                assert(i[k + kept] < d[k + kept]);
            }
        }
        lemma_position_bound(tail, xt);
        let t = index_at(position(tail, xt), at);
        lemma_index_at(position(tail, xt), at);
        let (to_a, to_b) = (of_a[i[dim] as int], of_b[i[dim] as int]);
        let (ha, hb) = (head.update(dim, to_a), head.update(dim, to_b));
        let (ia, ib) = (i.update(dim, to_a), i.update(dim, to_b));
        let (ja, jb) = (ha + t, hb + t);
        assert(ia =~= ha + tail && ib =~= hb + tail);
        lemma_position_append(ha, tail, x.dims.take(kept), xt);
        lemma_position_append(ha, t, a.dims.take(kept), at);
        lemma_position_append(hb, tail, y.dims.take(kept), xt);
        lemma_position_append(hb, t, b.dims.take(kept), at);
        lemma_update_in_bounds(i, x.dims, dim, of_a.len(), to_a);
        assert(y.dims.update(dim, of_a.len()) =~= d);
        lemma_update_in_bounds(i, y.dims, dim, of_a.len(), to_b);
        let j = head + t;
        assert(in_bounds(j, a.dims.update(dim, of_a.len()))) by {
            assert forall|k: int| 0 <= k < a.dims.len() implies j[k] < a.dims.update(
                dim,
                of_a.len(),
            )[k] by {
                if k < kept {
                    assert(i[k] < d[k]);
                    assert(x.dims.take(kept)[k] == a.dims.take(kept)[k]);
                } else {
                    assert(t[k - kept] < at[k - kept]);
                }
            }
        }
        lemma_shared_cell(a, b, of_a, of_b, dim, j);
        assert(j.update(dim, to_a) =~= ja && j.update(dim, to_b) =~= jb);
        lemma_update_in_bounds(j, a.dims, dim, of_a.len(), to_a);
        assert(b.dims.update(dim, of_a.len()) =~= a.dims.update(dim, of_a.len()));
        lemma_update_in_bounds(j, b.dims, dim, of_a.len(), to_b);
        assert(x.cells[ia] == a.cells[ja]);
        assert(y.cells[ib] == b.cells[jb]);
    }
    lemma_shares(x, y, of_a, of_b, dim);
}

/// A cell of an array whose heads were brought before its rows.
pub proof fn lemma_turned_cell(a: Array, i: Seq<nat>)
    requires
        a.dims.len() == 4,
        in_bounds(i, seq![a.dims[0], a.dims[2], a.dims[1], a.dims[3]]),
    ensures
        permuted(a, heads_first()).cells[i] == a.cells[seq![i[0], i[2], i[1], i[3]]],
{
    lemma_turned_dims(a);
    let order = heads_first();
    let turned = permuted(a, order);
    assert(order.index_of(0usize) == 0 && order.index_of(1usize) == 2 && order.index_of(2usize) == 1
        && order.index_of(3usize) == 3) by {
        assert(order[0] == 0 && order[1] == 2 && order[2] == 1 && order[3] == 3);
        assert(order.contains(0usize));
        assert(order.contains(1usize));
        assert(order.contains(2usize));
        assert(order.contains(3usize));
    }
    let j = Seq::new(4, |d: int| i[order.index_of(d as usize)]);
    assert(j =~= seq![i[0], i[2], i[1], i[3]]);
    assert(turned.cells[i] == a.cells[j]);
}

/// The shape of an array whose heads were brought before its rows.
pub proof fn lemma_turned_dims(a: Array)
    requires
        a.dims.len() == 4,
    ensures
        permuted(a, heads_first()).dims == seq![a.dims[0], a.dims[2], a.dims[1], a.dims[3]],
{
    assert(permuted(a, heads_first()).dims =~= seq![
        a.dims[0],
        a.dims[2],
        a.dims[1],
        a.dims[3],
    ]);
}

/// Where a dimension is after the heads were brought before the rows.
pub open spec fn turned_dim(dim: int) -> int {
    if dim == 1 {
        2
    } else if dim == 2 {
        1
    } else {
        dim
    }
}

/// Bringing the heads before the rows leaves shared slices shared.
pub proof fn lemma_turned_shares(a: Array, b: Array, of_a: Seq<nat>, of_b: Seq<nat>, dim: int)
    requires
        shares(a, b, of_a, of_b, dim),
        a.dims.len() == 4,
    ensures
        shares(
            permuted(a, heads_first()),
            permuted(b, heads_first()),
            of_a,
            of_b,
            turned_dim(dim),
        ),
{
    lemma_shared_shape(a, b, of_a, of_b, dim);
    lemma_turned_dims(a);
    lemma_turned_dims(b);
    let (x, y) = (permuted(a, heads_first()), permuted(b, heads_first()));
    let to = turned_dim(dim);
    assert forall|i: Seq<nat>| #[trigger] in_bounds(i, x.dims.update(to, of_a.len())) implies
        x.cells[i.update(to, of_a[i[to] as int])] == y.cells[i.update(
        to,
        of_b[i[to] as int],
    )] by {
        let d = x.dims.update(to, of_a.len());
        assert(i[to] < d[to]);
        let j = seq![i[0], i[2], i[1], i[3]];
        assert(in_bounds(j, a.dims.update(dim, of_a.len()))) by {
            assert(i[0] < d[0] && i[1] < d[1] && i[2] < d[2] && i[3] < d[3]);
        }
        lemma_shared_cell(a, b, of_a, of_b, dim, j);
        let (ia, ib) = (i.update(to, of_a[i[to] as int]), i.update(to, of_b[i[to] as int]));
        lemma_update_in_bounds(i, x.dims, to, of_a.len(), of_a[i[to] as int]);
        assert(y.dims.update(to, of_a.len()) =~= d);
        lemma_update_in_bounds(i, y.dims, to, of_a.len(), of_b[i[to] as int]);
        lemma_turned_cell(a, ia);
        lemma_turned_cell(b, ib);
        assert(seq![ia[0], ia[2], ia[1], ia[3]] =~= j.update(dim, of_a[j[dim] as int]));
        assert(seq![ib[0], ib[2], ib[1], ib[3]] =~= j.update(dim, of_b[j[dim] as int]));
    }
    lemma_shares(x, y, of_a, of_b, to);
}

/// Where a dimension is after the last two of four were swapped.
pub open spec fn flipped_dim(dim: int) -> int {
    if dim == 2 {
        3
    } else if dim == 3 {
        2
    } else {
        dim
    }
}

/// Swapping the last two dimensions leaves shared slices shared.
pub proof fn lemma_flipped_shares(a: Array, b: Array, of_a: Seq<nat>, of_b: Seq<nat>, dim: int)
    requires
        shares(a, b, of_a, of_b, dim),
        a.dims.len() == 4,
    ensures
        shares(transposed(a, 2, 3), transposed(b, 2, 3), of_a, of_b, flipped_dim(dim)),
{
    lemma_shared_shape(a, b, of_a, of_b, dim);
    let (x, y) = (transposed(a, 2, 3), transposed(b, 2, 3));
    let to = flipped_dim(dim);
    assert forall|i: Seq<nat>| #[trigger] in_bounds(i, x.dims.update(to, of_a.len())) implies
        x.cells[i.update(to, of_a[i[to] as int])] == y.cells[i.update(
        to,
        of_b[i[to] as int],
    )] by {
        let d = x.dims.update(to, of_a.len());
        assert(i[to] < d[to]);
        let j = seq![i[0], i[1], i[3], i[2]];
        assert(in_bounds(j, a.dims.update(dim, of_a.len()))) by {
            assert(i[0] < d[0] && i[1] < d[1] && i[2] < d[2] && i[3] < d[3]);
        }
        lemma_shared_cell(a, b, of_a, of_b, dim, j);
        let (ia, ib) = (i.update(to, of_a[i[to] as int]), i.update(to, of_b[i[to] as int]));
        lemma_update_in_bounds(i, x.dims, to, of_a.len(), of_a[i[to] as int]);
        assert(y.dims.update(to, of_a.len()) =~= d);
        lemma_update_in_bounds(i, y.dims, to, of_a.len(), of_b[i[to] as int]);
        assert(ia.update(2, ia[3]).update(3, ia[2]) =~= j.update(dim, of_a[j[dim] as int]));
        assert(ib.update(2, ib[3]).update(3, ib[2]) =~= j.update(dim, of_b[j[dim] as int]));
    }
    lemma_shares(x, y, of_a, of_b, to);
}

/// A run of slices is a slice of the whole.
pub proof fn lemma_run_is_narrowed(a: Array, dim: int, start: nat, len: nat)
    requires
        0 <= dim < a.dims.len(),
        start + len <= a.dims[dim],
    ensures
        chosen(a, run(start, len), dim) == narrowed(a, dim, start, len),
        in_range(run(start, len), a.dims[dim]),
{
    let (c, n) = (chosen(a, run(start, len), dim), narrowed(a, dim, start, len));
    assert(c.dims =~= n.dims);
    assert forall|i: Seq<nat>| in_bounds(i, c.dims) implies c.cells[i] == n.cells[i] by {
        assert(i[dim] < c.dims[dim]);
        assert(run(start, len)[i[dim] as int] == i[dim] + start);
    }
    assert(c.cells =~= n.cells);
}

/// All slices are the whole.
pub proof fn lemma_all_are_whole(a: Array, dim: int)
    requires
        well_formed(a),
        0 <= dim < a.dims.len(),
    ensures
        chosen(a, run(0, a.dims[dim]), dim) == a,
        in_range(run(0, a.dims[dim]), a.dims[dim]),
{
    let c = chosen(a, run(0, a.dims[dim]), dim);
    assert(c.dims =~= a.dims);
    assert forall|i: Seq<nat>| in_bounds(i, a.dims) implies c.cells[i] == a.cells[i] by {
        assert(i[dim] < a.dims[dim]);
        assert(run(0, a.dims[dim])[i[dim] as int] == i[dim]);
        assert(i.update(dim, i[dim]) =~= i);
    }
    assert(c.cells =~= a.cells);
}

} // verus!
