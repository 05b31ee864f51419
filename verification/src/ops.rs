//! The generic operations of candle, each behind a function of one fixed type.
use crate::array::{
    all_joinable, chunk_count, chunk_of, count, countable, double, has_host_matmul, has_host_norm,
    ids_below, is_embedded, is_flattened, is_float, is_joined, is_order, is_picked, is_plain,
    is_repeated, is_spanned, is_view, joined, narrowed, ones_array, permuted, repeated, row_major,
    scalar_bits, sizes, swapped, transposed, unsqueezed, vector, zeros_array, Array,
};
use crate::tensor::{
    alike, array, device_is_cpu, is_readable, same_kind, tensor_at, tensor_dims, tensor_dtype,
    tensor_on_host, tensor_packed, tensor_starts_inside, tensor_strides, walks_evenly,
};
use candle_core::{DType, Device, Tensor, D};
use candle_nn::Module;
use vstd::prelude::*;

verus! {

/// The tensors of a vector as values.
pub open spec fn arrays(v: Seq<Tensor>) -> Seq<Array> {
    v.map_values(|t: Tensor| array(t))
}

/// `out` is an outcome of `Tensor::affine` on `x` with the doubles of these bits.
pub uninterp spec fn affine_gives(x: Array, scale: u64, offset: u64, out: Array) -> bool;

/// `out` is an outcome of `Tensor::sum` on `x` along `dim`.
pub uninterp spec fn sum_gives(x: Array, dim: nat, out: Array) -> bool;

/// `out` is an outcome of `Tensor::sum_keepdim` on `x` along `dim`.
pub uninterp spec fn sum_keepdim_gives(x: Array, dim: nat, out: Array) -> bool;

/// `out` is an outcome of `Tensor::mean` on `x` along `dim`.
pub uninterp spec fn mean_gives(x: Array, dim: nat, out: Array) -> bool;

/// `out` is an outcome of `candle_nn::ops::softmax` on `x` along `dim`.
pub uninterp spec fn softmax_gives(x: Array, dim: nat, out: Array) -> bool;

/// `out` is an outcome of `candle_nn::Linear::forward` on `x`, with this weight and no bias.
pub uninterp spec fn linear_gives(weight: Array, x: Array, out: Array) -> bool;

/// `out` is an outcome of `candle_nn::LayerNorm::forward` on `x`, with this weight, this bias and
/// the epsilon of these bits.
pub uninterp spec fn layer_norm_gives(
    weight: Array,
    bias: Array,
    eps: u64,
    x: Array,
    out: Array,
) -> bool;

/// `out` is an outcome of `candle_nn::RmsNorm::forward` on `x`, with this weight and the epsilon
/// of these bits.
pub uninterp spec fn rms_norm_gives(weight: Array, eps: u64, x: Array, out: Array) -> bool;

/// `Tensor::dim`: the size along one dimension, an error past the last one.
#[verifier::external_body]
pub(crate) fn dim(t: &Tensor, d: usize) -> (r: Result<usize, candle_core::Error>)
    ensures
        r is Ok <==> d < tensor_dims(*t).len(),
        r matches Ok(n) ==> n == tensor_dims(*t)[d as int],
{
    t.dim(d)
}

/// `Tensor::narrow`: a slice along one dimension. It exists exactly where the range lies inside. A
/// slice along the first dimension stays packed.
#[verifier::external_body]
pub(crate) fn narrow(t: &Tensor, dim: usize, start: usize, len: usize) -> (r: Result<
    Tensor,
    candle_core::Error,
>)
    requires
        start + len <= usize::MAX,
    ensures
        r is Ok <==> (dim < tensor_dims(*t).len() && start + len <= tensor_dims(*t)[dim as int]),
        r matches Ok(o) ==> {
            &&& array(o) == narrowed(array(*t), dim as int, start as nat, len as nat)
            &&& tensor_on_host(o) == tensor_on_host(*t)
            &&& dim == 0 && tensor_packed(*t) ==> tensor_packed(o)
        },
{
    t.narrow(dim, start, len)
}

/// `Tensor::chunk` on the last dimension: consecutive slices, the larger ones first. There are
/// fewer than asked for where the dimension is shorter than that.
#[verifier::external_body]
pub(crate) fn chunk_last(t: &Tensor, chunks: usize) -> (r: Result<Vec<Tensor>, candle_core::Error>)
    requires
        chunks > 0,
    ensures
        r is Ok <==> tensor_dims(*t).len() > 0,
        r matches Ok(v) ==> v@.len() == chunk_count(tensor_dims(*t).last(), chunks as nat),
        r matches Ok(v) ==> forall|c: int|
            #![trigger v@[c]]
            0 <= c < v@.len() ==> {
                &&& array(v@[c]) == chunk_of(array(*t), chunks as nat, c as nat)
                &&& tensor_on_host(v@[c]) == tensor_on_host(*t)
            },
{
    t.chunk(chunks, D::Minus1)
}

/// `Tensor::cat`: tensors put next to each other along one dimension. The shapes may differ in
/// that dimension only, and the element types may not differ. In host memory nothing else is
/// refused. What is joined along the first dimension is packed. Candle adds up and multiplies the
/// sizes without a check, so they have to fit in a machine word, and panics on a part without cells
/// that starts behind the end of its buffer.
#[verifier::external_body]
pub(crate) fn cat(parts: &Vec<Tensor>, dim: usize) -> (r: Result<Tensor, candle_core::Error>)
    requires
        parts@.len() > 1,
        joined(arrays(parts@), dim as int).dims[dim as int] <= usize::MAX,
        is_spanned(joined(arrays(parts@), dim as int).dims),
        forall|k: int| 0 <= k < parts@.len() ==> is_readable(#[trigger] parts@[k]),
    ensures
        r is Ok ==> all_joinable(arrays(parts@), dim as int),
        r matches Ok(o) ==> {
            &&& is_joined(arrays(parts@), dim as int, array(o))
            &&& tensor_on_host(o) == tensor_on_host(parts@[0])
            &&& dim == 0 ==> tensor_packed(o)
            &&& is_readable(o)
        },
        all_joinable(arrays(parts@), dim as int) && countable(
            joined(arrays(parts@), dim as int).dims,
        ) && is_plain(tensor_dtype(parts@[0])) && (forall|k: int|
            0 <= k < parts@.len() ==> tensor_on_host(#[trigger] parts@[k])) ==> r is Ok,
{
    Tensor::cat(parts, dim)
}

/// `Tensor::reshape`: the same cells in the same row-major order under another shape. Candle
/// multiplies the sizes without a check, so their product has to fit in a machine word.
#[verifier::external_body]
pub(crate) fn reshape(t: &Tensor, dims: &Vec<usize>) -> (r: Result<Tensor, candle_core::Error>)
    requires
        is_spanned(sizes(dims@)),
    ensures
        r matches Ok(o) ==> {
            &&& tensor_dims(o) == sizes(dims@)
            &&& same_kind(o, *t)
            &&& tensor_packed(o)
            &&& countable(tensor_dims(o)) && count(tensor_dims(o)) > 0 ==> tensor_strides(o)
                == row_major(tensor_dims(o))
            &&& is_view(array(*t), array(o))
        },
        countable(sizes(dims@)) && countable(tensor_dims(*t)) && count(sizes(dims@)) != count(
            tensor_dims(*t),
        ) ==> r is Err,
        tensor_on_host(*t) && is_plain(tensor_dtype(*t)) && countable(tensor_dims(*t)) && count(
            sizes(dims@),
        ) == count(tensor_dims(*t)) ==> r is Ok,
{
    t.reshape(dims.as_slice())
}

/// `Tensor::reshape` to three dimensions, of which the last is whatever the cells leave over.
#[verifier::external_body]
pub(crate) fn reshape_rest(t: &Tensor, d0: usize, d1: usize) -> (r: Result<
    Tensor,
    candle_core::Error,
>)
    requires
        d0 * d1 <= usize::MAX,
    ensures
        d0 * d1 == 0 ==> r is Err,
        r matches Ok(o) ==> {
            &&& tensor_dims(o).len() == 3
            &&& tensor_dims(o)[0] == d0
            &&& tensor_dims(o)[1] == d1
            &&& countable(tensor_dims(*t)) ==> (d0 * d1) * tensor_dims(o)[2] == count(
                tensor_dims(*t),
            )
            &&& same_kind(o, *t)
            &&& tensor_packed(o)
            &&& is_view(array(*t), array(o))
        },
        tensor_on_host(*t) && is_plain(tensor_dtype(*t)) && countable(tensor_dims(*t)) && d0 * d1
            > 0 && count(tensor_dims(*t)) % ((d0 * d1) as nat) == 0 ==> r is Ok,
{
    t.reshape((d0, d1, ()))
}

/// `Tensor::flatten_from` the last dimension but one: the last two dimensions become one. Candle
/// multiplies the sizes without a check, so their product has to fit in a machine word.
#[verifier::external_body]
pub(crate) fn flatten_last_two(t: &Tensor) -> (r: Result<Tensor, candle_core::Error>)
    requires
        is_spanned(tensor_dims(*t)),
    ensures
        tensor_dims(*t).len() == 1 ==> r is Err,
        r matches Ok(o) ==> {
            &&& same_kind(o, *t)
            &&& tensor_dims(*t).len() == 0 ==> tensor_dims(o) == seq![1nat]
            &&& tensor_dims(*t).len() >= 2 ==> is_flattened(array(*t), array(o))
        },
        tensor_dims(*t).len() >= 2 && tensor_on_host(*t) && is_plain(tensor_dtype(*t)) && countable(
            tensor_dims(*t),
        ) && count(tensor_dims(*t)) > 0 ==> r is Ok,
{
    t.flatten_from(D::Minus2)
}

/// `Tensor::permute`: the dimensions in another order.
#[verifier::external_body]
pub(crate) fn permute(t: &Tensor, order: &Vec<usize>) -> (r: Result<Tensor, candle_core::Error>)
    ensures
        r is Ok <==> is_order(order@, tensor_dims(*t).len()),
        r matches Ok(o) ==> {
            &&& array(o) == permuted(array(*t), order@)
            &&& tensor_strides(o) == Seq::new(
                order@.len(),
                |k: int| tensor_strides(*t)[order@[k] as int],
            )
            &&& tensor_on_host(o) == tensor_on_host(*t)
        },
{
    t.permute(order.as_slice())
}

/// `Tensor::contiguous`: the same cells, packed, so that the leading two of four dimensions can be
/// walked with one stride. Candle multiplies the sizes without a check, so their product has to fit
/// in a machine word.
#[verifier::external_body]
pub(crate) fn contiguous(t: &Tensor) -> (r: Result<Tensor, candle_core::Error>)
    requires
        is_spanned(tensor_dims(*t)),
    ensures
        r matches Ok(o) ==> {
            &&& array(o) == array(*t)
            &&& alike(o, *t)
            &&& tensor_packed(o)
            &&& tensor_strides(o).len() == tensor_dims(o).len()
            &&& tensor_dims(o).len() == 4 && count(tensor_dims(o)) > 0 ==> walks_evenly(o)
        },
        tensor_on_host(*t) && is_plain(tensor_dtype(*t)) ==> r is Ok,
{
    t.contiguous()
}

/// `Tensor::transpose`: two dimensions swapped.
#[verifier::external_body]
pub(crate) fn transpose(t: &Tensor, d1: usize, d2: usize) -> (r: Result<
    Tensor,
    candle_core::Error,
>)
    ensures
        r is Ok <==> (d1 < tensor_dims(*t).len() && d2 < tensor_dims(*t).len()),
        r matches Ok(o) ==> {
            &&& array(o) == transposed(array(*t), d1 as int, d2 as int)
            &&& tensor_strides(o) == swapped(tensor_strides(*t), d1 as int, d2 as int)
            &&& tensor_on_host(o) == tensor_on_host(*t)
        },
{
    t.transpose(d1, d2)
}

/// `Tensor::unsqueeze`: one more dimension, of size one.
#[verifier::external_body]
pub(crate) fn unsqueeze(t: &Tensor, dim: usize) -> (r: Result<Tensor, candle_core::Error>)
    ensures
        r is Ok <==> dim <= tensor_dims(*t).len(),
        r matches Ok(o) ==> {
            &&& array(o) == unsqueezed(array(*t), dim as int)
            &&& tensor_on_host(o) == tensor_on_host(*t)
            &&& tensor_packed(*t) ==> tensor_packed(o)
        },
{
    t.unsqueeze(dim)
}

/// `Tensor::repeat`: the tensor laid out again and again along each dimension. Candle multiplies
/// the sizes without a check, so they have to fit in a machine word, and panics on a tensor without
/// cells that starts behind the end of its buffer.
#[verifier::external_body]
pub(crate) fn repeat(t: &Tensor, reps: &Vec<usize>) -> (r: Result<Tensor, candle_core::Error>)
    requires
        is_readable(*t),
        is_spanned(repeated(array(*t), reps@).dims),
    ensures
        r matches Ok(o) ==> {
            &&& same_kind(o, *t)
            &&& is_repeated(array(*t), reps@, array(o))
            &&& tensor_dims(*t).len() < reps@.len() ==> tensor_packed(o)
            &&& is_readable(o)
        },
        tensor_on_host(*t) && is_plain(tensor_dtype(*t)) && countable(tensor_dims(*t)) && countable(
            repeated(array(*t), reps@).dims,
        ) && count(repeated(array(*t), reps@).dims) > 0 ==> r is Ok,
{
    t.repeat(reps.as_slice())
}

/// `Tensor::index_select`: the slices that a vector of numbers lists. Numbers outside of the
/// dimension are refused in host memory, except for the largest `u32`, which selects zeros. Candle
/// multiplies the sizes without a check, so they have to fit in a machine word, and panics where
/// one of the two has no cells and starts behind the end of its buffer.
#[verifier::external_body]
pub(crate) fn index_select(t: &Tensor, ids: &Tensor, dim: usize) -> (r: Result<
    Tensor,
    candle_core::Error,
>)
    requires
        is_readable(*t),
        is_readable(*ids),
        dim < tensor_dims(*t).len() && tensor_dims(*ids).len() == 1 ==> is_spanned(
            tensor_dims(*t).update(dim as int, tensor_dims(*ids)[0]),
        ),
    ensures
        r matches Ok(o) ==> {
            &&& dim < tensor_dims(*t).len()
            &&& tensor_dims(*ids).len() == 1
            &&& is_picked(array(*t), array(*ids), dim as int, array(o))
            &&& same_kind(o, *t)
            &&& tensor_packed(o)
            &&& is_readable(o)
        },
        dim >= tensor_dims(*t).len() || tensor_dims(*ids).len() != 1 ==> r is Err,
        dim < tensor_dims(*t).len() && tensor_dims(*ids).len() == 1 && tensor_on_host(*t)
            && tensor_on_host(*ids) && tensor_packed(*t) && is_plain(tensor_dtype(*t))
            && tensor_dtype(*ids) is U32 && ids_below(array(*ids), tensor_dims(*t)[dim as int])
            && countable(tensor_dims(*t)) && countable(
            tensor_dims(*t).update(dim as int, tensor_dims(*ids)[0]),
        ) && count(tensor_dims(*t)) > 0 ==> r is Ok,
{
    t.index_select(ids, dim)
}

/// `Tensor::affine`: every cell times one double plus another, both given as tensors of no
/// dimensions. Integer cells are left out, since candle computes with them without a check.
#[verifier::external_body]
pub(crate) fn affine(t: &Tensor, scale: &Tensor, offset: &Tensor) -> (r: Result<
    Tensor,
    candle_core::Error,
>)
    requires
        is_float(tensor_dtype(*t)),
    ensures
        r matches Ok(o) ==> {
            &&& alike(o, *t)
            &&& tensor_packed(*t) ==> tensor_packed(o)
            &&& count(tensor_dims(o)) > 0 ==> tensor_packed(o) && tensor_strides(o) == row_major(
                tensor_dims(o),
            )
            &&& affine_gives(
                array(*t),
                scalar_bits(array(*scale)),
                scalar_bits(array(*offset)),
                array(o),
            )
        },
        tensor_on_host(*t) && is_plain(tensor_dtype(*t)) && array(*scale) == double(
            scalar_bits(array(*scale)),
        ) && array(*offset) == double(scalar_bits(array(*offset))) ==> r is Ok,
{
    t.affine(scale.to_scalar()?, offset.to_scalar()?)
}

/// `Tensor::sum`: the sums along one dimension, which disappears. Integer cells are left out,
/// since candle adds them without a check, and so are tensors without cells, on which it may panic.
#[verifier::external_body]
pub(crate) fn sum(t: &Tensor, dim: usize) -> (r: Result<Tensor, candle_core::Error>)
    requires
        is_float(tensor_dtype(*t)),
        count(tensor_dims(*t)) > 0,
    ensures
        r matches Ok(o) ==> {
            &&& dim < tensor_dims(*t).len()
            &&& tensor_dims(o) == tensor_dims(*t).remove(dim as int)
            &&& same_kind(o, *t)
            &&& tensor_packed(o)
            &&& sum_gives(array(*t), dim as nat, array(o))
        },
        dim >= tensor_dims(*t).len() ==> r is Err,
        dim < tensor_dims(*t).len() && tensor_on_host(*t) && is_plain(tensor_dtype(*t)) ==> r is Ok,
{
    t.sum(dim)
}

/// `Tensor::sum_keepdim`: the sums along one dimension, which becomes one. Integer cells are left
/// out, since candle adds them without a check, and so are tensors without cells, on which it may
/// panic.
#[verifier::external_body]
pub(crate) fn sum_keepdim(t: &Tensor, dim: usize) -> (r: Result<Tensor, candle_core::Error>)
    requires
        is_float(tensor_dtype(*t)),
        count(tensor_dims(*t)) > 0,
    ensures
        r matches Ok(o) ==> {
            &&& dim < tensor_dims(*t).len()
            &&& tensor_dims(o) == tensor_dims(*t).update(dim as int, 1)
            &&& same_kind(o, *t)
            &&& sum_keepdim_gives(array(*t), dim as nat, array(o))
        },
        dim >= tensor_dims(*t).len() ==> r is Err,
        dim < tensor_dims(*t).len() && tensor_on_host(*t) && is_plain(tensor_dtype(*t)) ==> r is Ok,
{
    t.sum_keepdim(dim)
}

/// `Tensor::mean`: the means along one dimension, which disappears. Integer cells are left out,
/// since candle adds them without a check, and so are tensors without cells, on which it may panic.
#[verifier::external_body]
pub(crate) fn mean(t: &Tensor, dim: usize) -> (r: Result<Tensor, candle_core::Error>)
    requires
        is_float(tensor_dtype(*t)),
        count(tensor_dims(*t)) > 0,
    ensures
        r matches Ok(o) ==> {
            &&& dim < tensor_dims(*t).len()
            &&& tensor_dims(o) == tensor_dims(*t).remove(dim as int)
            &&& same_kind(o, *t)
            &&& tensor_packed(o)
            &&& mean_gives(array(*t), dim as nat, array(o))
        },
        dim >= tensor_dims(*t).len() ==> r is Err,
        dim < tensor_dims(*t).len() && tensor_on_host(*t) && is_plain(tensor_dtype(*t)) ==> r is Ok,
{
    t.mean(dim)
}

/// `candle_nn::ops::softmax` along the last dimension of a tensor whose strides are those of its
/// shape. It panics on integers. A tensor without cells is refused or panics on, and so is left
/// out, as is a last dimension of stride zero, by which it divides.
#[verifier::external_body]
pub(crate) fn softmax(t: &Tensor, dim: usize) -> (r: Result<Tensor, candle_core::Error>)
    requires
        is_float(tensor_dtype(*t)),
        tensor_packed(*t),
        tensor_strides(*t) == row_major(tensor_dims(*t)),
        tensor_dims(*t).len() == dim + 1,
        count(tensor_dims(*t)) > 0,
    ensures
        r matches Ok(o) ==> {
            &&& alike(o, *t)
            &&& countable(tensor_dims(o)) && count(tensor_dims(o)) > 0 ==> tensor_strides(o)
                == row_major(tensor_dims(o))
            &&& softmax_gives(array(*t), dim as nat, array(o))
        },
        tensor_on_host(*t) && countable(tensor_dims(*t)) && (tensor_dtype(*t) is BF16
            || has_host_matmul(tensor_dtype(*t))) ==> r is Ok,
{
    candle_nn::ops::softmax(t, dim)
}

/// `Tensor::from_raw_buffer`: the tensor of no dimensions that holds eight bytes, taken as a
/// double or as a signed integer.
#[verifier::external_body]
pub(crate) fn scalar(bits: u64, dtype: DType) -> (r: Result<Tensor, candle_core::Error>)
    requires
        dtype is F64 || dtype is I64,
    ensures
        r is Ok,
        r matches Ok(o) ==> {
            &&& tensor_dims(o) == Seq::<nat>::empty()
            &&& tensor_dtype(o) == dtype
            &&& tensor_at(o, seq![]) == bits
            &&& tensor_on_host(o)
        },
{
    Tensor::from_raw_buffer(&bits.to_ne_bytes(), dtype, &[], &Device::Cpu)
}

/// `Tensor::from_vec`: the vector of these numbers. Candle takes any size and does not compare it
/// with the data, so the size has to be that of the data.
#[verifier::external_body]
pub(crate) fn from_vec(data: Vec<u32>, len: usize, device: &Device) -> (r: Result<
    Tensor,
    candle_core::Error,
>)
    requires
        data@.len() == len,
    ensures
        r matches Ok(o) ==> {
            &&& array(o) == vector(data@)
            &&& tensor_packed(o)
            &&& tensor_starts_inside(o)
            &&& tensor_on_host(o) == device_is_cpu(*device)
        },
        device_is_cpu(*device) ==> r is Ok,
{
    Tensor::from_vec(data, len, device)
}

/// `Tensor::ones`: a vector of ones. Candle panics on the types that are not plain.
#[verifier::external_body]
pub(crate) fn ones(len: usize, dtype: DType, device: &Device) -> (r: Result<
    Tensor,
    candle_core::Error,
>)
    requires
        is_plain(dtype),
    ensures
        r matches Ok(o) ==> {
            &&& tensor_dims(o) == seq![len as nat]
            &&& tensor_dtype(o) == dtype
            &&& tensor_packed(o)
            &&& tensor_on_host(o) == device_is_cpu(*device)
        },
        device_is_cpu(*device) ==> r is Ok,
        r matches Ok(o) ==> array(o) == ones_array(len as nat, dtype),
{
    Tensor::ones(len, dtype, device)
}

/// `Tensor::zeros`: a vector of zeros.
#[verifier::external_body]
pub(crate) fn zeros(len: usize, dtype: DType, device: &Device) -> (r: Result<
    Tensor,
    candle_core::Error,
>)
    requires
        is_plain(dtype),
    ensures
        r matches Ok(o) ==> {
            &&& array(o) == zeros_array(len as nat, dtype)
            &&& tensor_packed(o)
            &&& tensor_on_host(o) == device_is_cpu(*device)
        },
        device_is_cpu(*device) ==> r is Ok,
{
    Tensor::zeros(len, dtype, device)
}

/// `candle_nn::Linear::forward`: the product of the input with the transposed weight, without a
/// bias. In host memory the product exists for inputs of two dimensions, and for inputs of three
/// where the leading two are not empty. Candle multiplies the sizes of the outcome without a check,
/// so they have to fit in a machine word.
#[verifier::external_body]
pub(crate) fn linear(weight: &Tensor, x: &Tensor) -> (r: Result<Tensor, candle_core::Error>)
    requires
        tensor_dims(*weight).len() >= 2 && tensor_dims(*x).len() >= 2 ==> is_spanned(
            tensor_dims(*x).drop_last().push(
                tensor_dims(*weight)[tensor_dims(*weight).len() - 2],
            ),
        ),
    ensures
        r matches Ok(o) ==> {
            &&& tensor_dims(*weight).len() >= 2
            &&& tensor_dims(*x).len() >= 2
            &&& tensor_dims(o) == tensor_dims(*x).drop_last().push(
                tensor_dims(*weight)[tensor_dims(*weight).len() - 2],
            )
            &&& same_kind(o, *x)
            &&& tensor_packed(o)
            &&& tensor_starts_inside(o)
            &&& countable(tensor_dims(o)) && count(tensor_dims(o)) > 0 && tensor_dims(*x).last() > 0
                ==> tensor_dims(*x).last() == tensor_dims(*weight).last()
            &&& linear_gives(array(*weight), array(*x), array(o))
        },
        linear_fits(*weight, *x) ==> r is Ok,
{
    candle_nn::Linear::new(weight.clone(), None).forward(x)
}

/// The inputs on which a linear map in host memory succeeds.
pub open spec fn linear_fits(weight: Tensor, x: Tensor) -> bool {
    let dims = tensor_dims(x);
    &&& tensor_on_host(weight)
    &&& tensor_on_host(x)
    &&& tensor_dtype(weight) == tensor_dtype(x)
    &&& has_host_matmul(tensor_dtype(x))
    &&& tensor_dims(weight).len() == 2
    &&& dims.len() == 2 || (dims.len() == 3 && dims[0] * dims[1] > 0)
    &&& dims.last() == tensor_dims(weight)[1]
    &&& countable(dims)
    &&& is_spanned(dims.drop_last().push(tensor_dims(weight)[0]))
}

/// `candle_nn::LayerNorm::forward` with a bias: every row brought to mean zero and variance one,
/// then scaled and shifted. It panics where the rows are empty, on integers that are not packed,
/// and may panic on a tensor without cells that is not packed or starts behind the end of its
/// buffer.
#[verifier::external_body]
pub(crate) fn layer_norm(weight: &Tensor, bias: &Tensor, eps: &Tensor, x: &Tensor) -> (r: Result<
    Tensor,
    candle_core::Error,
>)
    requires
        normalizable(*x),
    ensures
        r matches Ok(o) ==> {
            &&& same_kind(o, *x)
            &&& tensor_dims(*x).len() > 0
            &&& tensor_dims(*weight).len() == 1 && tensor_dims(*bias).len() == 1 ==> tensor_dims(
                o,
            ).len() == tensor_dims(*x).len() && tensor_dims(o).drop_last() == tensor_dims(
                *x,
            ).drop_last()
            &&& tensor_dims(*weight) == seq![tensor_dims(*x).last()] && tensor_dims(*bias)
                == tensor_dims(*weight) ==> tensor_dims(o) == tensor_dims(*x)
            &&& layer_norm_gives(
                array(*weight),
                array(*bias),
                scalar_bits(array(*eps)),
                array(*x),
                array(o),
            )
        },
        norm_fits(*weight, *eps, *x) && norm_fits(*bias, *eps, *x) ==> r is Ok,
{
    candle_nn::LayerNorm::new(weight.clone(), bias.clone(), eps.to_scalar()?).forward(x)
}

/// `candle_nn::RmsNorm::forward`: every row brought to a mean square of one, then scaled. It
/// panics where the rows are empty, on integers that are not packed, and may panic on a tensor
/// without cells that is not packed or starts behind the end of its buffer.
#[verifier::external_body]
pub(crate) fn rms_norm(weight: &Tensor, eps: &Tensor, x: &Tensor) -> (r: Result<
    Tensor,
    candle_core::Error,
>)
    requires
        normalizable(*x),
    ensures
        r matches Ok(o) ==> {
            &&& same_kind(o, *x)
            &&& tensor_dims(*x).len() > 0
            &&& tensor_dims(*weight) == seq![tensor_dims(*x).last()] ==> tensor_dims(o)
                == tensor_dims(*x)
            &&& tensor_packed(*x) ==> tensor_packed(o)
            &&& rms_norm_gives(array(*weight), scalar_bits(array(*eps)), array(*x), array(o))
        },
        norm_fits(*weight, *eps, *x) ==> r is Ok,
{
    candle_nn::RmsNorm::new(weight.clone(), eps.to_scalar()?).forward(x)
}

/// The tensors that a norm over the last dimension takes without a panic.
pub open spec fn normalizable(x: Tensor) -> bool {
    &&& tensor_dims(x).len() > 0 ==> tensor_dims(x).last() > 0
    &&& is_float(tensor_dtype(x)) || tensor_packed(x)
    &&& count(tensor_dims(x)) > 0 || (tensor_packed(x) && tensor_starts_inside(x))
}

/// A weight and an epsilon with which a norm of `x` in host memory succeeds.
pub open spec fn norm_fits(weight: Tensor, eps: Tensor, x: Tensor) -> bool {
    &&& tensor_on_host(weight)
    &&& tensor_on_host(x)
    &&& tensor_packed(weight)
    &&& tensor_packed(x)
    &&& tensor_dtype(weight) == tensor_dtype(x)
    &&& has_host_norm(tensor_dtype(x))
    &&& tensor_dims(x).len() > 0
    &&& tensor_dims(weight) == seq![tensor_dims(x).last()]
    &&& countable(tensor_dims(x))
    &&& array(eps) == double(scalar_bits(array(eps)))
}

/// `candle_nn::Embedding::forward`: the rows of a matrix that the numbers list, under the shape
/// of the numbers followed by the row's size. Candle multiplies the sizes without a check, so their
/// product has to fit in a machine word. It panics where one of the two tensors has no cells and
/// starts behind the end of its buffer.
#[verifier::external_body]
pub(crate) fn embedding(weight: &Tensor, hidden_size: usize, ids: &Tensor) -> (r: Result<
    Tensor,
    candle_core::Error,
>)
    requires
        tensor_dims(*weight).len() == 2,
        tensor_dims(*weight)[1] == hidden_size,
        is_spanned(tensor_dims(*ids).push(hidden_size as nat)),
        is_readable(*weight),
        is_readable(*ids),
    ensures
        r matches Ok(o) ==> {
            &&& tensor_dims(o) == tensor_dims(*ids).push(hidden_size as nat)
            &&& same_kind(o, *weight)
            &&& tensor_packed(o)
            &&& tensor_starts_inside(o)
            &&& is_embedded(array(*weight), array(*ids), array(o))
        },
        tensor_on_host(*weight) && tensor_on_host(*ids) && tensor_packed(*weight) && is_plain(
            tensor_dtype(*weight),
        ) && tensor_dtype(*ids) is U32 && tensor_dims(*ids).len() == 1 && ids_below(
            array(*ids),
            tensor_dims(*weight)[0],
        ) && countable(tensor_dims(*weight)) && tensor_dims(*ids)[0] * hidden_size <= usize::MAX
            ==> r is Ok,
{
    candle_nn::Embedding::new(weight.clone(), hidden_size).forward(ids)
}

} // verus!
