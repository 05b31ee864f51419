//! What the library relies on of `candle_core::Tensor` and of the layers of `candle_nn`.
//!
//! A tensor is known by its shape, its element type, the bits of its cells, whether it lies in
//! host memory, and whether its cells are packed in row-major order. Candle writes into the cells
//! of an existing tensor only through `Var` and through in-place operations; nothing here does.
//!
//! An operation that moves cells is described exactly. An operation that computes with floating
//! point gives bits that depend on the machine, so a predicate `.._gives(arguments, out)` says
//! that `out` is an outcome of that operation on those arguments, on whatever device it ran;
//! the shape and the element type of the outcome are stated beside it.
//!
//! Candle multiplies the sizes of a shape without a check. What is said of the cells of a reshaped
//! or joined tensor is therefore said of shapes whose number of cells fits in a machine word; no
//! other tensor with cells can exist. That memory can be had is taken for granted.
use crate::array::{
    count, countable, filled, has_host_matmul, is_convertible, is_float, is_plain, is_spanned,
    multiplied, products_fit, row_major, sizes, zeroed, Array,
};
use candle_core::{DType, Device, Tensor};
use vstd::prelude::*;

verus! {

/// A tensor of candle: a reference-counted, shaped view of a buffer of cells.
#[verifier::external_type_specification]
#[verifier::external_body]
pub struct ExTensor(candle_core::Tensor);

/// The error that candle's operations return.
#[verifier::external_type_specification]
#[verifier::external_body]
pub struct ExError(candle_core::Error);

/// Where tensors live and are computed with.
#[verifier::external_type_specification]
#[verifier::external_body]
pub struct ExDevice(candle_core::Device);

/// The element types of candle.
#[verifier::external_type_specification]
pub struct ExDType(candle_core::DType);

/// The size of a tensor along each dimension.
pub uninterp spec fn tensor_dims(t: Tensor) -> Seq<nat>;

/// The element type of a tensor.
pub uninterp spec fn tensor_dtype(t: Tensor) -> DType;

/// The bits of the cell at an index.
pub uninterp spec fn tensor_at(t: Tensor, i: Seq<nat>) -> u64;

/// Whether a tensor lies in host memory.
pub uninterp spec fn tensor_on_host(t: Tensor) -> bool;

/// `Tensor::is_contiguous`: whether the cells of a tensor follow each other in row-major order. The
/// stride of a dimension of size one or zero does not matter.
pub uninterp spec fn tensor_packed(t: Tensor) -> bool;

/// Whether a tensor starts inside its buffer or at the end of it. Only a slice without cells can
/// start behind the end.
pub uninterp spec fn tensor_starts_inside(t: Tensor) -> bool;

/// The distances between the cells of a tensor along each dimension.
pub uninterp spec fn tensor_strides(t: Tensor) -> Seq<nat>;

/// Whether a device is host memory.
pub uninterp spec fn device_is_cpu(d: Device) -> bool;

/// Whether a device is a CUDA device.
pub uninterp spec fn device_is_cuda(d: Device) -> bool;

/// A tensor as a value.
pub open spec fn array(t: Tensor) -> Array {
    filled(tensor_dims(t), tensor_dtype(t), |i: Seq<nat>| tensor_at(t, i))
}

/// `o` has the element type and the memory of `x`.
pub open spec fn same_kind(o: Tensor, x: Tensor) -> bool {
    tensor_dtype(o) == tensor_dtype(x) && tensor_on_host(o) == tensor_on_host(x)
}

/// `o` has the shape, the element type and the memory of `x`.
pub open spec fn alike(o: Tensor, x: Tensor) -> bool {
    tensor_dims(o) == tensor_dims(x) && same_kind(o, x)
}

/// A tensor with cells, or one that starts inside its buffer. Candle panics where it cuts the
/// buffer of any other tensor.
pub open spec fn is_readable(t: Tensor) -> bool {
    count(tensor_dims(t)) > 0 || tensor_starts_inside(t)
}

/// `out` is an outcome of `Tensor::gelu` on `x`.
pub uninterp spec fn gelu_gives(x: Array, out: Array) -> bool;

/// `out` is an outcome of `Tensor::relu` on `x`.
pub uninterp spec fn relu_gives(x: Array, out: Array) -> bool;

/// `out` is an outcome of `Tensor::silu` on `x`.
pub uninterp spec fn silu_gives(x: Array, out: Array) -> bool;

/// `out` is an outcome of `Tensor::sqr` on `x`.
pub uninterp spec fn sqr_gives(x: Array, out: Array) -> bool;

/// `out` is an outcome of `Tensor::sqrt` on `x`.
pub uninterp spec fn sqrt_gives(x: Array, out: Array) -> bool;

/// `out` is an outcome of `Tensor::recip` on `x`.
pub uninterp spec fn recip_gives(x: Array, out: Array) -> bool;

/// `out` is an outcome of `Tensor::add` on `x` and `y`.
pub uninterp spec fn add_gives(x: Array, y: Array, out: Array) -> bool;

/// `out` is an outcome of `Tensor::mul` on `x` and `y`.
pub uninterp spec fn mul_gives(x: Array, y: Array, out: Array) -> bool;

/// `out` is an outcome of `Tensor::div` on `x` and `y`.
pub uninterp spec fn div_gives(x: Array, y: Array, out: Array) -> bool;

/// `out` is an outcome of `Tensor::matmul` on `x` and `y`.
pub uninterp spec fn matmul_gives(x: Array, y: Array, out: Array) -> bool;

/// `out` is an outcome of `Tensor::to_dtype` on `x` with the element type `d`.
pub uninterp spec fn cast_gives(x: Array, d: DType, out: Array) -> bool;

/// `Tensor::dims`: the sizes of the dimensions.
pub assume_specification[ Tensor::dims ](t: &Tensor) -> (r: &[usize])
    ensures
        sizes(r@) == tensor_dims(*t),
;

/// `Tensor::dtype`: the element type.
pub assume_specification[ Tensor::dtype ](t: &Tensor) -> (r: DType)
    ensures
        r == tensor_dtype(*t),
;

/// `Tensor::clone`: another reference to the same buffer, with the same layout.
pub assume_specification[ <Tensor as Clone>::clone ](t: &Tensor) -> (r: Tensor)
    ensures
        alike(r, *t),
        tensor_packed(r) == tensor_packed(*t),
        tensor_starts_inside(r) == tensor_starts_inside(*t),
        forall|i: Seq<nat>| tensor_at(r, i) == tensor_at(*t, i),
        array(r) == array(*t),
;

/// `Tensor::gelu`: the gaussian error linear unit of every cell. In host memory it exists for
/// every plain type, and gives zeros for integers.
pub assume_specification[ Tensor::gelu ](t: &Tensor) -> (r: candle_core::Result<Tensor>)
    ensures
        r matches Ok(o) ==> alike(o, *t) && gelu_gives(array(*t), array(o)),
        r matches Ok(o) ==> tensor_on_host(*t) && !is_float(tensor_dtype(*t)) ==> array(o)
            == zeroed(array(*t)),
        tensor_on_host(*t) && is_plain(tensor_dtype(*t)) ==> r is Ok,
;

/// `Tensor::relu`: the positive part of every cell. In host memory it exists for every plain
/// type.
pub assume_specification[ Tensor::relu ](t: &Tensor) -> (r: candle_core::Result<Tensor>)
    ensures
        r matches Ok(o) ==> alike(o, *t) && relu_gives(array(*t), array(o)),
        tensor_on_host(*t) && is_plain(tensor_dtype(*t)) ==> r is Ok,
;

/// `Tensor::silu`: the sigmoid linear unit of every cell. In host memory it exists for every
/// plain type.
pub assume_specification[ Tensor::silu ](t: &Tensor) -> (r: candle_core::Result<Tensor>)
    ensures
        r matches Ok(o) ==> alike(o, *t) && silu_gives(array(*t), array(o)),
        tensor_on_host(*t) && is_plain(tensor_dtype(*t)) ==> r is Ok,
;

/// `Tensor::sqr`: the square of every cell. Candle panics where the cells are integers.
pub assume_specification[ Tensor::sqr ](t: &Tensor) -> (r: candle_core::Result<Tensor>)
    requires
        is_float(tensor_dtype(*t)),
    ensures
        r matches Ok(o) ==> alike(o, *t) && sqr_gives(array(*t), array(o)),
        tensor_on_host(*t) && is_plain(tensor_dtype(*t)) ==> r is Ok,
;

/// `Tensor::sqrt`: the square root of every cell. Candle panics where the cells are integers.
pub assume_specification[ Tensor::sqrt ](t: &Tensor) -> (r: candle_core::Result<Tensor>)
    requires
        is_float(tensor_dtype(*t)),
    ensures
        r matches Ok(o) ==> alike(o, *t) && sqrt_gives(array(*t), array(o)),
        tensor_on_host(*t) && is_plain(tensor_dtype(*t)) ==> r is Ok,
;

/// `Tensor::recip`: the reciprocal of every cell. Candle panics where the cells are integers.
pub assume_specification[ Tensor::recip ](t: &Tensor) -> (r: candle_core::Result<Tensor>)
    requires
        is_float(tensor_dtype(*t)),
    ensures
        r matches Ok(o) ==> alike(o, *t) && recip_gives(array(*t), array(o)),
        tensor_on_host(*t) && is_plain(tensor_dtype(*t)) ==> r is Ok,
;

/// `Tensor::add`: the sums of the cells of two tensors of one shape. The outcome is packed where
/// the first is. Integer cells are left out, since candle adds them without a check.
pub assume_specification[ Tensor::add ](t: &Tensor, rhs: &Tensor) -> (r: candle_core::Result<
    Tensor,
>)
    requires
        is_float(tensor_dtype(*t)),
    ensures
        r matches Ok(o) ==> {
            &&& tensor_dims(*rhs) == tensor_dims(*t)
            &&& alike(o, *t)
            &&& tensor_packed(*t) ==> tensor_packed(o)
            &&& tensor_starts_inside(*t) ==> tensor_starts_inside(o)
            &&& add_gives(array(*t), array(*rhs), array(o))
        },
        alike(*t, *rhs) && tensor_on_host(*t) && is_plain(tensor_dtype(*t)) ==> r is Ok,
;

/// `Tensor::mul`: the products of the cells of two tensors of one shape. Candle multiplies integer
/// cells without a check, so their products have to fit, as they do where there are no cells or
/// where the second factors are zero.
pub assume_specification[ Tensor::mul ](t: &Tensor, rhs: &Tensor) -> (r: candle_core::Result<
    Tensor,
>)
    requires
        is_float(tensor_dtype(*t)) || count(tensor_dims(*t)) == 0 || array(*rhs) == zeroed(
            array(*rhs),
        ) || (tensor_dtype(*t) is U32 && products_fit(array(*t), array(*rhs))),
    ensures
        r matches Ok(o) ==> {
            &&& tensor_dims(*rhs) == tensor_dims(*t)
            &&& alike(o, *t)
            &&& mul_gives(array(*t), array(*rhs), array(o))
            &&& tensor_dtype(*t) is U32 && tensor_dtype(*rhs) is U32 && products_fit(
                array(*t),
                array(*rhs),
            ) ==> array(o) == multiplied(
                array(*t),
                array(*rhs),
            )
        },
        alike(*t, *rhs) && tensor_on_host(*t) && is_plain(tensor_dtype(*t)) ==> r is Ok,
;

/// `Tensor::div`: the quotients of the cells of two tensors of one shape. Integer cells are left
/// out, since candle panics where one is divided by zero.
pub assume_specification[ Tensor::div ](t: &Tensor, rhs: &Tensor) -> (r: candle_core::Result<
    Tensor,
>)
    requires
        is_float(tensor_dtype(*t)),
    ensures
        r matches Ok(o) ==> {
            &&& tensor_dims(*rhs) == tensor_dims(*t)
            &&& alike(o, *t)
            &&& tensor_packed(*t) ==> tensor_packed(o)
            &&& div_gives(array(*t), array(*rhs), array(o))
        },
        alike(*t, *rhs) && tensor_on_host(*t) && is_plain(tensor_dtype(*t)) ==> r is Ok,
;

/// The leading dimensions of a tensor can be walked with one stride.
pub open spec fn walks_evenly(t: Tensor) -> bool {
    let dims = tensor_dims(t);
    let strides = tensor_strides(t);
    ||| dims.len() <= 3
    ||| dims.len() == 4 && (strides[0] == strides[1] * dims[1] || dims[0] == 1 || dims[1] == 1)
}

/// The inputs on which a matrix product in host memory succeeds.
pub open spec fn matmul_fits(t: Tensor, rhs: Tensor) -> bool {
    let dims = tensor_dims(t);
    let other = tensor_dims(rhs);
    let rank = dims.len() as int;
    &&& tensor_on_host(t)
    &&& tensor_on_host(rhs)
    &&& tensor_dtype(rhs) == tensor_dtype(t)
    &&& has_host_matmul(tensor_dtype(t))
    &&& rank >= 2
    &&& other.len() == rank
    &&& other.take(rank - 2) == dims.take(rank - 2)
    &&& other[rank - 2] == dims[rank - 1]
    &&& count(dims) > 0
    &&& count(other) > 0
    &&& countable(dims)
    &&& countable(other)
    &&& countable(dims.drop_last().push(other.last()))
    &&& walks_evenly(t)
    &&& walks_evenly(rhs)
}

/// `Tensor::matmul`: the matrix products over the last two dimensions, for equal ranks of at least
/// two. In host memory candle refuses four dimensions whose leading two have no common stride. It
/// multiplies the sizes of the outcome without a check, so they have to fit in a machine word.
pub assume_specification[ Tensor::matmul ](t: &Tensor, rhs: &Tensor) -> (r: candle_core::Result<
    Tensor,
>)
    requires
        tensor_dims(*t).len() >= 2 && tensor_dims(*rhs).len() >= 2 ==> is_spanned(
            tensor_dims(*t).drop_last().push(tensor_dims(*rhs).last()),
        ),
    ensures
        r matches Ok(o) ==> {
            &&& tensor_dims(*t).len() >= 2
            &&& tensor_dims(*rhs).len() == tensor_dims(*t).len()
            &&& tensor_dims(o) == tensor_dims(*t).drop_last().push(tensor_dims(*rhs).last())
            &&& same_kind(o, *t)
            &&& tensor_packed(o)
            &&& countable(tensor_dims(o)) && count(tensor_dims(o)) > 0 ==> tensor_strides(o)
                == row_major(tensor_dims(o))
            &&& matmul_gives(array(*t), array(*rhs), array(o))
        },
        matmul_fits(*t, *rhs) ==> r is Ok,
;

/// `Tensor::to_dtype`: the cells converted to another element type, or the tensor itself where it
/// has that type. A packed tensor stays packed. In host memory the common types are converted into
/// each other. Candle panics on a slice without cells that starts behind the end of its buffer.
pub assume_specification[ Tensor::to_dtype ](t: &Tensor, dtype: DType) -> (r: candle_core::Result<
    Tensor,
>)
    requires
        is_readable(*t),
    ensures
        r matches Ok(o) ==> {
            &&& tensor_dims(o) == tensor_dims(*t)
            &&& tensor_dtype(o) == dtype
            &&& tensor_on_host(o) == tensor_on_host(*t)
            &&& tensor_packed(*t) ==> tensor_packed(o)
            &&& cast_gives(array(*t), dtype, array(o))
        },
        tensor_dtype(*t) == dtype ==> r is Ok && array(r->Ok_0) == array(*t),
        tensor_on_host(*t) && is_convertible(tensor_dtype(*t)) && is_convertible(dtype) ==> r is Ok,
;

/// `Device::is_cuda`: whether the device is a CUDA device.
pub assume_specification[ Device::is_cuda ](d: &Device) -> (r: bool)
    ensures
        r == device_is_cuda(*d),
;

} // verus!
