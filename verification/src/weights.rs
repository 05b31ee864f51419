//! The weights of a checkpoint.
use crate::array::{count, is_spanned, lemma_cells, lemma_span_front, sizes, span, Array};
use crate::error::{lift, ModelError};
use crate::tensor::{array, device_is_cuda, is_readable, tensor_dims, tensor_starts_inside};
use candle_core::{DType, Device, Tensor};
use vstd::prelude::*;

verus! {

/// A place in a tree of named tensors: a `candle_nn::VarBuilder`.
#[verifier::external_body]
pub struct Weights {
    pub builder: candle_nn::VarBuilder<'static>,
}

/// Which tree of tensors, on which device, this is a place in.
pub uninterp spec fn weights_source(w: Weights) -> nat;

/// The names of the steps from the root of the tree to this place.
pub uninterp spec fn weights_path(w: Weights) -> Seq<Seq<char>>;

/// The element type that tensors are handed out with.
pub uninterp spec fn weights_dtype(w: Weights) -> DType;

/// The device that tensors are put on.
pub uninterp spec fn weights_device(w: Weights) -> Device;

/// Whether every tensor of the tree starts inside its buffer. Only a tensor without cells can do
/// otherwise.
pub uninterp spec fn weights_start_inside(w: Weights) -> bool;

/// Whether tensors are put on a CUDA device.
pub open spec fn weights_on_cuda(w: Weights) -> bool {
    device_is_cuda(weights_device(w))
}

/// `out` is an outcome of `VarBuilder::get` with this name and these sizes, at this path of this
/// source, with this element type.
pub uninterp spec fn var_gives(
    source: nat,
    path: Seq<Seq<char>>,
    dtype: DType,
    name: Seq<char>,
    dims: Seq<nat>,
    out: Array,
) -> bool;

/// `e` is an error of `VarBuilder::get` with this name and these sizes, at this path of this
/// source, with this element type.
pub uninterp spec fn var_fails(
    source: nat,
    path: Seq<Seq<char>>,
    dtype: DType,
    name: Seq<char>,
    dims: Seq<nat>,
    e: candle_core::Error,
) -> bool;

/// `answer` is an outcome of `VarBuilder::contains_tensor` with this name, at this path of this
/// source.
pub uninterp spec fn var_has(
    source: nat,
    path: Seq<Seq<char>>,
    name: Seq<char>,
    answer: bool,
) -> bool;

/// `w` is the place one step below `from`.
pub open spec fn is_below(from: Weights, step: Seq<char>, w: Weights) -> bool {
    &&& weights_source(w) == weights_source(from)
    &&& weights_path(w) == weights_path(from).push(step)
    &&& weights_dtype(w) == weights_dtype(from)
    &&& weights_device(w) == weights_device(from)
    &&& weights_start_inside(w) == weights_start_inside(from)
}

/// `out` is a tensor that the place `path` below `w` holds under this name, with these sizes.
pub open spec fn holds(
    w: Weights,
    path: Seq<Seq<char>>,
    name: Seq<char>,
    dims: Seq<nat>,
    out: Array,
) -> bool {
    &&& var_gives(
        weights_source(w),
        weights_path(w) + path,
        weights_dtype(w),
        name,
        dims,
        out,
    )
    &&& out.dims == dims
}

/// `out` is the matrix of this size that is the weight of the layer one step below `w`.
pub open spec fn holds_matrix(
    w: Weights,
    layer: Seq<char>,
    rows: nat,
    columns: nat,
    out: Array,
) -> bool {
    holds(w, seq![layer], "weight"@, seq![rows, columns], out)
}

/// There is such a matrix.
pub open spec fn has_matrix(w: Weights, layer: Seq<char>, rows: nat, columns: nat) -> bool {
    exists|out: Array| #[trigger] holds_matrix(w, layer, rows, columns, out)
}

/// `e` says why the tensor of this name, `path` below `w`, was not read: a machine word cannot
/// count its cells, it was not to be had, or it had another shape than was asked for.
pub open spec fn fails(
    w: Weights,
    path: Seq<Seq<char>>,
    name: Seq<char>,
    dims: Seq<nat>,
    e: ModelError,
) -> bool {
    let place = weights_path(w) + path;
    let dtype = weights_dtype(w);
    ||| e matches ModelError::TooManyCells { dims: found } && sizes(found@) == dims && !is_spanned(
        dims,
    )
    ||| e matches ModelError::Candle(inner) && var_fails(
        weights_source(w),
        place,
        dtype,
        name,
        dims,
        inner,
    )
    ||| e matches ModelError::UnexpectedWeight { dims: found } && exists|out: Array|
        {
            &&& #[trigger] var_gives(weights_source(w), place, dtype, name, dims, out)
            &&& out.dims == sizes(found@)
            &&& out.dims != dims
        }
}

/// `e` says why the matrix that is the weight of the layer one step below `w` was not read.
pub open spec fn matrix_fails(
    w: Weights,
    layer: Seq<char>,
    rows: nat,
    columns: nat,
    e: ModelError,
) -> bool {
    fails(w, seq![layer], "weight"@, seq![rows, columns], e)
}

/// `VarBuilder::pp`: the place one step further down.
#[verifier::external_body]
pub(crate) fn step(w: &Weights, name: &str) -> (r: Weights)
    ensures
        weights_start_inside(r) == weights_start_inside(*w),
        is_below(*w, name@, r),
{
    Weights { builder: w.builder.pp(name) }
}

/// `VarBuilder::dtype`: the element type of the tensors.
#[verifier::external_body]
pub(crate) fn element_type(w: &Weights) -> (r: DType)
    ensures
        r == weights_dtype(*w),
{
    w.builder.dtype()
}

/// `VarBuilder::device`: where the tensors are put.
#[verifier::external_body]
pub(crate) fn device_of(w: &Weights) -> (r: Device)
    ensures
        r == weights_device(*w),
{
    w.builder.device().clone()
}

/// `VarBuilder::contains_tensor`: whether there is a tensor of this name. What is stored decides.
#[verifier::external_body]
pub(crate) fn contains(w: &Weights, name: &str) -> (r: bool)
    ensures
        var_has(weights_source(*w), weights_path(*w), name@, r),
{
    w.builder.contains_tensor(name)
}

/// `VarBuilder::get`: the tensor of this name. What is stored decides whether there is one; the
/// shape and the element type that come back are the storage's own affair. Where a tensor without
/// cells is asked for, it may be a slice that starts behind the end of its buffer, which candle
/// panics on. The sizes are multiplied without a check where the tensor is made on the spot.
#[verifier::external_body]
fn fetch(w: &Weights, dims: &Vec<usize>, name: &str) -> (r: Result<Tensor, candle_core::Error>)
    requires
        is_spanned(sizes(dims@)),
        count(sizes(dims@)) > 0 || weights_start_inside(*w),
    ensures
        r matches Ok(o) ==> weights_start_inside(*w) ==> tensor_starts_inside(o),
        r matches Ok(o) ==> var_gives(
            weights_source(*w),
            weights_path(*w),
            weights_dtype(*w),
            name@,
            sizes(dims@),
            array(o),
        ),
        r matches Err(e) ==> var_fails(
            weights_source(*w),
            weights_path(*w),
            weights_dtype(*w),
            name@,
            sizes(dims@),
            e,
        ),
{
    w.builder.get(dims.as_slice(), name)
}

/// Whether two element types are the same.
pub fn same_dtype(a: DType, b: DType) -> (r: bool)
    ensures
        r == (a == b),
{
    match (a, b) {
        (DType::U8, DType::U8) => true,
        (DType::U32, DType::U32) => true,
        (DType::I16, DType::I16) => true,
        (DType::I32, DType::I32) => true,
        (DType::I64, DType::I64) => true,
        (DType::BF16, DType::BF16) => true,
        (DType::F16, DType::F16) => true,
        (DType::F32, DType::F32) => true,
        (DType::F64, DType::F64) => true,
        (DType::F8E4M3, DType::F8E4M3) => true,
        (DType::F6E2M3, DType::F6E2M3) => true,
        (DType::F6E3M2, DType::F6E3M2) => true,
        (DType::F4, DType::F4) => true,
        (DType::F8E8M0, DType::F8E8M0) => true,
        _ => false,
    }
}

/// Whether the shape of a tensor is this one.
fn has_dims(t: &Tensor, dims: &Vec<usize>) -> (r: bool)
    ensures
        r == (tensor_dims(*t) == sizes(dims@)),
{
    let found: &[usize] = t.dims();
    if found.len() != dims.len() {
        assert(sizes(found@).len() != sizes(dims@).len());
        return false;
    }
    let mut k: usize = 0;
    while k < dims.len()
        invariant
            k <= dims@.len(),
            found@.len() == dims@.len(),
            sizes(found@) == tensor_dims(*t),
            forall|j: int| 0 <= j < k ==> found@[j] == dims@[j],
        decreases dims@.len() - k,
    {
        if found[k] != dims[k] {
            assert(sizes(found@)[k as int] != sizes(dims@)[k as int]);
            return false;
        }
        k = k + 1;
    }
    assert(found@ =~= dims@);
    true
}

/// The sizes of a tensor.
pub fn dims_of(t: &Tensor) -> (r: Vec<usize>)
    ensures
        sizes(r@) == tensor_dims(*t),
{
    let found: &[usize] = t.dims();
    let mut dims: Vec<usize> = Vec::new();
    let mut k: usize = 0;
    while k < found.len()
        invariant
            k <= found@.len(),
            dims@ =~= found@.take(k as int),
        decreases found@.len() - k,
    {
        dims.push(found[k]);
        k = k + 1;
    }
    assert(dims@ =~= found@);
    dims
}

/// Whether whatever is multiplied of these sizes fits in a machine word.
pub fn is_countable(dims: &Vec<usize>) -> (r: bool)
    ensures
        r == is_spanned(sizes(dims@)),
{
    let mut product: usize = 1;
    let mut k: usize = 0;
    while k < dims.len()
        invariant
            k <= dims@.len(),
            product == span(sizes(dims@).take(k as int)),
        decreases dims@.len() - k,
    {
        proof {
            let next = sizes(dims@).take(k + 1);
            assert(next.drop_last() =~= sizes(dims@).take(k as int));
            assert(next.last() == dims@[k as int]);
            lemma_span_front(sizes(dims@), k + 1);
        }
        if dims[k] > 0 {
            match product.checked_mul(dims[k]) {
                Some(longer) => {
                    product = longer;
                },
                None => {
                    return false;
                },
            }
        }
        k = k + 1;
    }
    assert(sizes(dims@).take(k as int) =~= sizes(dims@));
    true
}

/// An error where a machine word cannot count the cells of this shape.
pub fn expect_countable(dims: &Vec<usize>) -> (r: Result<(), ModelError>)
    ensures
        r is Ok <==> is_spanned(sizes(dims@)),
        r matches Err(e) ==> (e matches ModelError::TooManyCells { dims: shape } && shape@
            == dims@),
{
    if is_countable(dims) {
        return Ok(());
    }
    let mut shape: Vec<usize> = Vec::new();
    let mut k: usize = 0;
    while k < dims.len()
        invariant
            k <= dims@.len(),
            shape@ =~= dims@.take(k as int),
        decreases dims@.len() - k,
    {
        shape.push(dims[k]);
        k = k + 1;
    }
    assert(shape@ =~= dims@);
    Err(ModelError::TooManyCells { dims: shape })
}

/// `t` if it has these sizes.
pub fn expect(t: Tensor, dims: &Vec<usize>) -> (r: Result<Tensor, ModelError>)
    ensures
        r is Ok <==> tensor_dims(t) == sizes(dims@),
        r matches Ok(o) ==> o == t,
        r matches Err(e) ==> (e matches ModelError::UnexpectedWeight { dims: d } && sizes(d@)
            == tensor_dims(t)),
{
    if has_dims(&t, dims) {
        Ok(t)
    } else {
        Err(ModelError::UnexpectedWeight { dims: dims_of(&t) })
    }
}

impl Weights {
    /// The tensor of this name at this place, with these sizes.
    pub fn tensor(&self, dims: &Vec<usize>, name: &str) -> (r: Result<Tensor, ModelError>)
        requires
            count(sizes(dims@)) > 0 || weights_start_inside(*self),
        ensures
            r matches Ok(o) ==> {
                &&& tensor_dims(o) == sizes(dims@)
                &&& is_readable(o)
                &&& holds(*self, seq![], name@, sizes(dims@), array(o))
            },
            r matches Err(e) ==> fails(*self, seq![], name@, sizes(dims@), e),
    {
        assert(weights_path(*self) + Seq::<Seq<char>>::empty() =~= weights_path(*self));
        expect_countable(dims)?;
        let found: Tensor = lift(fetch(self, dims, name))?;
        assert(array(found).dims == tensor_dims(found));
        expect(found, dims)
    }

    /// The matrix that is the weight of the layer of this name, with these sizes.
    pub fn matrix(&self, layer: &str, rows: usize, columns: usize) -> (r: Result<
        Tensor,
        ModelError,
    >)
        requires
            rows > 0 && columns > 0 || weights_start_inside(*self),
        ensures
            r matches Ok(o) ==> {
                &&& tensor_dims(o) == seq![rows as nat, columns as nat]
                &&& is_readable(o)
                &&& holds_matrix(*self, layer@, rows as nat, columns as nat, array(o))
                &&& has_matrix(*self, layer@, rows as nat, columns as nat)
            },
            r matches Err(e) ==> matrix_fails(
                *self,
                layer@,
                rows as nat,
                columns as nat,
                e,
            ),
    {
        let place: Weights = step(self, layer);
        let dims: Vec<usize> = vec![rows, columns];
        proof {
            assert(sizes(dims@) =~= seq![rows as nat, columns as nat]);
            lemma_cells(sizes(dims@));
            assert(weights_path(place) + Seq::<Seq<char>>::empty() =~= weights_path(*self)
                + seq![layer@]);
        }
        let found: Tensor = place.tensor(&dims, "weight")?;
        assert(holds_matrix(*self, layer@, rows as nat, columns as nat, array(found)));
        Ok(found)
    }
}

} // verus!
