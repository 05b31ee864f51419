//! The layers that the models are built of.
use crate::array::{
    count, countable, double, filled, has_host_matmul, ids_below, in_bounds, is_embedded, is_float,
    is_picked, is_plain, is_spanned, is_view, is_widened, lemma_cells, lemma_count_three,
    lemma_count_two, lemma_span, lemma_span_two, ones_array, padded, repeated, row_major,
    scalar_bits, sizes, times, vector, widened, zeros_array, Array,
};
use crate::error::{lift, ModelError};
use crate::ops::{
    self, layer_norm_gives, linear_fits, linear_gives, norm_fits, normalizable, rms_norm_gives,
};
use crate::tensor::{
    add_gives, alike, array, cast_gives, device_is_cpu, is_readable, recip_gives, same_kind,
    sqrt_gives, tensor_at, tensor_dims, tensor_dtype, tensor_on_host, tensor_packed,
    tensor_starts_inside, tensor_strides,
};
use crate::weights::{dims_of, expect_countable, fails, holds, weights_start_inside, Weights};
use candle_core::{DType, Device, Tensor};
use vstd::prelude::*;

verus! {

/// An error of an operation on tensors: one of candle, or an outcome that a machine word cannot
/// count.
pub open spec fn is_operation_error(e: ModelError) -> bool {
    ||| e is Candle
    ||| e matches ModelError::TooManyCells { dims } && !is_spanned(sizes(dims@))
}

/// A linear map without a bias.
pub struct Linear {
    pub weight: Tensor,
}

impl Linear {
    /// The map with this weight.
    pub fn new(weight: Tensor) -> (r: Self)
        ensures
            r.weight == weight,
    {
        Linear { weight }
    }

    /// How many features come out.
    pub open spec fn outputs(self) -> nat {
        tensor_dims(self.weight)[tensor_dims(self.weight).len() - 2]
    }

    /// The rows of `x` are not as wide as those of the weight, and something would come out.
    pub open spec fn misfits(self, x: Tensor) -> bool {
        let out = tensor_dims(x).drop_last().push(self.outputs());
        &&& tensor_dims(x).last() > 0
        &&& tensor_dims(x).last() != tensor_dims(self.weight).last()
        &&& countable(out)
        &&& count(out) > 0
    }

    /// The product of the rows of `x` with the transposed weight.
    pub fn forward(&self, x: &Tensor) -> (r: Result<Tensor, ModelError>)
        ensures
            r matches Ok(o) ==> {
                &&& tensor_dims(self.weight).len() >= 2
                &&& tensor_dims(*x).len() >= 2
                &&& tensor_dims(o) == tensor_dims(*x).drop_last().push(self.outputs())
                &&& same_kind(o, *x)
                &&& tensor_packed(o)
                &&& tensor_starts_inside(o)
                &&& !self.misfits(*x)
                &&& linear_gives(array(self.weight), array(*x), array(o))
            },
            r matches Err(e) ==> is_operation_error(e),
            linear_fits(self.weight, *x) ==> r is Ok,
    {
        let mut dims: Vec<usize> = dims_of(x);
        let rows: Vec<usize> = dims_of(&self.weight);
        proof {
            assert(sizes(dims@).len() == dims@.len());
            assert(sizes(rows@).len() == rows@.len());
        }
        if dims.len() >= 2 && rows.len() >= 2 {
            let _ = dims.pop();
            assert(sizes(rows@)[rows@.len() - 2] == rows@[rows@.len() - 2]);
            dims.push(rows[rows.len() - 2]);
            assert(sizes(dims@) =~= tensor_dims(*x).drop_last().push(self.outputs()));
            expect_countable(&dims)?;
        }
        lift(ops::linear(&self.weight, x))
    }
}

/// A linear map of the rows of a matrix in host memory succeeds where the sizes fit.
pub proof fn lemma_linear_fits(weight: Tensor, x: Tensor)
    requires
        tensor_on_host(weight),
        tensor_on_host(x),
        tensor_dtype(weight) == tensor_dtype(x),
        has_host_matmul(tensor_dtype(x)),
        tensor_dims(weight).len() == 2,
        tensor_dims(x).len() == 2,
        tensor_dims(x)[0] > 0,
        tensor_dims(x)[1] > 0,
        tensor_dims(x)[1] == tensor_dims(weight)[1],
        tensor_dims(x)[0] * tensor_dims(x)[1] <= usize::MAX,
        tensor_dims(x)[0] * tensor_dims(weight)[0] <= usize::MAX,
    ensures
        linear_fits(weight, x),
{
    lemma_count_two(tensor_dims(x));
    let (a, b, c) = (tensor_dims(x)[0], tensor_dims(x)[1], tensor_dims(weight)[0]);
    assert(a <= a * b && c <= a * c) by (nonlinear_arith)
        requires
            a > 0,
            b > 0,
    ;
    lemma_span_two(a, c);
    assert(tensor_dims(x).drop_last().push(c) =~= seq![a, c]);
}

/// A linear map of the rows of a stack of matrices in host memory succeeds where the sizes fit.
pub proof fn lemma_linear_fits_stack(weight: Tensor, x: Tensor)
    requires
        tensor_on_host(weight),
        tensor_on_host(x),
        tensor_dtype(weight) == tensor_dtype(x),
        has_host_matmul(tensor_dtype(x)),
        tensor_dims(weight).len() == 2,
        tensor_dims(x).len() == 3,
        tensor_dims(x)[0] > 0,
        tensor_dims(x)[1] > 0,
        tensor_dims(weight)[0] > 0,
        tensor_dims(x)[2] == tensor_dims(weight)[1],
        tensor_dims(x)[0] * tensor_dims(x)[1] * tensor_dims(x)[2] <= usize::MAX,
        tensor_dims(x)[0] * tensor_dims(x)[1] * tensor_dims(weight)[0] <= usize::MAX,
    ensures
        linear_fits(weight, x),
{
    lemma_count_three(tensor_dims(x));
    let out = tensor_dims(x).drop_last().push(tensor_dims(weight)[0]);
    lemma_count_three(out);
    lemma_cells(out);
    lemma_span(out);
    let (a, b) = (tensor_dims(x)[0], tensor_dims(x)[1]);
    assert(a * b > 0) by (nonlinear_arith)
        requires
            a > 0,
            b > 0,
    ;
}

/// A tensor that holds one double.
pub open spec fn is_number(t: Tensor) -> bool {
    array(t) == double(scalar_bits(array(t))) && tensor_on_host(t)
}

proof fn lemma_is_number(t: Tensor)
    requires
        tensor_dims(t) == Seq::<nat>::empty(),
        tensor_dtype(t) is F64,
        tensor_on_host(t),
    ensures
        is_number(t),
{
    assert forall|i: Seq<nat>| i.len() == 0 implies #[trigger] tensor_at(t, i) == tensor_at(
        t,
        seq![],
    ) by {
        assert(i =~= seq![]);
    }
    assert(array(t) =~= double(scalar_bits(array(t))));
}

/// The tensor of no dimensions that holds the double of these bits.
pub fn number(bits: u64) -> (r: Result<Tensor, ModelError>)
    ensures
        r is Ok,
        r matches Ok(o) ==> is_number(o) && scalar_bits(array(o)) == bits,
{
    let o: Tensor = lift(ops::scalar(bits, DType::F64))?;
    proof {
        lemma_is_number(o);
    }
    Ok(o)
}

/// The array of no dimensions that holds one signed integer.
pub open spec fn integer(n: u64) -> Array {
    filled(seq![], DType::I64, |i: Seq<nat>| n)
}

/// `out` is the reciprocal of the square root of `n`, computed in double precision and rounded to
/// single precision.
pub open spec fn is_inverse_sqrt(n: u64, out: Array) -> bool {
    exists|wide: Array, root: Array, inverse: Array, narrow: Array|
        {
            &&& #[trigger] cast_gives(integer(n), DType::F64, wide)
            &&& #[trigger] sqrt_gives(wide, root)
            &&& #[trigger] recip_gives(root, inverse)
            &&& #[trigger] cast_gives(inverse, DType::F32, narrow)
            &&& cast_gives(narrow, DType::F64, out)
        }
}

/// The scale of an attention whose heads have this size.
pub fn inverse_sqrt(n: usize) -> (r: Result<Tensor, ModelError>)
    requires
        n <= i64::MAX,
    ensures
        r is Ok,
        r matches Ok(o) ==> is_inverse_sqrt(n as u64, array(o)) && is_number(o),
{
    let whole: Tensor = lift(ops::scalar(n as u64, DType::I64))?;
    proof {
        assert forall|i: Seq<nat>| i.len() == 0 implies #[trigger] tensor_at(whole, i)
            == n as u64 by {
            assert(i =~= seq![]);
        }
        assert(array(whole) =~= integer(n as u64));
    }
    let wide: Tensor = lift(whole.to_dtype(DType::F64))?;
    let root: Tensor = lift(wide.sqrt())?;
    let inverse: Tensor = lift(root.recip())?;
    let narrow: Tensor = lift(inverse.to_dtype(DType::F32))?;
    let scale: Tensor = lift(narrow.to_dtype(DType::F64))?;
    proof {
        lemma_is_number(scale);
    }
    Ok(scale)
}

/// A norm that brings every row to a mean square of one and then scales it.
pub struct RMSNorm {
    pub weight: Tensor,
    pub epsilon: Tensor,
}

/// `sum` is `x` plus the residual, where there is one.
pub open spec fn is_residual_sum(x: Array, residual: Option<Array>, sum: Array) -> bool {
    match residual {
        Some(y) => add_gives(x, y, sum),
        None => sum == x,
    }
}

/// The value of an optional tensor.
pub open spec fn array_opt(t: Option<Tensor>) -> Option<Array> {
    match t {
        Some(t) => Some(array(t)),
        None => None,
    }
}

/// `normed` and `sum` are an outcome of the norm on `x` and the residual.
pub open spec fn rms_run(
    norm: RMSNorm,
    x: Array,
    residual: Option<Array>,
    normed: Array,
    sum: Array,
) -> bool {
    &&& is_residual_sum(x, residual, sum)
    &&& sum.dims == x.dims
    &&& norm.norms(x.dims.last()) ==> normed.dims == x.dims
    &&& rms_norm_gives(array(norm.weight), scalar_bits(array(norm.epsilon)), sum, normed)
}

impl RMSNorm {
    /// The norm over rows of this size.
    pub open spec fn norms(self, size: nat) -> bool {
        &&& tensor_dims(self.weight) == seq![size]
        &&& is_number(self.epsilon)
    }

    /// The norm that is stored at this place.
    pub open spec fn is_stored(self, vb: Weights, size: nat, epsilon: u64) -> bool {
        &&& self.norms(size)
        &&& scalar_bits(array(self.epsilon)) == epsilon
        &&& holds(vb, seq![], "weight"@, seq![size], array(self.weight))
    }

    /// The norm is stored at this place.
    pub open spec fn is_there(vb: Weights, size: nat, epsilon: u64) -> bool {
        exists|norm: Self| #[trigger] norm.is_stored(vb, size, epsilon)
    }

    /// `e` says why the norm was not read from this place.
    pub open spec fn is_refused(vb: Weights, size: nat, e: ModelError) -> bool {
        fails(vb, seq![], "weight"@, seq![size], e)
    }

    /// The norm whose weight is stored at this place; `epsilon` gives the bits of a double.
    pub fn load(vb: &Weights, hidden_size: usize, epsilon: u64) -> (r: Result<Self, ModelError>)
        requires
            hidden_size > 0 || weights_start_inside(*vb),
        ensures
            r matches Ok(norm) ==> norm.is_stored(*vb, hidden_size as nat, epsilon),
            r matches Err(e) ==> Self::is_refused(*vb, hidden_size as nat, e),
    {
        let dims: Vec<usize> = vec![hidden_size];
        proof {
            assert(sizes(dims@) =~= seq![hidden_size as nat]);
            lemma_cells(sizes(dims@));
        }
        let weight: Tensor = vb.tensor(&dims, "weight")?;
        let epsilon: Tensor = number(epsilon)?;
        Ok(RMSNorm { weight, epsilon })
    }

    /// The norm of the sum of `x` and the residual, and that sum.
    pub fn forward(&self, x: &Tensor, residual: Option<&Tensor>) -> (r: Result<
        (Tensor, Tensor),
        ModelError,
    >)
        requires
            normalizable(*x),
            residual is Some ==> is_float(tensor_dtype(*x)),
        ensures
            r matches Ok((normed, sum)) ==> {
                &&& rms_run(
                    *self,
                    array(*x),
                    (match residual {
                        Some(y) => Some(array(*y)),
                        None => None,
                    }),
                    array(normed),
                    array(sum),
                )
                &&& residual matches Some(y) ==> tensor_dims(*y) == tensor_dims(*x)
                &&& alike(sum, *x)
                &&& tensor_packed(*x) ==> tensor_packed(sum)
                &&& same_kind(normed, *x)
                &&& tensor_packed(*x) ==> tensor_packed(normed)
                &&& tensor_dims(*x).len() > 0
                &&& self.norms(tensor_dims(*x).last()) ==> tensor_dims(normed) == tensor_dims(*x)
            },
            r matches Err(e) ==> e is Candle,
            norm_fits(self.weight, self.epsilon, *x) && (residual matches Some(y) ==> alike(*x, *y))
                ==> r is Ok,
    {
        let sum: Tensor = match residual {
            Some(y) => lift(x.add(y))?,
            None => x.clone(),
        };
        let normed: Tensor = lift(ops::rms_norm(&self.weight, &self.epsilon, &sum))?;
        Ok((normed, sum))
    }
}

/// A norm that brings every row to mean zero and variance one, then scales and shifts it.
pub struct LayerNorm {
    pub weight: Tensor,
    pub bias: Tensor,
    pub epsilon: Tensor,
}

/// The bits of the double nearest to a hundred-thousandth.
pub const NORM_EPSILON: u64 = 0x3ee4_f8b5_88e3_68f1;

/// `out` is an outcome of the norm on `x`.
pub open spec fn layer_norm_run(norm: LayerNorm, x: Array, out: Array) -> bool {
    &&& norm.norms(x.dims.last()) ==> out.dims == x.dims
    &&& layer_norm_gives(
        array(norm.weight),
        array(norm.bias),
        scalar_bits(array(norm.epsilon)),
        x,
        out,
    )
}

impl LayerNorm {
    /// The norm over rows of this size.
    pub open spec fn norms(self, size: nat) -> bool {
        &&& tensor_dims(self.weight) == seq![size]
        &&& tensor_dims(self.bias) == seq![size]
        &&& is_number(self.epsilon)
        &&& scalar_bits(array(self.epsilon)) == NORM_EPSILON
    }

    /// The weight and the bias are vectors.
    pub open spec fn is_vector(self) -> bool {
        tensor_dims(self.weight).len() == 1 && tensor_dims(self.bias).len() == 1
    }

    /// The norm scales by one and shifts by zero.
    pub open spec fn is_plain_norm(self, size: nat, dtype: DType) -> bool {
        &&& self.norms(size)
        &&& array(self.weight) == ones_array(size, dtype)
        &&& array(self.bias) == zeros_array(size, dtype)
    }

    /// The norm over rows of this size that scales by one and shifts by zero.
    pub fn new(dim: usize, dtype: DType, device: &Device) -> (r: Result<Self, ModelError>)
        requires
            is_plain(dtype),
        ensures
            r matches Ok(norm) ==> {
                &&& norm.is_plain_norm(dim as nat, dtype)
                &&& tensor_packed(norm.weight)
                &&& tensor_packed(norm.bias)
                &&& tensor_on_host(norm.weight) == device_is_cpu(*device)
                &&& tensor_on_host(norm.bias) == device_is_cpu(*device)
            },
            r matches Err(e) ==> e is Candle,
            device_is_cpu(*device) ==> r is Ok,
    {
        let weight: Tensor = lift(ops::ones(dim, dtype, device))?;
        let bias: Tensor = lift(ops::zeros(dim, dtype, device))?;
        let epsilon: Tensor = number(NORM_EPSILON)?;
        proof {
            assert(array(bias).dims == zeros_array(dim as nat, dtype).dims);
        }
        Ok(LayerNorm { weight, bias, epsilon })
    }

    /// The normed rows of `x`.
    pub fn forward(&self, x: &Tensor) -> (r: Result<Tensor, ModelError>)
        requires
            normalizable(*x),
        ensures
            r matches Ok(o) ==> {
                &&& layer_norm_run(*self, array(*x), array(o))
                &&& same_kind(o, *x)
                &&& tensor_dims(*x).len() > 0
                &&& self.is_vector() ==> tensor_dims(o).len() == tensor_dims(*x).len()
                    && tensor_dims(o).drop_last() == tensor_dims(*x).drop_last()
                &&& self.norms(tensor_dims(*x).last()) ==> tensor_dims(o) == tensor_dims(*x)
            },
            r matches Err(e) ==> e is Candle,
            norm_fits(self.weight, self.epsilon, *x) && norm_fits(self.bias, self.epsilon, *x)
                ==> r is Ok,
    {
        lift(ops::layer_norm(&self.weight, &self.bias, &self.epsilon, x))
    }
}

/// A table with one row per token.
pub struct Embedding {
    pub weight: Tensor,
    pub hidden_size: usize,
}

impl Embedding {
    /// The table is a matrix with rows of this size.
    pub open spec fn is_sized(self) -> bool {
        &&& tensor_dims(self.weight).len() == 2
        &&& tensor_dims(self.weight)[1] == self.hidden_size
    }

    /// The tokens whose rows can be read in host memory.
    pub open spec fn fits(self, ids: Tensor) -> bool {
        &&& self.is_sized()
        &&& tensor_on_host(self.weight)
        &&& tensor_on_host(ids)
        &&& tensor_packed(self.weight)
        &&& is_plain(tensor_dtype(self.weight))
        &&& tensor_dtype(ids) is U32
        &&& tensor_dims(ids).len() == 1
        &&& ids_below(array(ids), tensor_dims(self.weight)[0])
        &&& countable(tensor_dims(self.weight))
        &&& is_spanned(seq![tensor_dims(ids)[0], self.hidden_size as nat])
    }

    /// The rows of these tokens.
    pub fn forward(&self, ids: &Tensor) -> (r: Result<Tensor, ModelError>)
        requires
            self.is_sized(),
            is_readable(self.weight),
            is_readable(*ids),
        ensures
            r matches Ok(o) ==> {
                &&& is_embedded(array(self.weight), array(*ids), array(o))
                &&& same_kind(o, self.weight)
                &&& tensor_packed(o)
                &&& tensor_starts_inside(o)
            },
            !is_spanned(tensor_dims(*ids).push(self.hidden_size as nat)) ==> r is Err,
            r matches Err(e) ==> e is Candle || (e matches ModelError::TooManyCells { dims }
                && sizes(dims@) == tensor_dims(*ids).push(self.hidden_size as nat)
                && !is_spanned(sizes(dims@))),
            self.fits(*ids) ==> r is Ok,
    {
        let mut dims: Vec<usize> = dims_of(ids);
        dims.push(self.hidden_size);
        proof {
            assert(sizes(dims@) =~= tensor_dims(*ids).push(self.hidden_size as nat));
            if self.fits(*ids) {
                assert(sizes(dims@) =~= seq![tensor_dims(*ids)[0], self.hidden_size as nat]);
                lemma_span(sizes(dims@));
                lemma_count_two(sizes(dims@));
            }
        }
        expect_countable(&dims)?;
        lift(ops::embedding(&self.weight, self.hidden_size, ids))
    }
}

/// The same cells under another shape, or an error where the shape does not fit in a machine word.
pub fn reshaped(t: &Tensor, dims: &Vec<usize>) -> (r: Result<Tensor, ModelError>)
    ensures
        r matches Ok(o) ==> {
            &&& is_spanned(sizes(dims@))
            &&& tensor_dims(o) == sizes(dims@)
            &&& same_kind(o, *t)
            &&& tensor_packed(o)
            &&& count(tensor_dims(o)) > 0 ==> tensor_strides(o) == row_major(tensor_dims(o))
            &&& is_view(array(*t), array(o))
            &&& countable(tensor_dims(*t)) ==> count(tensor_dims(o)) == count(tensor_dims(*t))
        },
        r matches Err(e) ==> if is_spanned(sizes(dims@)) {
            e is Candle
        } else {
            e matches ModelError::TooManyCells { dims: shape } && shape@ == dims@
        },
        tensor_on_host(*t) && is_plain(tensor_dtype(*t)) && countable(tensor_dims(*t)) && count(
            sizes(dims@),
        ) == count(tensor_dims(*t)) && is_spanned(sizes(dims@)) ==> r is Ok,
{
    expect_countable(dims)?;
    proof {
        lemma_span(sizes(dims@));
    }
    lift(ops::reshape(t, dims))
}

/// The slices along the first dimension that a vector of numbers lists.
pub fn pick(t: &Tensor, ids: &Tensor) -> (r: Result<Tensor, ModelError>)
    requires
        is_readable(*t),
        is_readable(*ids),
    ensures
        r matches Ok(o) ==> {
            &&& tensor_dims(*t).len() > 0
            &&& tensor_dims(*ids).len() == 1
            &&& is_picked(array(*t), array(*ids), 0, array(o))
            &&& same_kind(o, *t)
            &&& tensor_packed(o)
            &&& is_readable(o)
        },
        r matches Err(e) ==> is_operation_error(e),
        tensor_dims(*t).len() > 0 && tensor_dims(*ids).len() == 1 && tensor_on_host(*t)
            && tensor_on_host(*ids) && tensor_packed(*t) && is_plain(tensor_dtype(*t))
            && tensor_dtype(*ids) is U32 && ids_below(array(*ids), tensor_dims(*t)[0]) && countable(
            tensor_dims(*t),
        ) && is_spanned(tensor_dims(*t).update(0, tensor_dims(*ids)[0])) && count(tensor_dims(*t))
            > 0 ==> r is Ok,
{
    let mut dims: Vec<usize> = dims_of(t);
    let list: Vec<usize> = dims_of(ids);
    proof {
        assert(sizes(dims@).len() == dims@.len());
        assert(sizes(list@).len() == list@.len());
    }
    if dims.len() > 0 && list.len() == 1 {
        dims.set(0, list[0]);
        proof {
            assert(sizes(list@)[0] == list@[0]);
            assert(sizes(dims@) =~= tensor_dims(*t).update(0, tensor_dims(*ids)[0]));
            lemma_span(sizes(dims@));
        }
        expect_countable(&dims)?;
    }
    lift(ops::index_select(t, ids, 0))
}

/// The tensor of these numbers, which have to be as many as expected.
pub fn vector_of(data: Vec<u32>, len: usize, device: &Device) -> (r: Result<Tensor, ModelError>)
    ensures
        data@.len() != len ==> (r matches Err(ModelError::ListLength { got, expected }) && got
            == data@.len() && expected == len),
        r matches Ok(o) ==> {
            &&& data@.len() == len
            &&& array(o) == vector(data@)
            &&& tensor_dims(o) == seq![len as nat]
            &&& tensor_dtype(o) is U32
            &&& tensor_packed(o)
            &&& tensor_starts_inside(o)
            &&& tensor_on_host(o) == device_is_cpu(*device)
        },
        r matches Err(e) ==> data@.len() == len ==> e is Candle,
        data@.len() == len && device_is_cpu(*device) ==> r is Ok,
{
    if data.len() != len {
        return Err(ModelError::ListLength { got: data.len(), expected: len });
    }
    let o: Tensor = lift(ops::from_vec(data, len, device))?;
    assert(tensor_dims(o) == array(o).dims);
    assert(tensor_dtype(o) == array(o).dtype);
    Ok(o)
}

/// Whether a shape has cells.
pub fn has_cells(dims: &Vec<usize>) -> (r: bool)
    ensures
        r == (count(sizes(dims@)) > 0),
{
    proof {
        lemma_cells(sizes(dims@));
    }
    let mut k: usize = 0;
    while k < dims.len()
        invariant
            k <= dims@.len(),
            forall|j: int| 0 <= j < k ==> dims@[j] > 0,
            count(sizes(dims@)) > 0 <==> (forall|j: int|
                0 <= j < sizes(dims@).len() ==> #[trigger] sizes(dims@)[j] > 0),
        decreases dims@.len() - k,
    {
        if dims[k] == 0 {
            assert(sizes(dims@)[k as int] == 0);
            return false;
        }
        k = k + 1;
    }
    true
}

/// Whether the cells of this element type are floating-point numbers.
pub fn is_float_type(d: DType) -> (r: bool)
    ensures
        r == is_float(d),
{
    match d {
        DType::U8 | DType::U32 | DType::I16 | DType::I32 | DType::I64 => false,
        _ => true,
    }
}

/// An error where there are cells and they are integers.
pub fn expect_float(t: &Tensor) -> (r: Result<(), ModelError>)
    ensures
        r is Ok <==> (is_float(tensor_dtype(*t)) || count(tensor_dims(*t)) == 0),
        r matches Err(e) ==> e is IntegerStates,
{
    if !is_float_type(t.dtype()) && has_cells(&dims_of(t)) {
        Err(ModelError::IntegerStates)
    } else {
        Ok(())
    }
}

/// A last dimension of size one, laid out again and again.
pub fn widen(t: &Tensor, width: usize) -> (r: Result<Tensor, ModelError>)
    requires
        tensor_dims(*t).len() > 0,
        tensor_dims(*t).last() == 1,
        width > 0,
        is_readable(*t),
    ensures
        r matches Ok(o) ==> {
            &&& is_widened(array(*t), width as nat, array(o))
            &&& tensor_dims(o) == tensor_dims(*t).update(
                tensor_dims(*t).len() - 1,
                width as nat,
            )
            &&& same_kind(o, *t)
        },
        r matches Err(e) ==> is_operation_error(e),
        tensor_on_host(*t) && is_plain(tensor_dtype(*t)) && countable(tensor_dims(*t)) && countable(
            tensor_dims(*t).update(tensor_dims(*t).len() - 1, width as nat),
        ) && count(tensor_dims(*t)) > 0 ==> r is Ok,
{
    let dims: Vec<usize> = dims_of(t);
    let mut reps: Vec<usize> = Vec::new();
    assert(sizes(dims@).len() == dims@.len());
    while reps.len() < dims.len() - 1
        invariant
            dims@.len() > 0,
            reps@.len() <= dims@.len() - 1,
            forall|k: int| 0 <= k < reps@.len() ==> reps@[k] == 1,
        decreases dims@.len() - 1 - reps@.len(),
    {
        reps.push(1);
    }
    reps.push(width);
    proof {
        lemma_repeating_widens(array(*t), reps@, width as nat);
        assert forall|k: int| 0 <= k < dims@.len() implies tensor_dims(*t)[k] <= usize::MAX by {
            assert(sizes(dims@)[k] == dims@[k]);
        }
        let whole = repeated(array(*t), reps@);
        assert forall|k: int| 0 <= k < whole.dims.len() implies #[trigger] whole.dims[k]
            <= usize::MAX by {
            assert(widened(array(*t), width as nat).dims[k] == whole.dims[k]);
        }
        if count(tensor_dims(*t)) > 0 {
            lemma_widened_count(tensor_dims(*t), width as nat);
        }
    }
    let mut shape: Vec<usize> = dims_of(t);
    let _ = shape.pop();
    shape.push(width);
    proof {
        assert(sizes(shape@) =~= widened(array(*t), width as nat).dims);
        lemma_span(sizes(shape@));
    }
    expect_countable(&shape)?;
    let o: Tensor = lift(ops::repeat(t, &reps))?;
    assert(tensor_dims(o) == array(o).dims);
    Ok(o)
}

proof fn lemma_widened_count(dims: Seq<nat>, width: nat)
    requires
        dims.len() > 0,
        width > 0,
        count(dims) > 0,
    ensures
        count(dims.update(dims.len() - 1, width)) > 0,
{
    let wide = dims.update(dims.len() - 1, width);
    assert(wide.drop_last() =~= dims.drop_last());
    let c = count(dims.drop_last());
    assert(c * dims.last() > 0 ==> c > 0) by (nonlinear_arith);
    assert(c > 0 ==> c * width > 0) by (nonlinear_arith)
        requires
            width > 0,
    ;
}

/// Laying out only the last dimension, of size one, again and again.
pub proof fn lemma_repeating_widens(a: Array, reps: Seq<usize>, width: nat)
    requires
        a.dims.len() > 0,
        a.dims.last() == 1,
        width > 0,
        reps.len() == a.dims.len(),
        reps.last() == width,
        forall|k: int| 0 <= k < reps.len() - 1 ==> reps[k] == 1,
    ensures
        repeated(a, reps) == widened(a, width),
{
    let whole = repeated(a, reps);
    let wide = widened(a, width);
    let last = a.dims.len() - 1;
    assert(padded(a.dims, reps.len()) =~= a.dims);
    assert forall|k: int| 0 <= k < a.dims.len() implies whole.dims[k] == wide.dims[k] by {
        assert(whole.dims[k] == a.dims[k] * times(reps, k));
        assert(a.dims[k] * 1 == a.dims[k] && 1 * width == width);
    }
    assert(whole.dims =~= wide.dims);
    assert forall|i: Seq<nat>| in_bounds(i, wide.dims) implies whole.cells[i] == wide.cells[i] by {
        let n = a.dims.len();
        let f = |k: int| (i[k + n - n] as int % a.dims[k + n - n] as int) as nat;
        let j = Seq::new(n, f);
        assert forall|k: int| 0 <= k < n implies j[k] == i.update(last, 0)[k] by {
            if k < last {
                vstd::arithmetic::div_mod::lemma_small_mod(i[k], a.dims[k]);
            }
        }
        assert(j =~= i.update(last, 0));
    }
    assert(whole.cells =~= wide.cells);
}

} // verus!
