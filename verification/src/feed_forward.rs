//! The gated feed-forward part of the latent attention.
use crate::array::{
    chunk_len, chunk_of, chunk_start, count, countable, is_float, is_plain, is_spanned, join,
    joinable, law_joining_undoes_narrowing, law_narrowing_undoes_joining, lemma_slice_of_nothing,
    well_formed, Array,
};
use crate::error::{lift, ModelError};
use crate::layers::{expect_float, is_operation_error, Linear};
use crate::ops::{self, linear_fits, linear_gives};
use crate::tensor::{
    array, gelu_gives, mul_gives, same_kind, tensor_dims, tensor_dtype, tensor_on_host,
    tensor_packed,
};
use crate::weights::{has_matrix, holds_matrix, matrix_fails, weights_start_inside, Weights};
use candle_core::Tensor;
use vstd::prelude::*;

verus! {

/// The two halves of the last dimension of a tensor.
pub fn halves(t: &Tensor) -> (r: Result<(Tensor, Tensor), ModelError>)
    ensures
        r is Ok <==> (tensor_dims(*t).len() > 0 && tensor_dims(*t).last() >= 2),
        r matches Ok((first, second)) ==> {
            &&& array(first) == chunk_of(array(*t), 2, 0)
            &&& array(second) == chunk_of(array(*t), 2, 1)
            &&& tensor_dims(first) == tensor_dims(*t).drop_last().push(
                chunk_len(tensor_dims(*t).last(), 2, 0),
            )
            &&& tensor_dims(second) == tensor_dims(*t).drop_last().push(
                chunk_len(tensor_dims(*t).last(), 2, 1),
            )
            &&& tensor_dtype(first) == tensor_dtype(*t)
            &&& tensor_dtype(second) == tensor_dtype(*t)
            &&& tensor_on_host(first) == tensor_on_host(*t)
            &&& tensor_on_host(second) == tensor_on_host(*t)
        },
        r matches Err(e) ==> (if tensor_dims(*t).len() == 0 {
            e is Candle
        } else {
            e matches ModelError::NotTwoChunks { got } && got == tensor_dims(*t).last()
        }),
{
    let mut chunks: Vec<Tensor> = lift(ops::chunk_last(t, 2))?;
    if chunks.len() != 2 {
        return Err(ModelError::NotTwoChunks { got: chunks.len() });
    }
    let ghost all = chunks@;
    match (chunks.pop(), chunks.pop()) {
        (Some(second), Some(first)) => {
            assert(second == all[1] && first == all[0]);
            let ghost size = tensor_dims(*t).last();
            assert(tensor_dims(first) =~= tensor_dims(*t).drop_last().push(chunk_len(size, 2, 0)));
            assert(tensor_dims(second) =~= tensor_dims(*t).drop_last().push(chunk_len(size, 2, 1)));
            Ok((first, second))
        },
        _ => Err(ModelError::NotTwoChunks { got: 0 }),
    }
}

/// The gated linear unit with the gaussian error as its gate.
pub struct GEGLU {}

/// `out` is an outcome of the gated linear unit on `x`: the first half of the last dimension times
/// the activated second half.
pub open spec fn geglu_run(x: Array, out: Array) -> bool {
    exists|gate: Array|
        {
            &&& #[trigger] gelu_gives(chunk_of(x, 2, 1), gate)
            &&& mul_gives(chunk_of(x, 2, 0), gate, out)
            &&& gate.dims == chunk_of(x, 2, 1).dims
            &&& out.dims == gate.dims
            &&& out.dims == halved(x.dims)
            &&& x.dims.len() > 0
            &&& x.dims.last() >= 2
        }
}

/// The shape of a gated linear unit of a tensor.
pub open spec fn halved(dims: Seq<nat>) -> Seq<nat> {
    dims.drop_last().push(chunk_len(dims.last(), 2, 0))
}

impl GEGLU {
    /// The first half of the last dimension times the activated second half. Outside of host memory
    /// it is not known what the activation of integers is.
    pub fn forward(x: &Tensor) -> (r: Result<Tensor, ModelError>)
        requires
            is_float(tensor_dtype(*x)) || tensor_on_host(*x) || count(tensor_dims(*x)) == 0,
        ensures
            r matches Ok(o) ==> {
                &&& tensor_dims(*x).len() > 0
                &&& tensor_dims(*x).last() >= 2
                &&& tensor_dims(*x).last() % 2 == 0
                &&& geglu_run(array(*x), array(o))
                &&& tensor_dims(o) == halved(tensor_dims(*x))
                &&& same_kind(o, *x)
            },
            r matches Err(e) ==> (if tensor_dims(*x).len() > 0 && tensor_dims(*x).last() < 2 {
                e matches ModelError::NotTwoChunks { got } && got == tensor_dims(*x).last()
            } else {
                e is Candle
            }),
            tensor_dims(*x).len() > 0 && tensor_dims(*x).last() >= 2 && tensor_dims(*x).last() % 2
                == 0 && tensor_on_host(*x) && is_plain(tensor_dtype(*x)) ==> r is Ok,
    {
        let (first, gates) = halves(x)?;
        let gates: Tensor = lift(gates.gelu())?;
        proof {
            let size = tensor_dims(*x).last();
            let last = tensor_dims(*x).len() - 1;
            assert(tensor_dims(first)[last] == chunk_len(size, 2, 0));
            assert(tensor_dims(gates)[last] == chunk_len(size, 2, 1));
            if size % 2 == 0 {
                assert(tensor_dims(first) =~= tensor_dims(gates));
            }
            assert(tensor_dims(first) =~= halved(tensor_dims(*x)));
            assert(tensor_dtype(gates) == array(gates).dtype);
            assert(array(gates).dims == tensor_dims(gates));
            if count(tensor_dims(*x)) == 0 {
                assert(tensor_dims(first) =~= tensor_dims(*x).update(last, chunk_len(size, 2, 0)));
                lemma_slice_of_nothing(tensor_dims(*x), last, chunk_len(size, 2, 0));
            }
        }
        lift(first.mul(&gates))
    }
}

/// A projection, a gated linear unit, and a projection back.
pub struct FeedForward {
    pub net_w1: Linear,
    pub net_w2: Linear,
}

impl FeedForward {
    /// The part that is stored at this place. A weight has one row for each feature that comes out
    /// of its projection.
    pub open spec fn is_stored(self, vb: Weights, dim: nat, mult: nat) -> bool {
        &&& holds_matrix(vb, "net.0"@, dim * mult * 2, dim, array(self.net_w1.weight))
        &&& holds_matrix(vb, "net.2"@, dim, dim * mult, array(self.net_w2.weight))
    }

    /// The part is stored at this place.
    pub open spec fn is_there(vb: Weights, dim: nat, mult: nat) -> bool {
        exists|ff: Self| #[trigger] ff.is_stored(vb, dim, mult)
    }

    /// `e` says why the first weight that failed was not read from this place.
    pub open spec fn is_refused(vb: Weights, dim: nat, mult: nat, e: ModelError) -> bool {
        ||| matrix_fails(vb, "net.0"@, dim * mult * 2, dim, e)
        ||| has_matrix(vb, "net.0"@, dim * mult * 2, dim) && matrix_fails(
            vb,
            "net.2"@,
            dim,
            dim * mult,
            e,
        )
    }

    /// Reads the weights of the part from this place.
    pub fn load(vb: &Weights, dim: usize, mult: usize) -> (r: Result<Self, ModelError>)
        requires
            dim * mult * 2 <= usize::MAX,
            dim > 0 && mult > 0 || weights_start_inside(*vb),
        ensures
            r matches Ok(ff) ==> ff.is_stored(*vb, dim as nat, mult as nat),
            r matches Err(e) ==> Self::is_refused(*vb, dim as nat, mult as nat, e),
    {
        let inner_dim: usize = dim * mult;
        assert(dim > 0 && mult > 0 ==> dim * mult > 0) by (nonlinear_arith);
        let w1: Tensor = vb.matrix("net.0", inner_dim * 2, dim)?;
        let w2: Tensor = vb.matrix("net.2", dim, inner_dim)?;
        Ok(FeedForward { net_w1: Linear::new(w1), net_w2: Linear::new(w2) })
    }

    /// `out` is an outcome of the part on `x`.
    pub open spec fn runs(self, x: Array, out: Array) -> bool {
        exists|wide: Array, gated: Array|
            {
                &&& #[trigger] linear_gives(array(self.net_w1.weight), x, wide)
                &&& #[trigger] geglu_run(wide, gated)
                &&& linear_gives(array(self.net_w2.weight), gated, out)
                &&& wide.dims == x.dims.drop_last().push(self.net_w1.outputs())
                &&& out.dims == x.dims.drop_last().push(self.net_w2.outputs())
            }
    }

    /// States of integers whose projection has cells.
    pub open spec fn multiplies_integers(self, x: Tensor) -> bool {
        &&& !is_float(tensor_dtype(x))
        &&& count(tensor_dims(x).drop_last().push(self.net_w1.outputs())) > 0
    }

    /// The shape after the gated linear unit.
    pub open spec fn gated_dims(self, dims: Seq<nat>) -> Seq<nat> {
        halved(dims.drop_last().push(self.net_w1.outputs()))
    }

    /// The states on which the part in host memory succeeds.
    pub open spec fn fits(self, x: Tensor) -> bool {
        let wide = tensor_dims(self.net_w1.weight);
        let back = tensor_dims(self.net_w2.weight);
        &&& linear_fits(self.net_w1.weight, x)
        &&& wide[0] >= 2
        &&& wide[0] % 2 == 0
        &&& tensor_on_host(self.net_w2.weight)
        &&& tensor_dtype(self.net_w2.weight) == tensor_dtype(x)
        &&& back.len() == 2
        &&& back[1] == wide[0] / 2
        &&& countable(self.gated_dims(tensor_dims(x)))
        &&& is_spanned(tensor_dims(x).drop_last().push(back[0]))
    }

    /// The projected gated linear unit of the projected states.
    pub fn forward(&self, x: &Tensor) -> (r: Result<Tensor, ModelError>)
        ensures
            self.multiplies_integers(*x) ==> r is Err,
            r matches Ok(o) ==> {
                &&& self.runs(array(*x), array(o))
                &&& tensor_dims(o) == tensor_dims(*x).drop_last().push(self.net_w2.outputs())
                &&& same_kind(o, *x)
                &&& tensor_packed(o)
                &&& !self.net_w1.misfits(*x)
            },
            r matches Err(e) ==> is_operation_error(e) || (e is IntegerStates
                && self.multiplies_integers(*x))
                || (e matches ModelError::NotTwoChunks { got } && got
                == self.net_w1.outputs() && got < 2),
            self.fits(*x) ==> r is Ok,
    {
        let wide: Tensor = self.net_w1.forward(x)?;
        expect_float(&wide)?;
        let gated: Tensor = GEGLU::forward(&wide)?;
        proof {
            assert(tensor_dims(wide).drop_last() =~= tensor_dims(*x).drop_last());
            assert(tensor_dims(gated).drop_last() =~= tensor_dims(*x).drop_last());
            if self.fits(*x) {
                assert(linear_fits(self.net_w2.weight, gated));
            }
        }
        self.net_w2.forward(&gated)
    }
}

/// The gated linear unit of two tensors that were joined along the last dimension is the first one
/// times the activated second one.
pub proof fn law_unit_of_joined_halves(a: Array, b: Array, out: Array)
    requires
        well_formed(a),
        well_formed(b),
        a.dims.len() > 0,
        a.dims.last() > 0,
        a.dims == b.dims,
        a.dtype == b.dtype,
    ensures
        geglu_run(join(a, b, a.dims.len() - 1), out) <==> exists|gate: Array|
            {
                &&& #[trigger] gelu_gives(b, gate)
                &&& mul_gives(a, gate, out)
                &&& gate.dims == a.dims
                &&& out.dims == a.dims
            },
{
    let last = a.dims.len() - 1;
    let x = join(a, b, last);
    let size = a.dims.last();
    assert(joinable(a, b, last));
    law_narrowing_undoes_joining(a, b, last);
    assert(x.dims.last() == size + size);
    assert(chunk_len(2 * size, 2, 0) == size);
    assert(chunk_len(2 * size, 2, 1) == size);
    assert(chunk_start(2 * size, 2, 0) == 0);
    assert(chunk_start(2 * size, 2, 1) == size);
    assert(chunk_of(x, 2, 0) == a);
    assert(chunk_of(x, 2, 1) == b);
    assert(halved(x.dims) =~= a.dims);
}

/// The two halves of the last dimension are all of it.
pub proof fn law_halves_are_all(x: Array)
    requires
        well_formed(x),
        x.dims.len() > 0,
        x.dims.last() >= 2,
    ensures
        join(chunk_of(x, 2, 0), chunk_of(x, 2, 1), x.dims.len() - 1) == x,
{
    let size = x.dims.last();
    let cut = chunk_len(size, 2, 0);
    assert(chunk_start(size, 2, 1) == cut);
    assert(chunk_len(size, 2, 1) == size - cut);
    law_joining_undoes_narrowing(x, x.dims.len() - 1, cut, size);
}

} // verus!
