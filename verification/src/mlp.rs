//! The feed-forward part of a layer of the language model.
use crate::array::{
    count, countable, has_host_matmul, is_float, is_joined, is_plain, join, joinable,
    law_joining_undoes_narrowing, law_narrowing_undoes_joining, lemma_count_two, lemma_joined_two,
    lemma_slice_of_nothing, lemma_span_two, narrowed, sizes, well_formed, Array,
};
use crate::config::{HiddenAct, NVEmbedConfig};
use crate::error::{lift, ModelError};
use crate::layers::{expect_float, is_operation_error, lemma_linear_fits, Linear};
use crate::ops::{self, arrays, linear_gives};
use crate::tensor::{
    array, gelu_gives, is_readable, mul_gives, relu_gives, same_kind, silu_gives, tensor_dims,
    tensor_dtype, tensor_on_host, tensor_packed, tensor_starts_inside,
};
use crate::weights::{
    dims_of, expect_countable, has_matrix, holds_matrix, matrix_fails, weights_start_inside,
    Weights,
};
use candle_core::Tensor;
use vstd::prelude::*;

verus! {

/// Two projections of which one gates the other, and a projection back.
pub struct BidirectionalMistralMLP {
    pub gate_up_proj: Linear,
    pub down_proj: Linear,
    pub act: HiddenAct,
    pub intermediate_size: usize,
}

/// `out` is an outcome of the activation on `x`.
pub open spec fn activated(act: HiddenAct, x: Array, out: Array) -> bool {
    match act {
        HiddenAct::Gelu => gelu_gives(x, out),
        HiddenAct::Relu => relu_gives(x, out),
        HiddenAct::Swiglu => silu_gives(x, out),
    }
}

/// The steps from `x` to an outcome of the feed-forward part: the two halves of one projection, the
/// first one activated, are multiplied and projected back.
pub open spec fn mlp_steps(
    mlp: BidirectionalMistralMLP,
    x: Array,
    both: Array,
    gate: Array,
    product: Array,
    out: Array,
) -> bool {
    let size = mlp.intermediate_size as nat;
    &&& linear_gives(array(mlp.gate_up_proj.weight), x, both)
    &&& activated(mlp.act, narrowed(both, 1, 0, size), gate)
    &&& mul_gives(gate, narrowed(both, 1, size, size), product)
    &&& linear_gives(array(mlp.down_proj.weight), product, out)
    &&& both.dims == x.dims.drop_last().push(mlp.gate_up_proj.outputs())
    &&& both.dims.len() >= 2
    &&& 2 * size <= both.dims[1]
    &&& gate.dims == both.dims.update(1, size)
    &&& product.dims == gate.dims
    &&& out.dims == product.dims.drop_last().push(mlp.down_proj.outputs())
}

/// `out` is an outcome of the feed-forward part on `x`.
pub open spec fn mlp_run(mlp: BidirectionalMistralMLP, x: Array, out: Array) -> bool {
    exists|both: Array, gate: Array, product: Array| #[trigger]
        mlp_steps(mlp, x, both, gate, product, out)
}

/// The activation of every cell.
pub fn activate(act: HiddenAct, x: &Tensor) -> (r: Result<Tensor, ModelError>)
    ensures
        r matches Ok(o) ==> {
            &&& activated(act, array(*x), array(o))
            &&& tensor_dims(o) == tensor_dims(*x)
            &&& same_kind(o, *x)
        },
        r matches Err(e) ==> e is Candle,
        tensor_on_host(*x) && is_plain(tensor_dtype(*x)) ==> r is Ok,
{
    match act {
        HiddenAct::Gelu => lift(x.gelu()),
        HiddenAct::Relu => lift(x.relu()),
        HiddenAct::Swiglu => lift(x.silu()),
    }
}

impl BidirectionalMistralMLP {
    /// The weights have the shapes that belong to this width of the hidden states.
    pub open spec fn is_sized(self, hidden_size: nat) -> bool {
        let size = self.intermediate_size as nat;
        &&& 2 * size <= usize::MAX
        &&& tensor_dims(self.gate_up_proj.weight) == seq![2 * size, hidden_size]
        &&& tensor_dims(self.down_proj.weight) == seq![hidden_size, size]
    }

    /// The rows on which the feed-forward part in host memory succeeds.
    pub open spec fn fits(self, x: Tensor) -> bool {
        let dims = tensor_dims(x);
        &&& dims.len() == 2
        &&& dims[0] > 0
        &&& dims[1] > 0
        &&& self.intermediate_size > 0
        &&& self.is_sized(dims[1])
        &&& tensor_on_host(x)
        &&& tensor_on_host(self.gate_up_proj.weight)
        &&& tensor_on_host(self.down_proj.weight)
        &&& has_host_matmul(tensor_dtype(x))
        &&& tensor_dtype(self.gate_up_proj.weight) == tensor_dtype(x)
        &&& tensor_dtype(self.down_proj.weight) == tensor_dtype(x)
        &&& dims[0] * dims[1] <= usize::MAX
        &&& dims[0] * (2 * self.intermediate_size) <= usize::MAX
    }

    /// Rows with cells, as wide as the first projection does not take them.
    pub open spec fn is_too_narrow_or_wide(self, x: Tensor) -> bool {
        let dims = tensor_dims(x);
        let wide = dims.drop_last().push(self.gate_up_proj.outputs());
        &&& dims.len() > 0
        &&& dims.last() > 0
        &&& dims.last() != tensor_dims(self.gate_up_proj.weight).last()
        &&& countable(wide)
        &&& count(wide) > 0
    }

    /// States of integers whose projection has cells.
    pub open spec fn multiplies_integers(self, x: Tensor) -> bool {
        &&& !is_float(tensor_dtype(x))
        &&& count(tensor_dims(x).drop_last().push(self.gate_up_proj.outputs())) > 0
    }

    /// The part whose weights these are.
    pub open spec fn is_made_of(self, gate: Array, up: Array, down: Array) -> bool {
        &&& is_joined(seq![gate, up], 0, array(self.gate_up_proj.weight))
        &&& array(self.down_proj.weight) == down
    }

    /// The part that is stored at this place.
    pub open spec fn is_stored(self, vb: Weights, config: NVEmbedConfig) -> bool {
        let size = config.text_config.intermediate_size as nat;
        let hidden = config.text_config.hidden_size as nat;
        &&& self.act == config.text_config.hidden_act
        &&& self.intermediate_size == config.text_config.intermediate_size
        &&& exists|gate: Array, up: Array, down: Array|
            {
                &&& #[trigger] holds_matrix(vb, "gate_proj"@, size, hidden, gate)
                &&& #[trigger] holds_matrix(vb, "up_proj"@, size, hidden, up)
                &&& #[trigger] holds_matrix(vb, "down_proj"@, hidden, size, down)
                &&& self.is_made_of(gate, up, down)
            }
    }

    /// The part is stored at this place.
    pub open spec fn is_there(vb: Weights, config: NVEmbedConfig) -> bool {
        exists|mlp: Self| #[trigger] mlp.is_stored(vb, config)
    }

    /// `e` says why the part was not read from this place: the first weight that failed, or what
    /// candle said to the joining of the first two.
    pub open spec fn is_refused(vb: Weights, config: NVEmbedConfig, e: ModelError) -> bool {
        let size = config.text_config.intermediate_size as nat;
        let hidden = config.text_config.hidden_size as nat;
        let has_gate = has_matrix(vb, "gate_proj"@, size, hidden);
        let has_up = has_matrix(vb, "up_proj"@, size, hidden);
        ||| matrix_fails(vb, "gate_proj"@, size, hidden, e)
        ||| has_gate && matrix_fails(vb, "up_proj"@, size, hidden, e)
        ||| has_gate && has_up && is_operation_error(e)
        ||| has_gate && has_up && matrix_fails(vb, "down_proj"@, hidden, size, e)
    }

    /// The weight of the gating projection and of the other projection as one.
    pub fn fuse(gate: Tensor, up: Tensor) -> (r: Result<Tensor, ModelError>)
        requires
            tensor_dims(gate).len() == 2,
            tensor_dims(up).len() == 2,
            tensor_dims(gate)[0] + tensor_dims(up)[0] <= usize::MAX,
            is_readable(gate),
            is_readable(up),
        ensures
            r matches Ok(o) ==> {
                &&& is_joined(seq![array(gate), array(up)], 0, array(o))
                &&& tensor_dims(up)[1] == tensor_dims(gate)[1]
                &&& tensor_dtype(up) == tensor_dtype(gate)
                &&& same_kind(o, gate)
            },
            r matches Err(e) ==> is_operation_error(e),
            tensor_dims(up)[1] == tensor_dims(gate)[1] && same_kind(up, gate) && tensor_on_host(
                gate,
            ) && is_plain(tensor_dtype(gate)) && (tensor_dims(gate)[0] + tensor_dims(up)[0])
                * tensor_dims(gate)[1] <= usize::MAX ==> r is Ok,
    {
        let ghost (a, b) = (array(gate), array(up));
        let (first, second) = (dims_of(&gate), dims_of(&up));
        proof {
            assert(sizes(first@).len() == first@.len() && sizes(second@).len() == second@.len());
            assert(sizes(first@)[0] == first@[0] && sizes(first@)[1] == first@[1]);
            assert(sizes(second@)[0] == second@[0]);
        }
        let shape: Vec<usize> = vec![first[0] + second[0], first[1]];
        proof {
            assert(sizes(shape@) =~= join(a, b, 0).dims);
            if (first@[0] + second@[0]) * first@[1] <= usize::MAX {
                lemma_span_two((first@[0] + second@[0]) as nat, first@[1] as nat);
                assert(sizes(shape@) =~= seq![(first@[0] + second@[0]) as nat, first@[1] as nat]);
            }
        }
        expect_countable(&shape)?;
        let parts: Vec<Tensor> = vec![gate, up];
        proof {
            assert(arrays(parts@) =~= seq![a, b]);
            lemma_joined_two(a, b, 0);
            lemma_count_two(join(a, b, 0).dims);
            assert(tensor_on_host(parts@[0]) == tensor_on_host(gate));
            assert(seq![a, b][1] == b);
        }
        lift(ops::cat(&parts, 0))
    }

    /// Reads the weights of the part from this place.
    pub fn load(vb: &Weights, config: &NVEmbedConfig) -> (r: Result<Self, ModelError>)
        requires
            2 * config.text_config.intermediate_size <= usize::MAX,
            config.text_config.has_cells() || weights_start_inside(*vb),
        ensures
            r matches Ok(mlp) ==> {
                &&& mlp.is_stored(*vb, *config)
                &&& mlp.is_sized(config.text_config.hidden_size as nat)
            },
            r matches Err(e) ==> Self::is_refused(*vb, *config, e),
    {
        let intermediate_size: usize = config.text_config.intermediate_size;
        let hidden_size: usize = config.text_config.hidden_size;
        let gate: Tensor = vb.matrix("gate_proj", intermediate_size, hidden_size)?;
        let up: Tensor = vb.matrix("up_proj", intermediate_size, hidden_size)?;
        let ghost (a, b) = (array(gate), array(up));
        let fused: Tensor = Self::fuse(gate, up)?;
        let down: Tensor = vb.matrix("down_proj", hidden_size, intermediate_size)?;
        let mlp = BidirectionalMistralMLP {
            gate_up_proj: Linear::new(fused),
            down_proj: Linear::new(down),
            act: config.text_config.hidden_act,
            intermediate_size,
        };
        proof {
            lemma_joined_two(a, b, 0);
            assert(join(a, b, 0).dims =~= seq![
                2 * intermediate_size as nat,
                hidden_size as nat,
            ]);
        }
        Ok(mlp)
    }

    /// The feed-forward part of these rows.
    pub fn forward(&self, hidden_states: &Tensor) -> (r: Result<Tensor, ModelError>)
        requires
            2 * self.intermediate_size <= usize::MAX,
        ensures
            r matches Ok(o) ==> {
                &&& mlp_run(*self, array(*hidden_states), array(o))
                &&& same_kind(o, *hidden_states)
                &&& tensor_packed(o)
                &&& tensor_starts_inside(o)
                &&& tensor_dims(o).len() > 0
                &&& tensor_dims(o).last() == self.down_proj.outputs()
                &&& tensor_dims(*hidden_states).len() == 2 ==> tensor_dims(o) == seq![
                    tensor_dims(*hidden_states)[0],
                    self.down_proj.outputs(),
                ]
            },
            self.multiplies_integers(*hidden_states) ==> r is Err,
            self.is_too_narrow_or_wide(*hidden_states) ==> r is Err,
            r matches Err(e) ==> is_operation_error(e) || (e is IntegerStates
                && self.multiplies_integers(*hidden_states)),
            self.fits(*hidden_states) ==> r is Ok,
    {
        proof {
            if self.fits(*hidden_states) {
                lemma_linear_fits(self.gate_up_proj.weight, *hidden_states);
            }
        }
        let both: Tensor = self.gate_up_proj.forward(hidden_states)?;
        expect_float(&both)?;
        let gate: Tensor = lift(ops::narrow(&both, 1, 0, self.intermediate_size))?;
        let up: Tensor = lift(
            ops::narrow(&both, 1, self.intermediate_size, self.intermediate_size),
        )?;
        proof {
            let dims = tensor_dims(both);
            assert(tensor_dims(gate) == array(gate).dims);
            if count(dims) == 0 {
                lemma_slice_of_nothing(dims, 1, self.intermediate_size as nat);
            }
        }
        let gate: Tensor = activate(self.act, &gate)?;
        let product: Tensor = lift(gate.mul(&up))?;
        proof {
            if self.fits(*hidden_states) {
                let rows = tensor_dims(*hidden_states)[0];
                let size = self.intermediate_size as nat;
                assert(rows * size <= rows * (2 * size)) by (nonlinear_arith);
                lemma_linear_fits(self.down_proj.weight, product);
            }
        }
        let o: Tensor = self.down_proj.forward(&product)?;
        proof {
            assert(mlp_steps(
                *self,
                array(*hidden_states),
                array(both),
                array(gate),
                array(product),
                array(o),
            ));
            if tensor_dims(*hidden_states).len() == 2 {
                assert(tensor_dims(o) =~= seq![
                    tensor_dims(*hidden_states)[0],
                    self.down_proj.outputs(),
                ]);
            }
        }
        Ok(o)
    }
}

/// The fused weight holds the weight of the gating projection and then the weight of the other
/// projection.
pub proof fn law_fused_weight_holds_gate_and_up(
    mlp: BidirectionalMistralMLP,
    gate: Array,
    up: Array,
    down: Array,
)
    requires
        mlp.is_made_of(gate, up, down),
        well_formed(gate),
        well_formed(up),
        joinable(gate, up, 0),
        countable(tensor_dims(mlp.gate_up_proj.weight)),
    ensures
        narrowed(array(mlp.gate_up_proj.weight), 0, 0, gate.dims[0]) == gate,
        narrowed(array(mlp.gate_up_proj.weight), 0, gate.dims[0], up.dims[0]) == up,
{
    lemma_joined_two(gate, up, 0);
    law_narrowing_undoes_joining(gate, up, 0);
}

/// Of projected rows that are twice as wide as the inner size, the gating half and the other half
/// are everything.
pub proof fn law_gate_and_up_are_all(mlp: BidirectionalMistralMLP, both: Array)
    requires
        well_formed(both),
        both.dims.len() >= 2,
        both.dims[1] == 2 * mlp.intermediate_size,
    ensures
        ({
            let size = mlp.intermediate_size as nat;
            join(narrowed(both, 1, 0, size), narrowed(both, 1, size, size), 1) == both
        }),
{
    let size = mlp.intermediate_size as nat;
    law_joining_undoes_narrowing(both, 1, size, 2 * size);
}

} // verus!
