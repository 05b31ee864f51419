//! A layer of the language model.
use crate::array::{has_host_norm, is_float, Array};
use crate::attention::{
    is_kernel, placement, AttentionCall, BidirectionalMistralAttention, Placement,
};
use crate::config::NVEmbedConfig;
use crate::error::ModelError;
use crate::layers::{is_operation_error, rms_run, RMSNorm};
use crate::mlp::{mlp_run, BidirectionalMistralMLP};
use crate::ops::{norm_fits, normalizable};
use crate::tensor::{alike, array, tensor_dims, tensor_dtype, tensor_packed, tensor_starts_inside};
use crate::weights::{is_below, step, weights_start_inside, Weights};
use candle_core::Tensor;
use vstd::prelude::*;

verus! {

/// An attention and a feed-forward part, each after a norm.
pub struct BidirectionalMistralLayer {
    pub attention: BidirectionalMistralAttention,
    pub mlp: BidirectionalMistralMLP,
    pub input_layer_norm: RMSNorm,
    pub post_attention_layer_norm: RMSNorm,
}

impl BidirectionalMistralLayer {
    /// The weights have the shapes that belong to this width of the hidden states.
    pub open spec fn is_sized(self, hidden_size: nat) -> bool {
        &&& self.attention.is_sized(hidden_size)
        &&& self.mlp.is_sized(hidden_size)
        &&& self.input_layer_norm.norms(hidden_size)
        &&& self.post_attention_layer_norm.norms(hidden_size)
    }

    /// The layer that is stored at this place.
    pub open spec fn is_stored(self, vb: Weights, config: NVEmbedConfig) -> bool {
        let hidden = config.text_config.hidden_size as nat;
        let epsilon = config.text_config.rms_norm_eps;
        exists|attention: Weights, mlp: Weights, input: Weights, post: Weights|
            {
                &&& #[trigger] is_below(vb, "self_attn"@, attention)
                &&& #[trigger] is_below(vb, "mlp"@, mlp)
                &&& #[trigger] is_below(vb, "input_layernorm"@, input)
                &&& #[trigger] is_below(vb, "post_attention_layernorm"@, post)
                &&& self.attention.is_stored(attention, config)
                &&& self.mlp.is_stored(mlp, config)
                &&& self.input_layer_norm.is_stored(input, hidden, epsilon)
                &&& self.post_attention_layer_norm.is_stored(post, hidden, epsilon)
            }
    }

    /// The layer is stored at this place.
    pub open spec fn is_there(vb: Weights, config: NVEmbedConfig) -> bool {
        exists|layer: Self| #[trigger] layer.is_stored(vb, config)
    }

    /// `e` is the error of the first part that was not read from below this place.
    pub open spec fn is_refused(vb: Weights, config: NVEmbedConfig, e: ModelError) -> bool {
        let hidden = config.text_config.hidden_size as nat;
        exists|attention: Weights, mlp: Weights, input: Weights, post: Weights|
            {
                let has_attention = BidirectionalMistralAttention::is_there(attention, config);
                let has_mlp = BidirectionalMistralMLP::is_there(mlp, config);
                let has_input = RMSNorm::is_there(input, hidden, config.text_config.rms_norm_eps);
                &&& #[trigger] is_below(vb, "self_attn"@, attention)
                &&& #[trigger] is_below(vb, "mlp"@, mlp)
                &&& #[trigger] is_below(vb, "input_layernorm"@, input)
                &&& #[trigger] is_below(vb, "post_attention_layernorm"@, post)
                &&& {
                    ||| BidirectionalMistralAttention::is_refused(attention, config, e)
                    ||| has_attention && BidirectionalMistralMLP::is_refused(mlp, config, e)
                    ||| has_attention && has_mlp && RMSNorm::is_refused(input, hidden, e)
                    ||| has_attention && has_mlp && has_input && RMSNorm::is_refused(
                        post,
                        hidden,
                        e,
                    )
                }
            }
    }

    /// Reads the weights of the layer from this place.
    pub fn load(vb: &Weights, config: &NVEmbedConfig) -> (r: Result<Self, ModelError>)
        requires
            config.text_config.is_sized(),
            config.text_config.has_cells() || weights_start_inside(*vb),
        ensures
            r matches Ok(layer) ==> {
                &&& layer.is_stored(*vb, *config)
                &&& layer.is_sized(config.text_config.hidden_size as nat)
            },
            r matches Err(e) ==> Self::is_refused(*vb, *config, e),
    {
        let attention_place: Weights = step(vb, "self_attn");
        let mlp_place: Weights = step(vb, "mlp");
        let input_place: Weights = step(vb, "input_layernorm");
        let post_place: Weights = step(vb, "post_attention_layernorm");
        let attention: BidirectionalMistralAttention = BidirectionalMistralAttention::load(
            &attention_place,
            config,
        )?;
        let mlp: BidirectionalMistralMLP = BidirectionalMistralMLP::load(&mlp_place, config)?;
        let input_layer_norm: RMSNorm = RMSNorm::load(
            &input_place,
            config.text_config.hidden_size,
            config.text_config.rms_norm_eps,
        )?;
        let post_attention_layer_norm: RMSNorm = RMSNorm::load(
            &post_place,
            config.text_config.hidden_size,
            config.text_config.rms_norm_eps,
        )?;
        Ok(
            BidirectionalMistralLayer {
                attention,
                mlp,
                input_layer_norm,
                post_attention_layer_norm,
            },
        )
    }

    /// The steps from the states `x` and the residual to an outcome of the layer.
    pub open spec fn steps<K: Fn(AttentionCall) -> Result<Tensor, ModelError>>(
        self,
        kernel: K,
        x: Array,
        residual: Option<Array>,
        place: Placement,
        normed: Array,
        before: Array,
        attended: Array,
        normed_again: Array,
        out: Array,
        sum: Array,
    ) -> bool {
        &&& rms_run(self.input_layer_norm, x, residual, normed, before)
        &&& self.attention.attends(kernel, normed, place, attended)
        &&& rms_run(
            self.post_attention_layer_norm,
            attended,
            Some(before),
            normed_again,
            sum,
        )
        &&& mlp_run(self.mlp, normed_again, out)
    }

    /// `out` and `sum` are an outcome of the layer on the states `x` and the residual.
    pub open spec fn runs<K: Fn(AttentionCall) -> Result<Tensor, ModelError>>(
        self,
        kernel: K,
        x: Array,
        residual: Option<Array>,
        place: Placement,
        out: Array,
        sum: Array,
    ) -> bool {
        exists|normed: Array, before: Array, attended: Array, normed_again: Array| #[trigger]
            self.steps(
                kernel,
                x,
                residual,
                place,
                normed,
                before,
                attended,
                normed_again,
                out,
                sum,
            )
    }

    /// The kernel failed on what the layer asks of it for the states `x` and the residual.
    pub open spec fn kernel_fails<K: Fn(AttentionCall) -> Result<Tensor, ModelError>>(
        self,
        kernel: K,
        x: Array,
        residual: Option<Array>,
        place: Placement,
        e: ModelError,
    ) -> bool {
        exists|normed: Array, before: Array|
            {
                &&& #[trigger] rms_run(self.input_layer_norm, x, residual, normed, before)
                &&& self.attention.kernel_fails(kernel, normed, place, e)
            }
    }

    /// The states on which everything but the kernel succeeds in host memory.
    pub open spec fn fits(self, x: Tensor) -> bool {
        &&& tensor_dims(x).len() == 2
        &&& tensor_dims(x)[1] > 0
        &&& self.is_sized(tensor_dims(x)[1])
        &&& tensor_packed(x)
        &&& has_host_norm(tensor_dtype(x))
        &&& self.attention.fits(x)
        &&& self.mlp.fits(x)
        &&& norm_fits(self.input_layer_norm.weight, self.input_layer_norm.epsilon, x)
        &&& norm_fits(
            self.post_attention_layer_norm.weight,
            self.post_attention_layer_norm.epsilon,
            x,
        )
    }

    /// The layer of these states and this residual, and the residual for the next layer.
    pub fn forward<K: Fn(AttentionCall) -> Result<Tensor, ModelError>>(
        &self,
        kernel: &K,
        hidden_states: &Tensor,
        residual: Option<&Tensor>,
        cu_seqlens: &Tensor,
        cos: &Tensor,
        sin: &Tensor,
        max_s: usize,
    ) -> (r: Result<(Tensor, Tensor), ModelError>)
        requires
            exists|size: nat| size > 0 && #[trigger] self.is_sized(size),
            normalizable(*hidden_states),
            is_float(tensor_dtype(*hidden_states)),
            is_kernel(*kernel),
        ensures
            r matches Ok((out, sum)) ==> {
                &&& self.runs(
                    *kernel,
                    array(*hidden_states),
                    (match residual {
                        Some(y) => Some(array(*y)),
                        None => None,
                    }),
                    placement(*cu_seqlens, *cos, *sin, max_s),
                    array(out),
                    array(sum),
                )
                &&& tensor_packed(out)
                &&& tensor_starts_inside(out)
                &&& is_float(tensor_dtype(out))
                &&& tensor_dims(out).len() > 0
                &&& tensor_dims(out).last() == self.mlp.down_proj.outputs()
                &&& tensor_dims(sum) == tensor_dims(*hidden_states)
                &&& tensor_dims(*hidden_states).len() == 2 && self.is_sized(
                    tensor_dims(*hidden_states)[1],
                ) ==> tensor_dims(out) == tensor_dims(*hidden_states)
            },
            tensor_dims(*hidden_states).len() == 2 && self.is_sized(tensor_dims(*hidden_states)[1])
                && self.attention.is_unsplittable(*hidden_states) ==> r is Err,
            r matches Err(e) ==> is_operation_error(e) || self.kernel_fails(
                *kernel,
                array(*hidden_states),
                (match residual {
                    Some(y) => Some(array(*y)),
                    None => None,
                }),
                placement(*cu_seqlens, *cos, *sin, max_s),
                e,
            ),
            self.fits(*hidden_states) && (residual matches Some(y) ==> alike(*hidden_states, *y))
                && self.attention.is_served(
                *kernel,
                placement(*cu_seqlens, *cos, *sin, max_s),
            ) ==> r is Ok && alike((r->Ok_0).0, *hidden_states) && alike(
                (r->Ok_0).1,
                *hidden_states,
            ),
    {
        let (normed, before) = self.input_layer_norm.forward(hidden_states, residual)?;
        let attended: Tensor = self.attention.forward(
            kernel,
            &normed,
            cu_seqlens,
            cos,
            sin,
            max_s,
        )?;
        proof {
            let dims = tensor_dims(*hidden_states);
            if dims.len() == 2 && self.is_sized(dims[1]) {
                assert(tensor_dims(attended) =~= dims);
            }
        }
        let (normed_again, sum) = self.post_attention_layer_norm.forward(
            &attended,
            Some(&before),
        )?;
        let out: Tensor = self.mlp.forward(&normed_again)?;
        assert(self.steps(
            *kernel,
            array(*hidden_states),
            (match residual {
                Some(y) => Some(array(*y)),
                None => None,
            }),
            placement(*cu_seqlens, *cos, *sin, max_s),
            array(normed),
            array(before),
            array(attended),
            array(normed_again),
            array(out),
            array(sum),
        ));
        Ok((out, sum))
    }
}

} // verus!
