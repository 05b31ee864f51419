//! The language model: a table of tokens, layers, and a norm.
use crate::array::{
    count, countable, ids_below, is_embedded, is_float, is_picked, is_plain, is_spanned, Array,
};
use crate::attention::{is_kernel, placement, AttentionCall, Placement};
use crate::config::NVEmbedConfig;
use crate::error::ModelError;
use crate::layer::BidirectionalMistralLayer;
use crate::layers::{array_opt, is_operation_error, pick, rms_run, Embedding, RMSNorm};
use crate::ops::norm_fits;
use crate::tensor::{
    alike, array, is_readable, same_kind, tensor_dims, tensor_dtype, tensor_on_host, tensor_packed,
    tensor_starts_inside,
};
use crate::text::{law_layer_names_differ, layer_name, layer_name_text};
use crate::weights::{
    contains, device_of, element_type, has_matrix, holds_matrix, is_below, matrix_fails, same_dtype,
    step, var_has, weights_device, weights_dtype, weights_on_cuda, weights_path, weights_source,
    weights_start_inside, Weights,
};
use candle_core::{DType, Device, Tensor};
use vstd::prelude::*;

verus! {

/// The tables of cosines and sines that are wanted: one row for each position below `positions`,
/// for heads of this size and angles to this base, which is given by the bits of a double.
pub struct RotaryCall {
    pub head_size: usize,
    pub base: u64,
    pub positions: usize,
    pub dtype: DType,
    pub device: Device,
}

/// A maker of tables: it takes every call, and its tables have one row for each position and the
/// element type that was asked for.
pub open spec fn is_rotary<R: Fn(RotaryCall) -> Result<(Tensor, Tensor), ModelError>>(
    rotary: R,
) -> bool {
    &&& forall|call: RotaryCall| #[trigger] call_requires(rotary, (call,))
    &&& forall|call: RotaryCall, cos: Tensor, sin: Tensor| #[trigger]
        call_ensures(rotary, (call,), Ok((cos, sin))) ==> is_rotary_table(call, cos)
            && is_rotary_table(call, sin)
}

/// A table with one row for each position, and the element type that was asked for.
pub open spec fn is_rotary_table(call: RotaryCall, table: Tensor) -> bool {
    &&& tensor_dims(table).len() > 0
    &&& tensor_dims(table)[0] == call.positions
    &&& tensor_dtype(table) == call.dtype
    &&& is_readable(table)
}

/// A Mistral language model in which every token attends to the whole sequence.
pub struct BidirectionalMistralModel {
    pub embeddings: Embedding,
    pub layers: Vec<BidirectionalMistralLayer>,
    pub norm: RMSNorm,
    pub cos_cache: Tensor,
    pub sin_cache: Tensor,
    pub device: Device,
}

/// `root` is where the language model is stored: a step below `vb` if there are tokens there.
pub open spec fn is_encoder_root(vb: Weights, root: Weights) -> bool {
    exists|answer: bool|
        {
            &&& #[trigger] var_has(
                weights_source(vb),
                weights_path(vb),
                "text_encoder.embed_tokens.weight"@,
                answer,
            )
            &&& if answer {
                is_below(vb, "text_encoder"@, root)
            } else {
                root == vb
            }
        }
}

/// The layers of these indices are stored below `root`.
pub open spec fn layers_stored(
    layers: Seq<BidirectionalMistralLayer>,
    root: Weights,
    config: NVEmbedConfig,
) -> bool {
    forall|k: int|
        0 <= k < layers.len() ==> layer_stored(#[trigger] layers[k], k as nat, root, config)
}

/// The layer of this index is stored below `root`.
pub open spec fn layer_stored(
    layer: BidirectionalMistralLayer,
    index: nat,
    root: Weights,
    config: NVEmbedConfig,
) -> bool {
    exists|place: Weights|
        #[trigger] is_below(root, layer_name(index), place) && layer.is_stored(place, config)
}

/// The layer of this index is stored below `root`, whatever its weights are.
pub open spec fn layer_there(root: Weights, config: NVEmbedConfig, index: nat) -> bool {
    exists|place: Weights| #[trigger]
        is_below(root, layer_name(index), place) && BidirectionalMistralLayer::is_there(
            place,
            config,
        )
}

/// The layers before this index are stored below `root`.
pub open spec fn layers_there(root: Weights, config: NVEmbedConfig, index: nat) -> bool {
    forall|k: nat| k < index ==> #[trigger] layer_there(root, config, k)
}

/// `e` says why the layer of this index was not read from below `root`.
pub open spec fn layer_refused(
    root: Weights,
    config: NVEmbedConfig,
    index: nat,
    e: ModelError,
) -> bool {
    exists|place: Weights| #[trigger]
        is_below(root, layer_name(index), place) && BidirectionalMistralLayer::is_refused(
            place,
            config,
            e,
        )
}

/// `e` is the error of the first layer that was not read from below `root`.
pub open spec fn layers_refused(root: Weights, config: NVEmbedConfig, e: ModelError) -> bool {
    exists|index: nat|
        {
            &&& index < config.text_config.num_hidden_layers
            &&& layers_there(root, config, index)
            &&& #[trigger] layer_refused(root, config, index, e)
        }
}

impl BidirectionalMistralModel {
    /// The weights have shapes that belong together.
    pub open spec fn is_sized(self) -> bool {
        let hidden = self.embeddings.hidden_size as nat;
        &&& hidden > 0
        &&& self.embeddings.is_sized()
        &&& is_float(tensor_dtype(self.embeddings.weight))
        &&& is_readable(self.embeddings.weight)
        &&& is_readable(self.cos_cache)
        &&& is_readable(self.sin_cache)
        &&& self.norm.norms(hidden)
        &&& forall|k: int|
            0 <= k < self.layers@.len() ==> (#[trigger] self.layers@[k]).is_sized(hidden)
    }

    /// The model whose weights are stored below `root`.
    pub open spec fn is_stored(self, root: Weights, config: NVEmbedConfig) -> bool {
        let text = config.text_config;
        &&& holds_matrix(
            root,
            "embed_tokens"@,
            text.vocab_size as nat,
            text.hidden_size as nat,
            array(self.embeddings.weight),
        )
        &&& self.embeddings.hidden_size == text.hidden_size
        &&& self.layers@.len() == text.num_hidden_layers
        &&& layers_stored(self.layers@, root, config)
        &&& exists|place: Weights| #[trigger]
            is_below(root, "norm"@, place) && self.norm.is_stored(
                place,
                text.hidden_size as nat,
                text.rms_norm_eps,
            )
    }

    /// The tables that this configuration asks for, with the element type of the weights.
    pub open spec fn asks_tables(vb: Weights, config: NVEmbedConfig, call: RotaryCall) -> bool {
        &&& call.head_size == config.text_config.head_size()
        &&& call.base == config.text_config.rope_theta
        &&& call.positions == config.text_config.max_position_embeddings
        &&& call.dtype == weights_dtype(vb)
        &&& call.device == weights_device(vb)
    }

    /// The model is stored at this place, or a step below it.
    pub open spec fn is_found(self, vb: Weights, config: NVEmbedConfig) -> bool {
        exists|root: Weights| #[trigger] is_encoder_root(vb, root) && self.is_stored(root, config)
    }

    /// `rotary` gave this when it was asked for the tables of this configuration.
    pub open spec fn rotary_gives<R: Fn(RotaryCall) -> Result<(Tensor, Tensor), ModelError>>(
        rotary: R,
        vb: Weights,
        config: NVEmbedConfig,
        given: Result<(Tensor, Tensor), ModelError>,
    ) -> bool {
        exists|call: RotaryCall|
            Self::asks_tables(vb, config, call) && #[trigger] call_ensures(rotary, (call,), given)
    }

    /// The model is stored at this place, or a step below it, and its tables could be made.
    pub open spec fn is_there<R: Fn(RotaryCall) -> Result<(Tensor, Tensor), ModelError>>(
        rotary: R,
        vb: Weights,
        config: NVEmbedConfig,
    ) -> bool {
        exists|model: Self|
            {
                &&& #[trigger] model.is_found(vb, config)
                &&& Self::rotary_gives(
                    rotary,
                    vb,
                    config,
                    Ok((model.cos_cache, model.sin_cache)),
                )
            }
    }

    /// The tables have one row for each of this many positions.
    pub open spec fn has_tables(self, positions: nat) -> bool {
        &&& tensor_dims(self.cos_cache).len() > 0
        &&& tensor_dims(self.cos_cache)[0] == positions
        &&& tensor_dims(self.sin_cache).len() > 0
        &&& tensor_dims(self.sin_cache)[0] == positions
    }

    /// The tokens are stored below `root`.
    pub open spec fn has_tokens(root: Weights, config: NVEmbedConfig) -> bool {
        has_matrix(
            root,
            "embed_tokens"@,
            config.text_config.vocab_size as nat,
            config.text_config.hidden_size as nat,
        )
    }

    /// The norm is stored below `root`.
    pub open spec fn has_norm(root: Weights, config: NVEmbedConfig) -> bool {
        exists|place: Weights| #[trigger]
            is_below(root, "norm"@, place) && RMSNorm::is_there(
                place,
                config.text_config.hidden_size as nat,
                config.text_config.rms_norm_eps,
            )
    }

    /// `e` says why the norm was not read from below `root`.
    pub open spec fn norm_refused(root: Weights, config: NVEmbedConfig, e: ModelError) -> bool {
        exists|place: Weights| #[trigger]
            is_below(root, "norm"@, place) && RMSNorm::is_refused(
                place,
                config.text_config.hidden_size as nat,
                e,
            )
    }

    /// `e` is the error of the first part that was not read or made: the tokens, the layers, the
    /// norm, the tables.
    pub open spec fn is_refused<R: Fn(RotaryCall) -> Result<(Tensor, Tensor), ModelError>>(
        rotary: R,
        vb: Weights,
        config: NVEmbedConfig,
        e: ModelError,
    ) -> bool {
        let layers = config.text_config.num_hidden_layers as nat;
        exists|root: Weights|
            {
                &&& #[trigger] is_encoder_root(vb, root)
                &&& {
                    ||| matrix_fails(
                        root,
                        "embed_tokens"@,
                        config.text_config.vocab_size as nat,
                        config.text_config.hidden_size as nat,
                        e,
                    )
                    ||| Self::has_tokens(root, config) && layers_refused(root, config, e)
                    ||| Self::has_tokens(root, config) && layers_there(root, config, layers)
                        && Self::norm_refused(root, config, e)
                    ||| Self::has_tokens(root, config) && layers_there(root, config, layers)
                        && Self::has_norm(root, config) && Self::rotary_gives(
                        rotary,
                        vb,
                        config,
                        Err(e),
                    )
                }
            }
    }

    /// Reads the layers from the places below `root`.
    fn load_layers(root: &Weights, config: &NVEmbedConfig) -> (r: Result<
        Vec<BidirectionalMistralLayer>,
        ModelError,
    >)
        requires
            config.text_config.is_sized(),
            config.text_config.has_cells() || weights_start_inside(*root),
        ensures
            r matches Ok(layers) ==> {
                &&& layers@.len() == config.text_config.num_hidden_layers
                &&& layers_stored(layers@, *root, *config)
                &&& forall|k: int|
                    0 <= k < layers@.len() ==> (#[trigger] layers@[k]).is_sized(
                        config.text_config.hidden_size as nat,
                    )
            },
            r is Ok ==> layers_there(
                *root,
                *config,
                config.text_config.num_hidden_layers as nat,
            ),
            r matches Err(e) ==> layers_refused(*root, *config, e),
    {
        let mut layers: Vec<BidirectionalMistralLayer> = Vec::new();
        let mut index: usize = 0;
        while index < config.text_config.num_hidden_layers
            invariant
                index <= config.text_config.num_hidden_layers,
                config.text_config.is_sized(),
                config.text_config.has_cells() || weights_start_inside(*root),
                layers@.len() == index,
                layers_stored(layers@, *root, *config),
                layers_there(*root, *config, index as nat),
                forall|k: int|
                    0 <= k < layers@.len() ==> (#[trigger] layers@[k]).is_sized(
                        config.text_config.hidden_size as nat,
                    ),
            decreases config.text_config.num_hidden_layers - index,
        {
            let name: String = layer_name_text(index);
            let place: Weights = step(root, name.as_str());
            let layer: BidirectionalMistralLayer = match BidirectionalMistralLayer::load(
                &place,
                config,
            ) {
                Ok(layer) => layer,
                Err(e) => {
                    assert(layer_refused(*root, *config, index as nat, e));
                    return Err(e);
                },
            };
            assert(layer_stored(layer, index as nat, *root, *config));
            assert(layer_there(*root, *config, index as nat));
            layers.push(layer);
            index = index + 1;
        }
        Ok(layers)
    }

    /// Reads the model from this place. The tables come from `rotary`.
    pub fn load<R: Fn(RotaryCall) -> Result<(Tensor, Tensor), ModelError>>(
        vb: &Weights,
        config: &NVEmbedConfig,
        rotary: &R,
    ) -> (r: Result<Self, ModelError>)
        requires
            weights_on_cuda(*vb) && weights_dtype(*vb) is F16 ==> config.text_config.is_sized() && (
            config.text_config.has_cells() || weights_start_inside(*vb)),
            is_rotary(*rotary),
        ensures
            !weights_on_cuda(*vb) ==> r matches Err(ModelError::MistralRequiresCuda),
            weights_on_cuda(*vb) && !(weights_dtype(*vb) is F16)
                ==> r matches Err(ModelError::MistralRequiresF16),
            r matches Ok(model) ==> {
                &&& config.text_config.hidden_size > 0 && is_float(
                    tensor_dtype(model.embeddings.weight),
                ) ==> model.is_sized()
                &&& model.device == weights_device(*vb)
                &&& model.has_tables(config.text_config.max_position_embeddings as nat)
                &&& tensor_dtype(model.cos_cache) == weights_dtype(*vb)
                &&& tensor_dtype(model.sin_cache) == weights_dtype(*vb)
                &&& model.is_found(*vb, *config)
                &&& Self::rotary_gives(
                    *rotary,
                    *vb,
                    *config,
                    Ok((model.cos_cache, model.sin_cache)),
                )
            },
            r matches Err(e) ==> weights_on_cuda(*vb) && weights_dtype(*vb) is F16
                ==> Self::is_refused(*rotary, *vb, *config, e),
    {
        if !device_of(vb).is_cuda() {
            return Err(ModelError::MistralRequiresCuda);
        }
        if !same_dtype(element_type(vb), DType::F16) {
            return Err(ModelError::MistralRequiresF16);
        }
        let below: Weights = step(vb, "text_encoder");
        let root: &Weights = if contains(vb, "text_encoder.embed_tokens.weight") {
            &below
        } else {
            vb
        };
        assert(is_encoder_root(*vb, *root));
        let weight: Tensor = root.matrix(
            "embed_tokens",
            config.text_config.vocab_size,
            config.text_config.hidden_size,
        )?;
        let embeddings = Embedding { weight, hidden_size: config.text_config.hidden_size };
        let layers: Vec<BidirectionalMistralLayer> = Self::load_layers(root, config)?;
        let place: Weights = step(root, "norm");
        let norm: RMSNorm = RMSNorm::load(
            &place,
            config.text_config.hidden_size,
            config.text_config.rms_norm_eps,
        )?;
        assert(Self::has_norm(*root, *config));
        let call = RotaryCall {
            head_size: config.text_config.attention_head_size(),
            base: config.text_config.rope_theta,
            positions: config.text_config.max_position_embeddings,
            dtype: element_type(root),
            device: device_of(root),
        };
        assert(Self::asks_tables(*vb, *config, call));
        let tables: Result<(Tensor, Tensor), ModelError> = rotary(call);
        assert(Self::rotary_gives(*rotary, *vb, *config, tables));
        let (cos_cache, sin_cache) = tables?;
        let model = BidirectionalMistralModel {
            embeddings,
            layers,
            norm,
            cos_cache,
            sin_cache,
            device: device_of(root),
        };
        assert(model.is_stored(*root, *config));
        Ok(model)
    }

    /// `h` and `residual` are an outcome of the first `k` layers on the states `x`.
    pub open spec fn layers_run<K: Fn(AttentionCall) -> Result<Tensor, ModelError>>(
        self,
        kernel: K,
        k: nat,
        x: Array,
        place: Placement,
        h: Array,
        residual: Option<Array>,
    ) -> bool
        decreases k,
    {
        if k == 0 {
            h == x && residual is None
        } else {
            let layer = self.layers@[k - 1];
            &&& residual is Some
            &&& exists|h_before: Array, residual_before: Option<Array>|
                {
                    &&& self.layers_run(
                        kernel,
                        (k - 1) as nat,
                        x,
                        place,
                        h_before,
                        residual_before,
                    )
                    &&& #[trigger] layer.runs(
                        kernel,
                        h_before,
                        residual_before,
                        place,
                        h,
                        residual->Some_0,
                    )
                }
        }
    }

    proof fn lemma_next_layer<K: Fn(AttentionCall) -> Result<Tensor, ModelError>>(
        self,
        kernel: K,
        k: nat,
        x: Array,
        place: Placement,
        before: (Array, Option<Array>),
        after: (Array, Array),
    )
        requires
            self.layers_run(kernel, k, x, place, before.0, before.1),
            self.layers@[k as int].runs(kernel, before.0, before.1, place, after.0, after.1),
        ensures
            self.layers_run(kernel, k + 1, x, place, after.0, Some(after.1)),
    {
        let n = k + 1;
        let layer = self.layers@[n - 1];
        let residual = Some(after.1);
        assert(layer.runs(kernel, before.0, before.1, place, after.0, residual->Some_0));
        assert(self.layers_run(kernel, (n - 1) as nat, x, place, before.0, before.1));
        assert(self.layers_run(kernel, n, x, place, after.0, residual));
    }

    /// The kernel failed on what one of the layers asks of it for the states `x`.
    pub open spec fn kernel_fails<K: Fn(AttentionCall) -> Result<Tensor, ModelError>>(
        self,
        kernel: K,
        x: Array,
        place: Placement,
        e: ModelError,
    ) -> bool {
        exists|k: nat, h: Array, residual: Option<Array>|
            {
                &&& k < self.layers@.len()
                &&& #[trigger] self.layers_run(kernel, k, x, place, h, residual)
                &&& self.layers@[k as int].kernel_fails(kernel, h, residual, place, e)
            }
    }

    /// The rows of the tables for these positions.
    pub open spec fn places(
        self,
        positions: Array,
        cu_seqlens: Array,
        max_s: nat,
        place: Placement,
    ) -> bool {
        &&& is_picked(array(self.cos_cache), positions, 0, place.cos)
        &&& is_picked(array(self.sin_cache), positions, 0, place.sin)
        &&& place.cu_seqlens == cu_seqlens
        &&& place.max_s == max_s
    }

    /// The steps from these tokens at these positions to an outcome of the language model.
    pub open spec fn steps<K: Fn(AttentionCall) -> Result<Tensor, ModelError>>(
        self,
        kernel: K,
        ids: Array,
        positions: Array,
        cu_seqlens: Array,
        max_s: nat,
        x: Array,
        place: Placement,
        h: Array,
        residual: Option<Array>,
        sum: Array,
        out: Array,
    ) -> bool {
        &&& is_embedded(array(self.embeddings.weight), ids, x)
        &&& self.places(positions, cu_seqlens, max_s, place)
        &&& self.layers_run(kernel, self.layers@.len(), x, place, h, residual)
        &&& rms_run(self.norm, h, residual, out, sum)
    }

    /// `out` is an outcome of the language model on these tokens at these positions.
    pub open spec fn encodes<K: Fn(AttentionCall) -> Result<Tensor, ModelError>>(
        self,
        kernel: K,
        ids: Array,
        positions: Array,
        cu_seqlens: Array,
        max_s: nat,
        out: Array,
    ) -> bool {
        exists|x: Array, place: Placement, h: Array, residual: Option<Array>, sum: Array| #[trigger]
            self.steps(
                kernel,
                ids,
                positions,
                cu_seqlens,
                max_s,
                x,
                place,
                h,
                residual,
                sum,
                out,
            )
    }

    /// The kernel failed on what the language model asks of it for these tokens.
    pub open spec fn encoding_fails<K: Fn(AttentionCall) -> Result<Tensor, ModelError>>(
        self,
        kernel: K,
        ids: Array,
        positions: Array,
        cu_seqlens: Array,
        max_s: nat,
        e: ModelError,
    ) -> bool {
        exists|x: Array, place: Placement|
            {
                &&& #[trigger] is_embedded(array(self.embeddings.weight), ids, x)
                &&& self.places(positions, cu_seqlens, max_s, place)
                &&& #[trigger] self.kernel_fails(kernel, x, place, e)
            }
    }

    /// States of this many tokens, of the kind that the layers hand on.
    pub open spec fn is_state(self, tokens: nat, x: Tensor) -> bool {
        &&& tensor_dims(x) == seq![tokens, self.embeddings.hidden_size as nat]
        &&& same_kind(x, self.embeddings.weight)
        &&& tensor_packed(x)
    }

    /// A table from which the rows for these positions can be read in host memory.
    pub open spec fn is_table(table: Tensor, positions: Tensor) -> bool {
        &&& tensor_dims(table).len() > 0
        &&& tensor_on_host(table)
        &&& tensor_packed(table)
        &&& is_plain(tensor_dtype(table))
        &&& ids_below(array(positions), tensor_dims(table)[0])
        &&& countable(tensor_dims(table))
        &&& count(tensor_dims(table)) > 0
        &&& is_spanned(tensor_dims(table).update(0, tensor_dims(positions)[0]))
    }

    /// The tokens and positions on which everything but the kernel succeeds in host memory.
    pub open spec fn fits(self, ids: Tensor, positions: Tensor) -> bool {
        let tokens = tensor_dims(ids)[0];
        &&& self.embeddings.fits(ids)
        &&& tensor_on_host(positions)
        &&& tensor_dtype(positions) is U32
        &&& tensor_dims(positions).len() == 1
        &&& Self::is_table(self.cos_cache, positions)
        &&& Self::is_table(self.sin_cache, positions)
        &&& forall|k: int, x: Tensor|
            #![trigger self.layers@[k].fits(x)]
            0 <= k < self.layers@.len() && self.is_state(tokens, x) ==> self.layers@[k].fits(x)
        &&& forall|x: Tensor|
            self.is_state(tokens, x) ==> #[trigger] norm_fits(
                self.norm.weight,
                self.norm.epsilon,
                x,
            )
    }

    /// Whatever a layer asks of the kernel, the kernel answers.
    pub open spec fn is_served<K: Fn(AttentionCall) -> Result<Tensor, ModelError>>(
        self,
        kernel: K,
    ) -> bool {
        forall|k: int, place: Placement|
            0 <= k < self.layers@.len() ==> #[trigger] self.layers@[k].attention.is_served(
                kernel,
                place,
            )
    }

    /// The states of the tokens after all layers and the norm. The attention mask is not read: the
    /// bounds of the sequences say which tokens attend to each other.
    pub fn forward<K: Fn(AttentionCall) -> Result<Tensor, ModelError>>(
        &self,
        kernel: &K,
        input_ids: &Tensor,
        attention_mask: &Tensor,
        cu_seqlens: &Tensor,
        position_ids: &Tensor,
        max_s: usize,
    ) -> (r: Result<Tensor, ModelError>)
        requires
            self.is_sized(),
            is_readable(*input_ids),
            is_readable(*position_ids),
            is_kernel(*kernel),
        ensures
            r matches Ok(o) ==> {
                &&& self.encodes(
                    *kernel,
                    array(*input_ids),
                    array(*position_ids),
                    array(*cu_seqlens),
                    max_s as nat,
                    array(o),
                )
                &&& tensor_dims(*input_ids).len() == 1 ==> tensor_dims(o) == seq![
                    tensor_dims(*input_ids)[0],
                    self.embeddings.hidden_size as nat,
                ]
                &&& is_float(tensor_dtype(o))
                &&& tensor_packed(o)
            },
            r matches Err(e) ==> is_operation_error(e) || self.encoding_fails(
                *kernel,
                array(*input_ids),
                array(*position_ids),
                array(*cu_seqlens),
                max_s as nat,
                e,
            ),
            self.fits(*input_ids, *position_ids) && self.is_served(*kernel) ==> r is Ok
                && same_kind(r->Ok_0, self.embeddings.weight),
    {
        let ghost hidden = self.embeddings.hidden_size as nat;
        let ghost tokens = tensor_dims(*input_ids)[0];
        let ghost smooth = self.fits(*input_ids, *position_ids) && self.is_served(*kernel);
        let mut hidden_states: Tensor = self.embeddings.forward(input_ids)?;
        let ghost x = array(hidden_states);
        let cos: Tensor = pick(&self.cos_cache, position_ids)?;
        let sin: Tensor = pick(&self.sin_cache, position_ids)?;
        let ghost place = placement(*cu_seqlens, cos, sin, max_s);
        let mut residual: Option<Tensor> = None;
        let mut k: usize = 0;
        proof {
            if tensor_dims(*input_ids).len() == 1 {
                assert(tensor_dims(hidden_states) =~= seq![tokens, hidden]);
            }
        }
        while k < self.layers.len()
            invariant
                self.is_sized(),
                hidden == self.embeddings.hidden_size,
                tokens == tensor_dims(*input_ids)[0],
                smooth == (self.fits(*input_ids, *position_ids) && self.is_served(*kernel)),
                is_kernel(*kernel),
                is_float(tensor_dtype(hidden_states)),
                is_embedded(array(self.embeddings.weight), array(*input_ids), x),
                place == placement(*cu_seqlens, cos, sin, max_s),
                self.places(array(*position_ids), array(*cu_seqlens), max_s as nat, place),
                k <= self.layers@.len(),
                tensor_packed(hidden_states),
                tensor_starts_inside(hidden_states),
                tensor_dims(hidden_states).len() > 0,
                tensor_dims(hidden_states).last() == hidden,
                tensor_dims(*input_ids).len() == 1 ==> tensor_dims(hidden_states) == seq![
                    tokens,
                    hidden,
                ],
                smooth ==> same_kind(hidden_states, self.embeddings.weight),
                smooth ==> (residual matches Some(y) ==> alike(y, hidden_states)),
                self.layers_run(
                    *kernel,
                    k as nat,
                    x,
                    place,
                    array(hidden_states),
                    array_opt(residual),
                ),
            decreases self.layers@.len() - k,
        {
            let ghost h_before = array(hidden_states);
            let ghost residual_before = array_opt(residual);
            let layer: &BidirectionalMistralLayer = &self.layers[k];
            assert(layer.is_sized(hidden));
            proof {
                if smooth {
                    assert(self.is_state(tokens, hidden_states));
                    assert(self.layers@[k as int].attention.is_served(*kernel, place));
                }
            }
            let (h, sum) = match layer.forward(
                kernel,
                &hidden_states,
                residual.as_ref(),
                cu_seqlens,
                &cos,
                &sin,
                max_s,
            ) {
                Ok(pair) => pair,
                Err(e) => {
                    assert(is_operation_error(e) || self.kernel_fails(*kernel, x, place, e));
                    return Err(e);
                },
            };
            proof {
                self.lemma_next_layer(
                    *kernel,
                    k as nat,
                    x,
                    place,
                    (h_before, residual_before),
                    (array(h), array(sum)),
                );
            }
            hidden_states = h;
            residual = Some(sum);
            k = k + 1;
        }
        proof {
            if smooth {
                assert(self.is_state(tokens, hidden_states));
            }
        }
        let (outputs, sum) = self.norm.forward(&hidden_states, residual.as_ref())?;
        assert(self.steps(
            *kernel,
            array(*input_ids),
            array(*position_ids),
            array(*cu_seqlens),
            max_s as nat,
            x,
            place,
            array(hidden_states),
            array_opt(residual),
            array(sum),
            array(outputs),
        ));
        Ok(outputs)
    }
}

/// No two layers are read from the same place.
pub proof fn law_layers_are_read_from_different_places(
    root: Weights,
    a: nat,
    b: nat,
    place_a: Weights,
    place_b: Weights,
)
    requires
        is_below(root, layer_name(a), place_a),
        is_below(root, layer_name(b), place_b),
        weights_path(place_a) == weights_path(place_b),
    ensures
        a == b,
{
    assert(weights_path(place_a).last() == layer_name(a));
    assert(weights_path(place_b).last() == layer_name(b));
    law_layer_names_differ(a, b);
}

} // verus!
