//! The embedding model: a language model and a latent attention behind it.
use crate::array::{
    count, countable, has_host_matmul, has_host_norm, ids_below, in_bounds, is_convertible,
    is_float, is_joined, is_picked, is_plain, joined, law_joined_rows_are_rows, lemma_cells,
    lemma_count_three, lemma_count_two, lemma_span, lemma_span_two, multiplied, narrowed,
    products_fit, sizes, unsqueezed, vector, well_formed, Array,
};
use crate::attention::{is_kernel, AttentionCall};
use crate::batch::{Batch, ModelType};
use crate::config::NVEmbedConfig;
use crate::error::{lift, ModelError};
use crate::latent::{is_on_host, is_small, law_stored_model_takes_every_batch, LatentAttentionModel};
use crate::layers::{array_opt, is_float_type, is_operation_error, pick, vector_of};
use crate::mistral::{is_rotary, BidirectionalMistralModel, RotaryCall};
use crate::ops::{self, arrays};
use crate::tensor::{
    alike, array, device_is_cpu, is_readable, same_kind, tensor_dims, tensor_dtype, tensor_on_host,
    tensor_packed,
};
use crate::weights::{
    device_of, element_type, expect_countable, is_below, same_dtype, step, weights_device,
    weights_dtype, weights_on_cuda, weights_start_inside, Weights,
};
use candle_core::{DType, Device, Tensor};
use vstd::prelude::*;

verus! {

/// A model that turns sequences of tokens into embeddings.
pub struct FlashNVEmbedModel {
    pub embedding_model: BidirectionalMistralModel,
    pub latent_attention_model: LatentAttentionModel,
    pub is_mask_instruction: bool,
    pub device: Device,
}

/// The mask for pooling: the attention mask, times the instruction mask if there is one.
pub fn pool_mask(
    attention_mask: &Tensor,
    instruction_mask: Option<Vec<u32>>,
    shape: usize,
    device: &Device,
) -> (r: Result<Tensor, ModelError>)
    requires
        instruction_mask matches Some(mask) ==> mask@.len() == shape ==> {
            &&& tensor_dtype(*attention_mask) is U32
            &&& products_fit(array(*attention_mask), vector(mask@))
        },
    ensures
        instruction_mask is None ==> r is Ok,
        instruction_mask matches Some(mask) ==> mask@.len() != shape ==> (r matches Err(
            ModelError::ListLength { got, expected },
        ) && got == mask@.len() && expected == shape),
        r matches Ok(o) ==> {
            &&& alike(o, *attention_mask)
            &&& array(o) == match instruction_mask {
                Some(mask) => multiplied(array(*attention_mask), vector(mask@)),
                None => array(*attention_mask),
            }
        },
        instruction_mask is Some && tensor_dims(*attention_mask) != seq![shape as nat] ==> r is Err,
        r matches Err(e) ==> e is Candle || (instruction_mask is Some && e is ListLength
            && instruction_mask->Some_0@.len() != shape),
        device_is_cpu(*device) && tensor_on_host(*attention_mask) && tensor_dims(*attention_mask)
            == seq![shape as nat] && (instruction_mask matches Some(mask) ==> mask@.len() == shape)
            ==> r is Ok,
{
    match instruction_mask {
        Some(mask) => {
            let instructions: Tensor = vector_of(mask, shape, device)?;
            lift(attention_mask.mul(&instructions))
        },
        None => Ok(attention_mask.clone()),
    }
}

/// Rows put one below the other.
fn join_rows(rows: Vec<Tensor>) -> (r: Result<Tensor, ModelError>)
    requires
        rows@.len() > 0,
        tensor_dims(rows@[0]).len() == 2,
        forall|k: int|
            #![trigger rows@[k]]
            0 <= k < rows@.len() ==> {
                &&& tensor_dims(rows@[k]) == seq![1nat, tensor_dims(rows@[0])[1]]
                &&& same_kind(rows@[k], rows@[0])
                &&& tensor_packed(rows@[k])
            },
        tensor_dims(rows@[0])[1] > 0,
    ensures
        r matches Ok(o) ==> {
            &&& is_joined(arrays(rows@), 0, array(o))
            &&& tensor_dims(o) == seq![rows@.len(), tensor_dims(rows@[0])[1]]
            &&& same_kind(o, rows@[0])
            &&& tensor_packed(o)
            &&& is_readable(o)
        },
        r matches Err(e) ==> is_operation_error(e),
        tensor_on_host(rows@[0]) && is_plain(tensor_dtype(rows@[0])) && rows@.len() * tensor_dims(
            rows@[0],
        )[1] <= usize::MAX ==> r is Ok,
{
    let ghost parts = arrays(rows@);
    let ghost width = tensor_dims(rows@[0])[1];
    proof {
        assert forall|k: int| #![trigger parts[k]] 0 <= k < parts.len() implies parts[k].dims
            == seq![1nat, width] && parts[k].dtype == tensor_dtype(rows@[0]) && well_formed(
            parts[k],
        ) by {
            assert(parts[k] == array(rows@[k]));
        }
        law_joined_rows_are_rows(parts, width, tensor_dtype(rows@[0]));
        lemma_count_two(seq![rows@.len(), width]);
        lemma_cells(seq![1nat, width]);
        assert(parts.len() == rows@.len());
    }
    if rows.len() == 1 {
        let o: Tensor = rows[0].clone();
        proof {
            assert(array(o) == parts[0]);
            assert(tensor_dims(o) == array(o).dims);
        }
        return Ok(o);
    }
    let width_of_row: usize = lift(ops::dim(&rows[0], 1))?;
    let shape: Vec<usize> = vec![rows.len(), width_of_row];
    proof {
        assert(sizes(shape@) =~= seq![rows@.len(), width]);
        if rows@.len() * width <= usize::MAX {
            lemma_span_two(rows@.len(), width);
        }
    }
    expect_countable(&shape)?;
    let o: Tensor = lift(ops::cat(&rows, 0))?;
    proof {
        assert(tensor_dims(o) == array(o).dims);
        assert(tensor_dtype(o) == array(o).dtype);
    }
    Ok(o)
}

/// The embeddings that are asked for, and no others.
pub fn select(embeddings: &Tensor, pooled_indices: Vec<u32>, device: &Device) -> (r: Result<
    (Option<Tensor>, Option<Tensor>),
    ModelError,
>)
    requires
        is_readable(*embeddings),
    ensures
        pooled_indices@.len() == 0 ==> r is Ok,
        r matches Ok((pooled, raw)) ==> {
            &&& raw is None
            &&& pooled is Some <==> pooled_indices@.len() > 0
            &&& pooled matches Some(o) ==> {
                &&& tensor_dims(*embeddings).len() > 0
                &&& is_picked(array(*embeddings), vector(pooled_indices@), 0, array(o))
                &&& tensor_dims(o) == tensor_dims(*embeddings).update(0, pooled_indices@.len())
                &&& same_kind(o, *embeddings)
            }
        },
        r matches Err(e) ==> is_operation_error(e),
        can_select(*embeddings, pooled_indices@) && device_is_cpu(*device) ==> r is Ok,
{
    if pooled_indices.len() == 0 {
        return Ok((None, None));
    }
    let count: usize = pooled_indices.len();
    let ghost numbers = pooled_indices@;
    let indices: Tensor = vector_of(pooled_indices, count, device)?;
    proof {
        if can_select(*embeddings, numbers) {
            let dims = tensor_dims(*embeddings).update(0, numbers.len());
            lemma_cells(tensor_dims(*embeddings));
            lemma_cells(dims);
            lemma_span(dims);
        }
    }
    let selected: Tensor = pick(embeddings, &indices)?;
    Ok((Some(selected), None))
}

/// Embeddings in host memory that can be selected from.
pub open spec fn can_select(embeddings: Tensor, indices: Seq<u32>) -> bool {
    let dims = tensor_dims(embeddings);
    &&& dims.len() > 0
    &&& tensor_on_host(embeddings)
    &&& tensor_packed(embeddings)
    &&& is_plain(tensor_dtype(embeddings))
    &&& ids_below(vector(indices), dims[0])
    &&& countable(dims)
    &&& count(dims) > 0
    &&& countable(dims.update(0, indices.len()))
}

/// The states of the tokens from `start` up to `end`, as a batch of one sequence.
pub open spec fn sequence_states(states: Array, start: nat, end: nat) -> Array {
    unsqueezed(narrowed(states, 0, start, (end - start) as nat), 0)
}

/// The mask of the tokens from `start` up to `end`.
pub open spec fn sequence_mask(mask: Array, start: nat, end: nat) -> Array {
    narrowed(mask, 0, start, (end - start) as nat)
}

/// Sequence `k` has tokens, and they are among the first `tokens`.
pub open spec fn is_sequence(bounds: Seq<u32>, k: int, tokens: nat) -> bool {
    bounds[k] < bounds[k + 1] <= tokens
}

/// Sequence `k` lies between these bounds.
pub open spec fn has_bounds(bounds: Seq<u32>, k: int, start: usize, end: usize) -> bool {
    0 <= k < bounds.len() - 1 && bounds[k] == start && bounds[k + 1] == end
}

/// A batch of one sequence of this many tokens, with states of this width, of the kind of `like`.
pub open spec fn is_piece(like: Tensor, width: nat, len: nat, piece: Tensor) -> bool {
    &&& tensor_dims(piece) == seq![1nat, len, width]
    &&& same_kind(piece, like)
    &&& tensor_packed(piece)
}

impl FlashNVEmbedModel {
    /// The weights have shapes that belong together.
    pub open spec fn is_sized(self) -> bool {
        self.embedding_model.is_sized() && self.latent_attention_model.is_sized()
    }

    /// The tokens and the latents are floating-point numbers, as they are wherever the weights are
    /// handed out in the type that was asked for.
    pub open spec fn has_floats(self) -> bool {
        is_float(tensor_dtype(self.embedding_model.embeddings.weight)) && is_float(
            tensor_dtype(self.latent_attention_model.latents),
        )
    }

    /// Whether the tokens and the latents are floating-point numbers.
    pub fn holds_floats(&self) -> (r: bool)
        ensures
            r == self.has_floats(),
    {
        is_float_type(self.embedding_model.embeddings.weight.dtype()) && is_float_type(
            self.latent_attention_model.latents.dtype(),
        )
    }

    /// The weights and the purpose are such that a model can be loaded.
    pub open spec fn is_accepted(vb: Weights, model_type: ModelType) -> bool {
        weights_on_cuda(vb) && weights_dtype(vb) is F16 && model_type is Embedding
    }

    /// `e` is the error of the first part that was not read: the language model, the latent
    /// attention.
    pub open spec fn is_refused<R: Fn(RotaryCall) -> Result<(Tensor, Tensor), ModelError>>(
        rotary: R,
        vb: Weights,
        config: NVEmbedConfig,
        e: ModelError,
    ) -> bool {
        ||| BidirectionalMistralModel::is_refused(rotary, vb, config, e)
        ||| BidirectionalMistralModel::is_there(rotary, vb, config) && exists|place: Weights|
            #[trigger] is_below(vb, "latent_attention_model"@, place)
                && LatentAttentionModel::is_refused(place, config, e)
    }

    /// Reads the model from this place. The tables of angles come from `rotary`.
    pub fn load<R: Fn(RotaryCall) -> Result<(Tensor, Tensor), ModelError>>(
        vb: &Weights,
        config: &NVEmbedConfig,
        model_type: ModelType,
        rotary: &R,
    ) -> (r: Result<Self, ModelError>)
        requires
            Self::is_accepted(*vb, model_type) ==> config.text_config.is_sized()
                && config.latent_attention_config.is_sized() && (config.has_cells()
                || weights_start_inside(*vb)),
            is_rotary(*rotary),
        ensures
            !weights_on_cuda(*vb) ==> r matches Err(ModelError::RequiresCuda),
            weights_on_cuda(*vb) && !(weights_dtype(*vb) is F16)
                ==> r matches Err(ModelError::RequiresF16),
            weights_on_cuda(*vb) && weights_dtype(*vb) is F16 && model_type is Classifier
                ==> r matches Err(ModelError::ClassifierNotSupported),
            r matches Ok(model) ==> {
                &&& model.embedding_model.is_found(*vb, *config)
                &&& BidirectionalMistralModel::rotary_gives(
                    *rotary,
                    *vb,
                    *config,
                    Ok((model.embedding_model.cos_cache, model.embedding_model.sin_cache)),
                )
                &&& exists|place: Weights| #[trigger]
                    is_below(*vb, "latent_attention_model"@, place)
                        && model.latent_attention_model.is_stored(place, *config)
                &&& model.is_mask_instruction == (match config.is_mask_instruction {
                    Some(masked) => masked,
                    None => true,
                })
                &&& model.device == weights_device(*vb)
                &&& model.embedding_model.device == weights_device(*vb)
                &&& model.embedding_model.has_tables(
                    config.text_config.max_position_embeddings as nat,
                )
                &&& config.text_config.hidden_size > 0 && config.latent_attention_config.latent_dim
                    > 0 && model.has_floats() ==> model.is_sized()
            },
            r matches Err(e) ==> Self::is_accepted(*vb, model_type) ==> Self::is_refused(
                *rotary,
                *vb,
                *config,
                e,
            ),
    {
        if !device_of(vb).is_cuda() {
            return Err(ModelError::RequiresCuda);
        }
        if !same_dtype(element_type(vb), DType::F16) {
            return Err(ModelError::RequiresF16);
        }
        match model_type {
            ModelType::Classifier => {
                return Err(ModelError::ClassifierNotSupported);
            },
            ModelType::Embedding(_) => {},
        }
        let embedding_model: BidirectionalMistralModel = BidirectionalMistralModel::load(
            vb,
            config,
            rotary,
        )?;
        let place: Weights = step(vb, "latent_attention_model");
        let latent_attention_model: LatentAttentionModel = LatentAttentionModel::load(
            &place,
            config,
        )?;
        let is_mask_instruction: bool = match config.is_mask_instruction {
            Some(masked) => masked,
            None => true,
        };
        let model = FlashNVEmbedModel {
            embedding_model,
            latent_attention_model,
            is_mask_instruction,
            device: device_of(vb),
        };
        Ok(model)
    }

    /// Which tokens belong to an instruction. No instructions are recognised yet, whether they are
    /// to be masked or not.
    pub fn get_instruction_mask(&self, batch: &Batch) -> (r: Result<Option<Vec<u32>>, ModelError>)
        ensures
            r matches Ok(mask) && mask is None,
    {
        if !self.is_mask_instruction {
            return Ok(None);
        }
        Ok(None)
    }

    /// `row` is an outcome of the latent attention on the states and the mask of sequence `k`.
    pub open spec fn embeds_sequence(
        self,
        states: Array,
        mask: Array,
        bounds: Seq<u32>,
        k: int,
        row: Array,
    ) -> bool {
        let (start, end) = (bounds[k] as nat, bounds[k + 1] as nat);
        &&& start < end
        &&& self.latent_attention_model.embeds(
            sequence_states(states, start, end),
            Some(sequence_mask(mask, start, end)),
            row,
        )
        &&& row.dims == seq![1nat, tensor_dims(self.latent_attention_model.latents)[1]]
        &&& row.dtype == tensor_dtype(self.latent_attention_model.latents)
        &&& well_formed(row)
    }

    /// `embeddings` has one row for each sequence: an outcome of the latent attention on the states
    /// and the mask of that sequence alone.
    pub open spec fn embeds_sequences(
        self,
        states: Array,
        mask: Array,
        bounds: Seq<u32>,
        embeddings: Array,
    ) -> bool {
        exists|rows: Seq<Array>|
            {
                &&& rows.len() == bounds.len() - 1
                &&& forall|k: int|
                    0 <= k < rows.len() ==> self.embeds_sequence(
                        states,
                        mask,
                        bounds,
                        k,
                        #[trigger] rows[k],
                    )
                &&& #[trigger] is_joined(rows, 0, embeddings)
            }
    }

    /// The latent attention takes every sequence of this many tokens in host memory, with states of
    /// this width, of the kind of `like`.
    pub open spec fn fits_sequence(self, like: Tensor, width: nat, len: nat) -> bool {
        forall|piece: Tensor|
            is_piece(like, width, len, piece) ==> #[trigger] self.latent_attention_model.fits(piece)
    }

    /// The sequences between these bounds are among the tokens, and the latent attention takes
    /// them in host memory.
    pub open spec fn fits_sequences(
        self,
        like: Tensor,
        width: nat,
        tokens: nat,
        bounds: Seq<u32>,
    ) -> bool {
        &&& tensor_on_host(self.latent_attention_model.latents)
        &&& is_convertible(tensor_dtype(self.latent_attention_model.latents))
        &&& forall|k: int|
            0 <= k < bounds.len() - 1 ==> #[trigger] is_sequence(bounds, k, tokens)
                && self.fits_sequence(like, width, (bounds[k + 1] - bounds[k]) as nat)
    }

    /// One embedding per sequence can be held in host memory, and the indices name some of them.
    pub open spec fn has_embeddings(self, sequences: nat, indices: Seq<u32>) -> bool {
        let width = tensor_dims(self.latent_attention_model.latents)[1];
        &&& ids_below(vector(indices), sequences)
        &&& sequences * width <= usize::MAX
        &&& indices.len() * width <= usize::MAX
    }

    /// The states, the mask and the indices on which embedding in host memory succeeds.
    pub open spec fn embeds_states(
        self,
        states: Tensor,
        mask: Tensor,
        bounds: Seq<u32>,
        indices: Seq<u32>,
    ) -> bool {
        let dims = tensor_dims(states);
        &&& device_is_cpu(self.device)
        &&& tensor_packed(states)
        &&& tensor_on_host(mask)
        &&& is_convertible(tensor_dtype(mask))
        &&& tensor_dims(mask) == seq![dims[0]]
        &&& self.fits_sequences(states, dims[1], dims[0], bounds)
        &&& self.has_embeddings((bounds.len() - 1) as nat, indices)
    }

    /// `e` names the shape of the latents, of which there are none.
    pub open spec fn has_no_latents(self, e: ModelError) -> bool {
        let dims = tensor_dims(self.latent_attention_model.latents);
        dims[0] == 0 && (e matches ModelError::EmptyStates { dims: found } && sizes(found@) == dims)
    }

    /// Why the sequences between these bounds are not embedded, for states of this width.
    pub open spec fn refuses_sequences(
        self,
        width: nat,
        bounds: Seq<u32>,
        indices: Seq<u32>,
        e: ModelError,
    ) -> bool {
        ||| self.latent_attention_model.is_layer_error(e)
        ||| self.has_no_latents(e)
        ||| e matches ModelError::SequenceBounds { start, end } && start >= end && exists|k: int|
            #[trigger] has_bounds(bounds, k, start, end)
        ||| e matches ModelError::HiddenSize { got, expected } && got == width && expected
            == tensor_dims(self.latent_attention_model.latents)[1] && got != expected
        ||| e is NoSequences && bounds.len() == 1 && indices.len() > 0
    }

    /// The embedding of the sequence of tokens from `start` up to `end`.
    fn embed_sequence(
        &self,
        hidden_states: &Tensor,
        pool_mask: &Tensor,
        start: usize,
        end: usize,
    ) -> (r: Result<Tensor, ModelError>)
        requires
            self.latent_attention_model.is_sized(),
            is_float(tensor_dtype(*hidden_states)),
            tensor_dims(*hidden_states).len() == 2,
            tensor_dims(*pool_mask).len() == 1,
        ensures
            r matches Ok(o) ==> {
                &&& start < end
                &&& end <= tensor_dims(*hidden_states)[0]
                &&& tensor_dims(*hidden_states)[1] == tensor_dims(
                    self.latent_attention_model.latents,
                )[1]
                &&& self.latent_attention_model.embeds(
                    sequence_states(array(*hidden_states), start as nat, end as nat),
                    Some(sequence_mask(array(*pool_mask), start as nat, end as nat)),
                    array(o),
                )
                &&& tensor_dims(o) == seq![
                    1nat,
                    tensor_dims(self.latent_attention_model.latents)[1],
                ]
                &&& same_kind(o, self.latent_attention_model.latents)
                &&& tensor_packed(o)
            },
            r matches Err(e) ==> {
                ||| self.latent_attention_model.is_layer_error(e)
                ||| self.has_no_latents(e)
                ||| e matches ModelError::SequenceBounds { start: a, end: b } && a == start && b
                    == end && start >= end
                ||| e matches ModelError::HiddenSize { got, expected } && got == tensor_dims(
                    *hidden_states,
                )[1] && expected == tensor_dims(self.latent_attention_model.latents)[1] && got
                    != expected
            },
            start < end <= tensor_dims(*hidden_states)[0] && tensor_packed(*hidden_states)
                && tensor_on_host(*pool_mask) && is_convertible(tensor_dtype(*pool_mask))
                && tensor_dims(*pool_mask)[0] == tensor_dims(*hidden_states)[0] && is_convertible(
                tensor_dtype(self.latent_attention_model.latents),
            ) && self.fits_sequence(
                *hidden_states,
                tensor_dims(*hidden_states)[1],
                (end - start) as nat,
            ) ==> r is Ok,
    {
        if start >= end {
            return Err(ModelError::SequenceBounds { start, end });
        }
        let len: usize = end - start;
        let ghost width = tensor_dims(*hidden_states)[1];
        let rows: Tensor = lift(ops::narrow(hidden_states, 0, start, len))?;
        let piece: Tensor = lift(ops::unsqueeze(&rows, 0))?;
        let mask: Tensor = lift(ops::narrow(pool_mask, 0, start, len))?;
        proof {
            assert(tensor_dims(rows) == array(rows).dims);
            assert(tensor_dims(piece) == array(piece).dims);
            assert(tensor_dims(mask) == array(mask).dims);
            assert(tensor_dims(piece) =~= seq![1nat, len as nat, width]);
            assert(tensor_dims(mask) =~= seq![len as nat]);
            assert(tensor_dtype(piece) == array(piece).dtype);
            assert(tensor_dtype(mask) == array(mask).dtype);
            assert(array(*pool_mask).dtype == tensor_dtype(*pool_mask));
            assert(array(*hidden_states).dtype == tensor_dtype(*hidden_states));
            assert(array(rows).dtype == tensor_dtype(*hidden_states));
            assert(same_kind(piece, *hidden_states));
            let model = self.latent_attention_model;
            if tensor_packed(*hidden_states) && self.fits_sequence(
                *hidden_states,
                width,
                len as nat,
            ) {
                assert(is_piece(*hidden_states, width, len as nat, piece));
                assert(model.fits(piece));
                if is_convertible(tensor_dtype(model.latents)) && tensor_on_host(mask)
                    && is_convertible(tensor_dtype(mask)) {
                    self.lemma_piece_pools(piece, mask, len as nat);
                }
            }
        }
        self.latent_attention_model.forward(&piece, Some(&mask))
    }

    proof fn lemma_piece_pools(self, piece: Tensor, mask: Tensor, len: nat)
        requires
            self.latent_attention_model.fits(piece),
            tensor_dims(piece)[0] == 1,
            tensor_dims(piece)[1] == len,
            len <= usize::MAX,
            is_convertible(tensor_dtype(self.latent_attention_model.latents)),
            tensor_dims(mask) == seq![len],
            tensor_on_host(mask),
            is_convertible(tensor_dtype(mask)),
        ensures
            self.latent_attention_model.can_pool_all(piece, Some(&mask)),
    {
        let model = self.latent_attention_model;
        lemma_count_three(model.gathered_dims(1));
        assert forall|gathered: Tensor|
            model.is_like_laid_out(1, gathered) implies #[trigger] model.can_pool(
            gathered,
            Some(&mask),
            1usize,
            len as usize,
        ) by {
            assert(tensor_dims(gathered) == model.gathered_dims(1));
        }
    }

    /// The embeddings that are asked for, from the states of the language model: one row per token,
    /// cut into sequences at the bounds.
    pub fn embed_states(
        &self,
        hidden_states: &Tensor,
        pool_mask: &Tensor,
        bounds: &Vec<u32>,
        pooled_indices: Vec<u32>,
    ) -> (r: Result<(Option<Tensor>, Option<Tensor>), ModelError>)
        requires
            self.latent_attention_model.is_sized(),
            is_float(tensor_dtype(*hidden_states)),
            tensor_dims(*hidden_states).len() == 2,
            tensor_dims(*pool_mask).len() == 1,
            bounds@.len() > 0,
        ensures
            r matches Ok((pooled, raw)) ==> {
                &&& raw is None
                &&& pooled is Some <==> pooled_indices@.len() > 0
                &&& pooled matches Some(o) ==> tensor_dims(o) == seq![
                    pooled_indices@.len(),
                    tensor_dims(self.latent_attention_model.latents)[1],
                ]
                &&& forall|k: int|
                    0 <= k < bounds@.len() - 1 ==> #[trigger] is_sequence(
                        bounds@,
                        k,
                        tensor_dims(*hidden_states)[0],
                    )
                &&& exists|embeddings: Array| #[trigger]
                    self.embeds_sequences(
                        array(*hidden_states),
                        array(*pool_mask),
                        bounds@,
                        embeddings,
                    ) && (pooled matches Some(o) ==> is_picked(
                        embeddings,
                        vector(pooled_indices@),
                        0,
                        array(o),
                    ))
            },
            bounds@.len() == 1 ==> (if pooled_indices@.len() > 0 {
                r matches Err(ModelError::NoSequences)
            } else {
                r is Ok
            }),
            bounds@.len() > 1 && tensor_dims(*hidden_states)[1] != tensor_dims(
                self.latent_attention_model.latents,
            )[1] ==> r is Err,
            r matches Err(e) ==> self.refuses_sequences(
                tensor_dims(*hidden_states)[1],
                bounds@,
                pooled_indices@,
                e,
            ),
            self.embeds_states(*hidden_states, *pool_mask, bounds@, pooled_indices@) ==> r is Ok,
    {
        let ghost smooth = self.embeds_states(
            *hidden_states,
            *pool_mask,
            bounds@,
            pooled_indices@,
        );
        let ghost dims = tensor_dims(*hidden_states);
        let ghost width = tensor_dims(self.latent_attention_model.latents)[1];
        let sequences: usize = bounds.len() - 1;
        let mut rows: Vec<Tensor> = Vec::new();
        let mut k: usize = 0;
        while k < sequences
            invariant
                k <= sequences,
                sequences == bounds@.len() - 1,
                rows@.len() == k,
                dims == tensor_dims(*hidden_states),
                width == tensor_dims(self.latent_attention_model.latents)[1],
                smooth == self.embeds_states(
                    *hidden_states,
                    *pool_mask,
                    bounds@,
                    pooled_indices@,
                ),
                self.latent_attention_model.is_sized(),
                is_float(tensor_dtype(*hidden_states)),
                dims.len() == 2,
                tensor_dims(*pool_mask).len() == 1,
                k > 0 ==> dims[1] == width,
                forall|i: int| 0 <= i < k ==> #[trigger] is_sequence(bounds@, i, dims[0]),
                forall|i: int|
                    #![trigger rows@[i]]
                    0 <= i < k ==> {
                        &&& self.embeds_sequence(
                            array(*hidden_states),
                            array(*pool_mask),
                            bounds@,
                            i,
                            array(rows@[i]),
                        )
                        &&& same_kind(rows@[i], self.latent_attention_model.latents)
                        &&& tensor_packed(rows@[i])
                    },
            decreases sequences - k,
        {
            let start: usize = bounds[k] as usize;
            let end: usize = bounds[k + 1] as usize;
            proof {
                if smooth {
                    assert(is_sequence(bounds@, k as int, dims[0]));
                }
            }
            let row: Tensor = match self.embed_sequence(hidden_states, pool_mask, start, end) {
                Ok(row) => row,
                Err(e) => {
                    assert(has_bounds(bounds@, k as int, start, end));
                    return Err(e);
                },
            };
            proof {
                assert(tensor_dims(row) == array(row).dims);
                assert(is_sequence(bounds@, k as int, dims[0]));
                assert(self.embeds_sequence(
                    array(*hidden_states),
                    array(*pool_mask),
                    bounds@,
                    k as int,
                    array(row),
                ));
            }
            rows.push(row);
            k = k + 1;
        }
        let ghost parts = arrays(rows@);
        proof {
            assert forall|i: int| 0 <= i < parts.len() implies self.embeds_sequence(
                array(*hidden_states),
                array(*pool_mask),
                bounds@,
                i,
                #[trigger] parts[i],
            ) by {
                assert(parts[i] == array(rows@[i]));
            }
        }
        if sequences == 0 {
            if pooled_indices.len() > 0 {
                proof {
                    let first = seq![0nat];
                    assert(in_bounds(first, vector(pooled_indices@).dims));
                    assert(vector(pooled_indices@).cells[first] >= 0);
                }
                return Err(ModelError::NoSequences);
            }
            proof {
                let nothing = joined(parts, 0);
                assert(is_joined(parts, 0, nothing));
                assert(self.embeds_sequences(
                    array(*hidden_states),
                    array(*pool_mask),
                    bounds@,
                    nothing,
                ));
            }
            return Ok((None, None));
        }
        proof {
            law_joined_rows_are_rows(
                parts,
                width,
                tensor_dtype(self.latent_attention_model.latents),
            );
        }
        proof {
            assert(tensor_dims(rows@[0]) == array(rows@[0]).dims);
            assert forall|i: int| 0 <= i < rows@.len() implies tensor_dims(#[trigger] rows@[i])
                == seq![1nat, width] by {
                assert(tensor_dims(rows@[i]) == array(rows@[i]).dims);
            }
        }
        let embeddings: Tensor = join_rows(rows)?;
        proof {
            assert(self.embeds_sequences(
                array(*hidden_states),
                array(*pool_mask),
                bounds@,
                array(embeddings),
            ));
            let shape = tensor_dims(embeddings);
            assert(shape.update(0, pooled_indices@.len()) =~= seq![pooled_indices@.len(), width]);
            if smooth {
                lemma_count_two(shape);
                lemma_count_two(shape.update(0, pooled_indices@.len()));
                assert(sequences * width > 0) by (nonlinear_arith)
                    requires
                        sequences > 0,
                        width > 0,
                ;
            }
        }
        select(&embeddings, pooled_indices, &self.device)
    }

    /// `states` are an outcome of the language model on this batch.
    pub open spec fn encodes<K: Fn(AttentionCall) -> Result<Tensor, ModelError>>(
        self,
        kernel: K,
        batch: Batch,
        states: Array,
    ) -> bool {
        self.embedding_model.encodes(
            kernel,
            vector(batch.input_ids@),
            vector(batch.position_ids@),
            vector(batch.cumulative_seq_lengths@),
            batch.max_length as nat,
            states,
        )
    }

    /// The kernel failed on what the language model asks of it for this batch.
    pub open spec fn kernel_fails<K: Fn(AttentionCall) -> Result<Tensor, ModelError>>(
        self,
        kernel: K,
        batch: Batch,
        e: ModelError,
    ) -> bool {
        self.embedding_model.encoding_fails(
            kernel,
            vector(batch.input_ids@),
            vector(batch.position_ids@),
            vector(batch.cumulative_seq_lengths@),
            batch.max_length as nat,
            e,
        )
    }

    /// In host memory, with this kernel, the language model succeeds on this batch.
    pub open spec fn is_encoded<K: Fn(AttentionCall) -> Result<Tensor, ModelError>>(
        self,
        kernel: K,
        batch: Batch,
    ) -> bool {
        &&& device_is_cpu(self.device)
        &&& self.embedding_model.is_served(kernel)
        &&& forall|ids: Tensor, positions: Tensor|
            is_host_vector(ids, batch.input_ids@) && is_host_vector(positions, batch.position_ids@)
                ==> #[trigger] self.embedding_model.fits(ids, positions)
    }

    /// `pooled` holds the embeddings of the sequences that the batch asks for, if it asks for any.
    /// The sequences are cut out of the states of the language model.
    pub open spec fn answers<K: Fn(AttentionCall) -> Result<Tensor, ModelError>>(
        self,
        kernel: K,
        batch: Batch,
        pooled: Option<Array>,
    ) -> bool {
        let mask = vector(batch.attention_mask@);
        let bounds = batch.cumulative_seq_lengths@;
        &&& pooled is Some <==> batch.pooled_indices@.len() > 0
        &&& pooled matches Some(o) ==> o.dims == seq![
            batch.pooled_indices@.len(),
            tensor_dims(self.latent_attention_model.latents)[1],
        ]
        &&& exists|states: Array, embeddings: Array|
            {
                &&& self.encodes(kernel, batch, states)
                &&& #[trigger] self.embeds_sequences(states, mask, bounds, embeddings)
                &&& pooled matches Some(o) ==> is_picked(
                    embeddings,
                    vector(batch.pooled_indices@),
                    0,
                    o,
                )
            }
    }

    /// Why a batch is not embedded: a list that is too short or too long, the language model, the
    /// kernel, or the latent attention on one of the sequences.
    pub open spec fn refuses<K: Fn(AttentionCall) -> Result<Tensor, ModelError>>(
        self,
        kernel: K,
        batch: Batch,
        e: ModelError,
    ) -> bool {
        if !batch.is_even() {
            batch.is_uneven(e)
        } else {
            ||| is_operation_error(e)
            ||| self.kernel_fails(kernel, batch, e)
            ||| self.refuses_sequences(
                self.embedding_model.embeddings.hidden_size as nat,
                batch.cumulative_seq_lengths@,
                batch.pooled_indices@,
                e,
            ) && exists|states: Array| #[trigger] self.encodes(kernel, batch, states)
        }
    }

    /// In host memory, with this kernel, the batch is embedded.
    pub open spec fn succeeds<K: Fn(AttentionCall) -> Result<Tensor, ModelError>>(
        self,
        kernel: K,
        batch: Batch,
    ) -> bool {
        let bounds = batch.cumulative_seq_lengths@;
        let table = self.embedding_model.embeddings;
        &&& batch.is_even()
        &&& self.is_encoded(kernel, batch)
        &&& self.fits_sequences(
            table.weight,
            table.hidden_size as nat,
            batch.input_ids@.len(),
            bounds,
        )
        &&& self.has_embeddings((bounds.len() - 1) as nat, batch.pooled_indices@)
    }

    /// What the model gives for a batch. A batch with a list of the wrong length gives an error,
    /// one on which everything succeeds gives embeddings, and there are never any raw states.
    pub open spec fn is_outcome<K: Fn(AttentionCall) -> Result<Tensor, ModelError>>(
        self,
        kernel: K,
        batch: Batch,
        r: Result<(Option<Tensor>, Option<Tensor>), ModelError>,
    ) -> bool {
        &&& !batch.is_even() ==> r is Err
        &&& self.succeeds(kernel, batch) ==> r is Ok
        &&& r matches Ok((pooled, raw)) ==> {
            &&& raw is None
            &&& self.answers(kernel, batch, array_opt(pooled))
            &&& forall|k: int|
                0 <= k < batch.cumulative_seq_lengths@.len() - 1 ==> #[trigger] is_sequence(
                    batch.cumulative_seq_lengths@,
                    k,
                    batch.input_ids@.len(),
                )
        }
        &&& r matches Err(e) ==> self.refuses(kernel, batch, e)
    }

    /// Runs the language model on the batch, and the latent attention on each of its sequences.
    pub fn forward<K: Fn(AttentionCall) -> Result<Tensor, ModelError>>(
        &self,
        kernel: &K,
        batch: Batch,
    ) -> (r: Result<(Option<Tensor>, Option<Tensor>), ModelError>)
        requires
            self.is_sized(),
            batch.cumulative_seq_lengths@.len() > 0,
            is_kernel(*kernel),
        ensures
            self.is_outcome(*kernel, batch, r),
    {
        batch.expect_even()?;
        let batch_size: usize = batch.cumulative_seq_lengths.len() - 1;
        let shape: usize = batch.input_ids.len();
        let input_ids: Tensor = vector_of(batch.input_ids.clone(), shape, &self.device)?;
        let position_ids: Tensor = vector_of(batch.position_ids.clone(), shape, &self.device)?;
        let attention_mask: Tensor = vector_of(batch.attention_mask.clone(), shape, &self.device)?;
        let cu_seqlens: Tensor = vector_of(
            batch.cumulative_seq_lengths.clone(),
            batch_size + 1,
            &self.device,
        )?;
        let instruction_mask: Option<Vec<u32>> = self.get_instruction_mask(&batch)?;
        let mask: Tensor = pool_mask(&attention_mask, instruction_mask, shape, &self.device)?;
        proof {
            if self.is_encoded(*kernel, batch) {
                assert(is_host_vector(input_ids, batch.input_ids@));
                assert(is_host_vector(position_ids, batch.position_ids@));
                assert(self.embedding_model.fits(input_ids, position_ids));
            }
        }
        let hidden_states: Tensor = self.embedding_model.forward(
            kernel,
            &input_ids,
            &attention_mask,
            &cu_seqlens,
            &position_ids,
            batch.max_length as usize,
        )?;
        proof {
            assert(self.encodes(*kernel, batch, array(hidden_states)));
            if self.succeeds(*kernel, batch) {
                self.lemma_like(
                    self.embedding_model.embeddings.weight,
                    hidden_states,
                    batch.cumulative_seq_lengths@,
                );
            }
        }
        let bounds: Vec<u32> = batch.cumulative_seq_lengths;
        self.embed_states(&hidden_states, &mask, &bounds, batch.pooled_indices)
    }

    /// Which sequences are taken depends on the kind of the states only.
    proof fn lemma_like(self, like: Tensor, states: Tensor, bounds: Seq<u32>)
        requires
            same_kind(states, like),
            self.fits_sequences(like, tensor_dims(states)[1], tensor_dims(states)[0], bounds),
        ensures
            self.fits_sequences(states, tensor_dims(states)[1], tensor_dims(states)[0], bounds),
    {
        let (tokens, width) = (tensor_dims(states)[0], tensor_dims(states)[1]);
        assert forall|k: int| 0 <= k < bounds.len() - 1 implies #[trigger] is_sequence(
            bounds,
            k,
            tokens,
        ) && self.fits_sequence(states, width, (bounds[k + 1] - bounds[k]) as nat) by {
            let len = (bounds[k + 1] - bounds[k]) as nat;
            assert(is_sequence(bounds, k, tokens));
            assert(self.fits_sequence(like, width, len));
            let latents = self.latent_attention_model;
            assert forall|piece: Tensor|
                is_piece(states, width, len, piece) implies #[trigger] latents.fits(piece) by {
                assert(is_piece(like, width, len, piece));
            }
        }
    }

    /// Whether the sequences of a batch are to be padded to one length.
    pub fn is_padded(&self) -> (r: bool)
        ensures
            !r,
    {
        false
    }

    /// The embeddings of a batch.
    pub fn embed<K: Fn(AttentionCall) -> Result<Tensor, ModelError>>(
        &self,
        kernel: &K,
        batch: Batch,
    ) -> (r: Result<(Option<Tensor>, Option<Tensor>), ModelError>)
        requires
            self.is_sized(),
            batch.cumulative_seq_lengths@.len() > 0,
            is_kernel(*kernel),
        ensures
            self.is_outcome(*kernel, batch, r),
    {
        self.forward(kernel, batch)
    }
}

/// A tensor in host memory that holds these numbers.
pub open spec fn is_host_vector(t: Tensor, numbers: Seq<u32>) -> bool {
    array(t) == vector(numbers) && tensor_on_host(t) && tensor_packed(t)
}

/// In host memory, a stored latent attention takes every sequence that is as wide as its latents,
/// whatever its length.
pub proof fn law_stored_latents_take_every_sequence(
    model: FlashNVEmbedModel,
    vb: Weights,
    config: NVEmbedConfig,
    like: Tensor,
    len: nat,
)
    requires
        model.latent_attention_model.is_stored(vb, config),
        is_on_host(model.latent_attention_model, weights_dtype(vb)),
        has_host_matmul(weights_dtype(vb)),
        has_host_norm(weights_dtype(vb)),
        config.latent_attention_config.num_latents_value > 0,
        config.latent_attention_config.latent_dim > 0,
        config.latent_attention_config.hidden_dim == config.latent_attention_config.latent_dim,
        config.latent_attention_config.num_cross_heads > 0,
        config.latent_attention_config.head_size() > 0,
        same_kind(like, model.latent_attention_model.latents),
        len > 0,
        is_small(config, 1, len),
    ensures
        model.fits_sequence(like, config.latent_attention_config.latent_dim as nat, len),
{
    let width = config.latent_attention_config.latent_dim as nat;
    let latents = model.latent_attention_model;
    assert forall|piece: Tensor| is_piece(like, width, len, piece) implies #[trigger] latents.fits(
        piece,
    ) by {
        law_stored_model_takes_every_batch(latents, vb, config, piece);
    }
}

/// Each row of the embeddings is an outcome of the latent attention on the states and the mask of
/// one sequence, in the order of the sequences.
pub proof fn law_each_row_embeds_its_sequence(
    model: FlashNVEmbedModel,
    states: Array,
    mask: Array,
    bounds: Seq<u32>,
    embeddings: Array,
    k: int,
)
    requires
        model.embeds_sequences(states, mask, bounds, embeddings),
        countable(embeddings.dims),
        0 <= k < bounds.len() - 1,
    ensures
        embeddings.dims == seq![
            (bounds.len() - 1) as nat,
            tensor_dims(model.latent_attention_model.latents)[1],
        ],
        model.embeds_sequence(states, mask, bounds, k, narrowed(embeddings, 0, k as nat, 1)),
{
    let rows = choose|rows: Seq<Array>|
        {
            &&& rows.len() == bounds.len() - 1
            &&& forall|k: int|
                0 <= k < rows.len() ==> model.embeds_sequence(
                    states,
                    mask,
                    bounds,
                    k,
                    #[trigger] rows[k],
                )
            &&& #[trigger] is_joined(rows, 0, embeddings)
        };
    let latents = model.latent_attention_model.latents;
    assert(rows[k] == rows[k]);
    law_joined_rows_are_rows(rows, tensor_dims(latents)[1], tensor_dtype(latents));
}

/// Each sequence stands alone: its embedding depends on the states and the mask of its own tokens,
/// wherever they are in the batch and whatever else is in it.
pub proof fn law_sequences_stand_alone(
    model: FlashNVEmbedModel,
    states: Array,
    mask: Array,
    bounds: Seq<u32>,
    k: int,
    other_states: Array,
    other_mask: Array,
    other_bounds: Seq<u32>,
    j: int,
    row: Array,
)
    requires
        bounds[k] < bounds[k + 1],
        other_bounds[j] < other_bounds[j + 1],
        sequence_states(states, bounds[k] as nat, bounds[k + 1] as nat) == sequence_states(
            other_states,
            other_bounds[j] as nat,
            other_bounds[j + 1] as nat,
        ),
        sequence_mask(mask, bounds[k] as nat, bounds[k + 1] as nat) == sequence_mask(
            other_mask,
            other_bounds[j] as nat,
            other_bounds[j + 1] as nat,
        ),
    ensures
        model.embeds_sequence(states, mask, bounds, k, row) <==> model.embeds_sequence(
            other_states,
            other_mask,
            other_bounds,
            j,
            row,
        ),
{
}

/// Every embedding that a batch asks for is the one of the sequence that the index names.
pub proof fn law_pooled_rows_are_of_the_sequences_asked_for<
    K: Fn(AttentionCall) -> Result<Tensor, ModelError>,
>(model: FlashNVEmbedModel, kernel: K, batch: Batch, pooled: Array, i: int)
    requires
        model.answers(kernel, batch, Some(pooled)),
        0 <= i < batch.pooled_indices@.len(),
        ids_below(
            vector(batch.pooled_indices@),
            (batch.cumulative_seq_lengths@.len() - 1) as nat,
        ),
        (batch.cumulative_seq_lengths@.len() - 1) * tensor_dims(
            model.latent_attention_model.latents,
        )[1] <= usize::MAX,
    ensures
        exists|states: Array|
            {
                &&& #[trigger] model.encodes(kernel, batch, states)
                &&& model.embeds_sequence(
                    states,
                    vector(batch.attention_mask@),
                    batch.cumulative_seq_lengths@,
                    batch.pooled_indices@[i] as int,
                    narrowed(pooled, 0, i as nat, 1),
                )
            },
{
    let mask = vector(batch.attention_mask@);
    let bounds = batch.cumulative_seq_lengths@;
    let numbers = batch.pooled_indices@;
    let (states, embeddings) = choose|states: Array, embeddings: Array|
        {
            &&& model.encodes(kernel, batch, states)
            &&& #[trigger] model.embeds_sequences(states, mask, bounds, embeddings)
            &&& is_picked(embeddings, vector(numbers), 0, pooled)
        };
    lemma_number(numbers, i);
    lemma_embedding_dims(model, states, mask, bounds, embeddings);
    lemma_count_two(embeddings.dims);
    law_each_row_embeds_its_sequence(model, states, mask, bounds, embeddings, numbers[i] as int);
    lemma_picked_row(embeddings, numbers, pooled, i);
}

pub(crate) proof fn lemma_number(numbers: Seq<u32>, i: int)
    requires
        0 <= i < numbers.len(),
    ensures
        vector(numbers).cells[seq![i as nat]] == numbers[i],
        vector(numbers).dims == seq![numbers.len()],
{
    assert(in_bounds(seq![i as nat], vector(numbers).dims));
}

/// There is one row for each sequence.
pub(crate) proof fn lemma_embedding_dims(
    model: FlashNVEmbedModel,
    states: Array,
    mask: Array,
    bounds: Seq<u32>,
    embeddings: Array,
)
    requires
        model.embeds_sequences(states, mask, bounds, embeddings),
        bounds.len() > 1,
    ensures
        embeddings.dims == seq![
            (bounds.len() - 1) as nat,
            tensor_dims(model.latent_attention_model.latents)[1],
        ],
{
    let latents = model.latent_attention_model.latents;
    let rows = choose|rows: Seq<Array>|
        {
            &&& rows.len() == bounds.len() - 1
            &&& forall|k: int|
                0 <= k < rows.len() ==> model.embeds_sequence(
                    states,
                    mask,
                    bounds,
                    k,
                    #[trigger] rows[k],
                )
            &&& #[trigger] is_joined(rows, 0, embeddings)
        };
    law_joined_rows_are_rows(rows, tensor_dims(latents)[1], tensor_dtype(latents));
}

/// A picked row is the row that the number names.
pub(crate) proof fn lemma_picked_row(a: Array, numbers: Seq<u32>, out: Array, i: int)
    requires
        a.dims.len() == 2,
        is_picked(a, vector(numbers), 0, out),
        ids_below(vector(numbers), a.dims[0]),
        0 <= i < numbers.len(),
    ensures
        narrowed(out, 0, i as nat, 1) == narrowed(a, 0, numbers[i] as nat, 1),
{
    let k = numbers[i] as nat;
    lemma_number(numbers, i);
    let row = narrowed(out, 0, i as nat, 1);
    let source = narrowed(a, 0, k, 1);
    assert(row.dims =~= source.dims);
    assert forall|p: Seq<nat>| in_bounds(p, row.dims) implies row.cells[p] == source.cells[p] by {
        let at = p.update(0, p[0] + i as nat);
        assert(p[0] < row.dims[0] && p[1] < row.dims[1]);
        assert(in_bounds(at, out.dims));
        assert(at[0] == i);
        assert(at.update(0, k) =~= p.update(0, p[0] + k));
    }
    assert(row.cells =~= source.cells);
}

/// Whether instructions are to be masked has no influence: what is an outcome with the flag is one
/// without it.
pub proof fn law_instruction_flag_has_no_influence<
    K: Fn(AttentionCall) -> Result<Tensor, ModelError>,
>(
    model: FlashNVEmbedModel,
    other: FlashNVEmbedModel,
    kernel: K,
    batch: Batch,
    r: Result<(Option<Tensor>, Option<Tensor>), ModelError>,
)
    requires
        other == (FlashNVEmbedModel { is_mask_instruction: !model.is_mask_instruction, ..model }),
    ensures
        model.is_outcome(kernel, batch, r) <==> other.is_outcome(kernel, batch, r),
{
    assert(other.embedding_model == model.embedding_model);
    assert(other.latent_attention_model == model.latent_attention_model);
    assert(other.device == model.device);
    let mask = vector(batch.attention_mask@);
    let bounds = batch.cumulative_seq_lengths@;
    assert forall|states: Array, embeddings: Array|
        model.embeds_sequences(states, mask, bounds, embeddings) == other.embeds_sequences(
            states,
            mask,
            bounds,
            embeddings,
        ) by {
        if model.embeds_sequences(states, mask, bounds, embeddings) {
            lemma_same_rows(model, other, states, mask, bounds, embeddings);
        }
        if other.embeds_sequences(states, mask, bounds, embeddings) {
            lemma_same_rows(other, model, states, mask, bounds, embeddings);
        }
    }
    assert forall|states: Array|
        model.encodes(kernel, batch, states) == other.encodes(kernel, batch, states) by {}
    assert(model.succeeds(kernel, batch) == other.succeeds(kernel, batch));
    match r {
        Ok((pooled, _)) => {
            let asked = array_opt(pooled);
            assert(model.answers(kernel, batch, asked) == other.answers(kernel, batch, asked));
        },
        Err(e) => {
            assert(model.refuses(kernel, batch, e) == other.refuses(kernel, batch, e));
        },
    }
}

/// The embeddings are those of the latent attention.
proof fn lemma_same_rows(
    model: FlashNVEmbedModel,
    other: FlashNVEmbedModel,
    states: Array,
    mask: Array,
    bounds: Seq<u32>,
    embeddings: Array,
)
    requires
        model.latent_attention_model == other.latent_attention_model,
        model.embeds_sequences(states, mask, bounds, embeddings),
    ensures
        other.embeds_sequences(states, mask, bounds, embeddings),
{
    let rows = choose|rows: Seq<Array>|
        {
            &&& rows.len() == bounds.len() - 1
            &&& forall|k: int|
                0 <= k < rows.len() ==> model.embeds_sequence(
                    states,
                    mask,
                    bounds,
                    k,
                    #[trigger] rows[k],
                )
            &&& #[trigger] is_joined(rows, 0, embeddings)
        };
    assert forall|k: int| 0 <= k < rows.len() implies other.embeds_sequence(
        states,
        mask,
        bounds,
        k,
        #[trigger] rows[k],
    ) by {
        assert(model.embeds_sequence(states, mask, bounds, k, rows[k]));
    }
    assert(is_joined(rows, 0, embeddings));
}

/// The attention mask has no influence on the language model: the bounds of the sequences say which
/// tokens attend to each other.
pub proof fn law_attention_mask_does_not_reach_the_language_model<
    K: Fn(AttentionCall) -> Result<Tensor, ModelError>,
>(model: FlashNVEmbedModel, kernel: K, batch: Batch, other: Batch, states: Array)
    requires
        other.input_ids@ == batch.input_ids@,
        other.position_ids@ == batch.position_ids@,
        other.cumulative_seq_lengths@ == batch.cumulative_seq_lengths@,
        other.max_length == batch.max_length,
    ensures
        model.encodes(kernel, batch, states) <==> model.encodes(kernel, other, states),
{
}

/// A token whose instruction mask is zero is masked out for pooling, and a token whose instruction
/// mask is one keeps its attention mask.
pub proof fn law_instructions_are_masked_out(
    attention_mask: Array,
    instruction_mask: Seq<u32>,
    k: nat,
)
    requires
        attention_mask.dims == seq![instruction_mask.len()],
        k < instruction_mask.len(),
    ensures
        instruction_mask[k as int] == 0 ==> multiplied(
            attention_mask,
            vector(instruction_mask),
        ).cells[seq![k]] == 0,
        instruction_mask[k as int] == 1 ==> multiplied(
            attention_mask,
            vector(instruction_mask),
        ).cells[seq![k]] == attention_mask.cells[seq![k]],
{
    let i = seq![k];
    assert(in_bounds(i, attention_mask.dims));
    assert(vector(instruction_mask).cells[i] == instruction_mask[k as int]);
    let a = attention_mask.cells[i];
    assert(a * 0 == 0 && a * 1 == a);
}

} // verus!
