//! How calls of the embedding model relate to each other and to calls of its parts.
use crate::array::{ids_below, in_bounds, narrowed, picked, unsqueezed, vector, well_formed, Array};
use crate::attention::{is_kernel, AttentionCall, Placement};
use crate::batch::Batch;
use crate::error::ModelError;
use crate::exact::{same, sum_is_local, works_slice_by_slice};
use crate::latent_laws::is_taken;
use crate::layers::{array_opt, is_operation_error};
use crate::mistral::BidirectionalMistralModel;
use crate::model::{
    is_sequence, law_pooled_rows_are_of_the_sequences_asked_for, lemma_number, lemma_picked_row,
    pool_mask, select, sequence_mask, sequence_states, FlashNVEmbedModel,
};
use crate::pool_calls::{latents_gave, lemma_embeds_same};
use crate::rows::{is_arrangement, lemma_run_is_narrowed, run};
use crate::tensor::{array, tensor_dims, tensor_dtype};
use crate::token_calls::{
    answers_alike, is_same_residual, lemma_layer_same, lemma_rms_same, model_gave,
};
use crate::token_laws::{
    are_known, bound, has_full_layers, is_in_order, keeps_to_sequences,
    law_language_model_keeps_to_sequences, lists_sequence, Tokens,
};
use candle_core::{Device, Tensor};
use vstd::prelude::*;

verus! {

proof fn lemma_stack_same<K: Fn(AttentionCall) -> Result<Tensor, ModelError>>(
    model: BidirectionalMistralModel,
    kernel: K,
    n: nat,
    x: Array,
    place: Placement,
    h: Array,
    residual: Option<Array>,
    other: Array,
    other_residual: Option<Array>,
)
    requires
        works_slice_by_slice(),
        is_kernel(kernel),
        answers_alike(kernel),
        model.is_sized(),
        n <= model.layers@.len(),
        x.dims.len() == 2,
        x.dims[1] == model.embeddings.hidden_size,
        has_full_layers(model, x.dims[0]),
        model.layers_run(kernel, n, x, place, h, residual),
        model.layers_run(kernel, n, x, place, other, other_residual),
    ensures
        same(h, other),
        is_same_residual(residual, other_residual),
        h.dims == x.dims,
        residual matches Some(r) ==> r.dims == x.dims,
    decreases n,
{
    if n > 0 {
        let layer = model.layers@[n - 1];
        let m = (n - 1) as nat;
        let (hb, rb) = choose|hb: Array, rb: Option<Array>|
            {
                &&& model.layers_run(kernel, m, x, place, hb, rb)
                &&& #[trigger] layer.runs(kernel, hb, rb, place, h, residual->Some_0)
            };
        let (hc, rc) = choose|hb: Array, rb: Option<Array>|
            {
                &&& model.layers_run(kernel, m, x, place, hb, rb)
                &&& #[trigger] layer.runs(kernel, hb, rb, place, other, other_residual->Some_0)
            };
        lemma_stack_same(model, kernel, m, x, place, hb, rb, hc, rc);
        assert(layer.is_sized(model.embeddings.hidden_size as nat));
        lemma_layer_same(
            layer,
            kernel,
            place,
            hb,
            rb,
            h,
            residual->Some_0,
            hc,
            rc,
            other,
            other_residual->Some_0,
        );
    } else {
        assert(same(x, x));
    }
}

/// What the language model gives for the same tokens is the same, with a kernel that gives the same
/// whenever it is asked the same.
proof fn lemma_encodes_same<K: Fn(AttentionCall) -> Result<Tensor, ModelError>>(
    model: BidirectionalMistralModel,
    kernel: K,
    t: Tokens,
    out: Array,
    other: Array,
)
    requires
        works_slice_by_slice(),
        is_kernel(kernel),
        answers_alike(kernel),
        model.is_sized(),
        are_known(model, t),
        model.encodes(kernel, t.ids, t.positions, t.bounds, t.max_s, out),
        model.encodes(kernel, t.ids, t.positions, t.bounds, t.max_s, other),
    ensures
        same(out, other),
        out.dims == seq![t.ids.dims[0], model.embeddings.hidden_size as nat],
{
    let (x, place, h, residual, sum) = choose|
        x: Array,
        place: Placement,
        h: Array,
        residual: Option<Array>,
        sum: Array,
    | #[trigger]
        model.steps(
            kernel,
            t.ids,
            t.positions,
            t.bounds,
            t.max_s,
            x,
            place,
            h,
            residual,
            sum,
            out,
        );
    let (x2, place2, h2, residual2, sum2) = choose|
        x: Array,
        place: Placement,
        h: Array,
        residual: Option<Array>,
        sum: Array,
    | #[trigger]
        model.steps(
            kernel,
            t.ids,
            t.positions,
            t.bounds,
            t.max_s,
            x,
            place,
            h,
            residual,
            sum,
            other,
        );
    let weight = array(model.embeddings.weight);
    assert(weight.dims == tensor_dims(model.embeddings.weight));
    assert(array(model.cos_cache).dims == tensor_dims(model.cos_cache));
    assert(array(model.sin_cache).dims == tensor_dims(model.sin_cache));
    assert(x == picked(weight, t.ids, 0) && x2 == x);
    assert(place =~= place2);
    assert(x.dims =~= seq![t.ids.dims[0], model.embeddings.hidden_size as nat]);
    lemma_stack_same(model, kernel, model.layers@.len(), x, place, h, residual, h2, residual2);
    lemma_rms_same(model.norm, h, residual, out, sum, h2, residual2, other, sum2);
}

/// The tokens of a batch, as the language model is handed them.
pub open spec fn tokens_of(batch: Batch) -> Tokens {
    Tokens {
        ids: vector(batch.input_ids@),
        positions: vector(batch.position_ids@),
        bounds: vector(batch.cumulative_seq_lengths@),
        max_s: batch.max_length as nat,
    }
}

/// The part of a list that is about the tokens of sequence `k`.
pub open spec fn part_of(list: Seq<u32>, bounds: Seq<u32>, k: int) -> Seq<u32> {
    list.subrange(bounds[k] as int, bounds[k + 1] as int)
}

/// Sequence `k` of a batch and sequence `j` of another are made of the same tokens, at the same
/// positions.
pub open spec fn has_same_sequence(batch: Batch, k: int, other: Batch, j: int) -> bool {
    let (of_batch, of_other) = (batch.cumulative_seq_lengths@, other.cumulative_seq_lengths@);
    &&& 0 <= k < of_batch.len() - 1
    &&& 0 <= j < of_other.len() - 1
    &&& of_batch[k] < of_batch[k + 1] <= batch.input_ids@.len()
    &&& of_other[j] < of_other[j + 1] <= other.input_ids@.len()
    &&& part_of(batch.input_ids@, of_batch, k) == part_of(other.input_ids@, of_other, j)
    &&& part_of(batch.position_ids@, of_batch, k) == part_of(other.position_ids@, of_other, j)
}

/// The batch is made of sequence `k` of another batch, and of nothing else.
pub open spec fn is_alone(alone: Batch, batch: Batch, k: int) -> bool {
    let bounds = batch.cumulative_seq_lengths@;
    &&& 0 <= k < bounds.len() - 1
    &&& bounds[k] < bounds[k + 1] <= batch.input_ids@.len()
    &&& alone.input_ids@ == part_of(batch.input_ids@, bounds, k)
    &&& alone.position_ids@ == part_of(batch.position_ids@, bounds, k)
    &&& alone.attention_mask@ == part_of(batch.attention_mask@, bounds, k)
    &&& alone.cumulative_seq_lengths@ == seq![0u32, (bounds[k + 1] - bounds[k]) as u32]
}

proof fn lemma_part(list: Seq<u32>, start: nat, end: nat)
    requires
        start <= end <= list.len(),
    ensures
        narrowed(vector(list), 0, start, (end - start) as nat) == vector(
            list.subrange(start as int, end as int),
        ),
{
    let a = narrowed(vector(list), 0, start, (end - start) as nat);
    let b = vector(list.subrange(start as int, end as int));
    assert(a.dims =~= b.dims);
    assert forall|i: Seq<nat>| in_bounds(i, a.dims) implies a.cells[i] == b.cells[i] by {
        assert(i[0] < a.dims[0]);
        let at = i.update(0, i[0] + start);
        assert(in_bounds(at, vector(list).dims));
        assert(in_bounds(i, b.dims));
    }
    assert(a.cells =~= b.cells);
}

proof fn lemma_bounds(bounds: Seq<u32>, k: int)
    requires
        0 <= k < bounds.len() - 1,
        bounds[k] <= bounds[k + 1],
    ensures
        bound(vector(bounds), k as nat) == bounds[k],
        bound(vector(bounds), (k + 1) as nat) == bounds[k + 1],
        lists_sequence(
            run(bounds[k] as nat, (bounds[k + 1] - bounds[k]) as nat),
            vector(bounds),
            k as nat,
        ),
        is_in_order(
            run(bounds[k] as nat, (bounds[k + 1] - bounds[k]) as nat),
            vector(bounds),
            k as nat,
        ),
{
    lemma_number(bounds, k);
    lemma_number(bounds, k + 1);
    let list = run(bounds[k] as nat, (bounds[k + 1] - bounds[k]) as nat);
    assert(is_arrangement(list, bounds[k] as nat, bounds[k + 1] as nat));
}

/// The states of a sequence are those of its own tokens: two batches that have a sequence in
/// common, wherever its bounds put it and whatever else is in them, have the same states for it.
pub proof fn law_a_sequence_has_its_own_states<
    K: Fn(AttentionCall) -> Result<Tensor, ModelError>,
>(
    model: FlashNVEmbedModel,
    kernel: K,
    batch: Batch,
    states: Array,
    k: int,
    other: Batch,
    other_states: Array,
    j: int,
)
    requires
        works_slice_by_slice(),
        is_kernel(kernel),
        keeps_to_sequences(kernel),
        model.is_sized(),
        are_known(model.embedding_model, tokens_of(batch)),
        are_known(model.embedding_model, tokens_of(other)),
        has_same_sequence(batch, k, other, j),
        model.encodes(kernel, batch, states),
        model.encodes(kernel, other, other_states),
    ensures
        narrowed(
            states,
            0,
            batch.cumulative_seq_lengths@[k] as nat,
            (batch.cumulative_seq_lengths@[k + 1] - batch.cumulative_seq_lengths@[k]) as nat,
        ) == narrowed(
            other_states,
            0,
            other.cumulative_seq_lengths@[j] as nat,
            (other.cumulative_seq_lengths@[j + 1] - other.cumulative_seq_lengths@[j]) as nat,
        ),
        batch.cumulative_seq_lengths@[k + 1] - batch.cumulative_seq_lengths@[k]
            == other.cumulative_seq_lengths@[j + 1] - other.cumulative_seq_lengths@[j],
        states.dims == seq![
            batch.input_ids@.len(),
            model.embedding_model.embeddings.hidden_size as nat,
        ],
        other_states.dims == seq![
            other.input_ids@.len(),
            model.embedding_model.embeddings.hidden_size as nat,
        ],
{
    let (p, q) = (batch.cumulative_seq_lengths@, other.cumulative_seq_lengths@);
    let (a, b) = (tokens_of(batch), tokens_of(other));
    let (start, other_start) = (p[k] as nat, q[j] as nat);
    let len = (p[k + 1] - p[k]) as nat;
    assert(part_of(batch.input_ids@, p, k).len() == len);
    assert(part_of(other.input_ids@, q, j).len() == q[j + 1] - q[j]);
    let (of_a, of_b) = (run(start, len), run(other_start, len));
    assert(a.ids.dims[0] == batch.input_ids@.len());
    assert(b.ids.dims[0] == other.input_ids@.len());
    assert(a.positions.dims[0] == batch.position_ids@.len());
    assert(b.positions.dims[0] == other.position_ids@.len());
    lemma_bounds(p, k);
    lemma_bounds(q, j);
    lemma_part(batch.input_ids@, start, p[k + 1] as nat);
    lemma_part(other.input_ids@, other_start, q[j + 1] as nat);
    lemma_part(batch.position_ids@, start, p[k + 1] as nat);
    lemma_part(other.position_ids@, other_start, q[j + 1] as nat);
    lemma_run_is_narrowed(a.ids, 0, start, len);
    lemma_run_is_narrowed(b.ids, 0, other_start, len);
    lemma_run_is_narrowed(a.positions, 0, start, len);
    lemma_run_is_narrowed(b.positions, 0, other_start, len);
    law_language_model_keeps_to_sequences(
        model.embedding_model,
        kernel,
        a,
        states,
        k as nat,
        of_a,
        b,
        other_states,
        j as nat,
        of_b,
    );
    lemma_run_is_narrowed(states, 0, start, len);
    lemma_run_is_narrowed(other_states, 0, other_start, len);
}

/// The states of a sequence in a batch are those that the sequence gets alone.
pub proof fn law_a_sequence_has_the_states_it_has_alone<
    K: Fn(AttentionCall) -> Result<Tensor, ModelError>,
>(
    model: FlashNVEmbedModel,
    kernel: K,
    batch: Batch,
    states: Array,
    k: int,
    alone: Batch,
    other_states: Array,
)
    requires
        works_slice_by_slice(),
        is_kernel(kernel),
        keeps_to_sequences(kernel),
        model.is_sized(),
        are_known(model.embedding_model, tokens_of(batch)),
        are_known(model.embedding_model, tokens_of(alone)),
        is_alone(alone, batch, k),
        model.encodes(kernel, batch, states),
        model.encodes(kernel, alone, other_states),
    ensures
        same(
            narrowed(
                states,
                0,
                batch.cumulative_seq_lengths@[k] as nat,
                (batch.cumulative_seq_lengths@[k + 1] - batch.cumulative_seq_lengths@[k]) as nat,
            ),
            other_states,
        ),
{
    lemma_alone(alone, batch, k);
    law_a_sequence_has_its_own_states(model, kernel, batch, states, k, alone, other_states, 0);
    let len = other_states.dims[0];
    assert(alone.cumulative_seq_lengths@[0] == 0);
    let whole = narrowed(other_states, 0, 0, len);
    assert(len == alone.cumulative_seq_lengths@[1]);
    assert(whole.dims =~= other_states.dims);
    assert forall|i: Seq<nat>| #[trigger] in_bounds(i, whole.dims) implies whole.cells[i]
        == other_states.cells[i] by {
        assert(i.update(0, i[0] + 0) =~= i);
    }
}

proof fn lemma_alone(alone: Batch, batch: Batch, k: int)
    requires
        is_alone(alone, batch, k),
        batch.position_ids@.len() == batch.input_ids@.len(),
    ensures
        has_same_sequence(batch, k, alone, 0),
        alone.cumulative_seq_lengths@[1] == alone.input_ids@.len(),
{
    let ids = part_of(batch.input_ids@, batch.cumulative_seq_lengths@, k);
    let positions = part_of(batch.position_ids@, batch.cumulative_seq_lengths@, k);
    assert(part_of(alone.input_ids@, alone.cumulative_seq_lengths@, 0) =~= ids);
    assert(part_of(alone.position_ids@, alone.cumulative_seq_lengths@, 0) =~= positions);
}

/// The model, called on the batch, gave this.
#[verifier::opaque]
pub open spec fn batch_gave<K: Fn(AttentionCall) -> Result<Tensor, ModelError>>(
    model: FlashNVEmbedModel,
    kernel: K,
    batch: Batch,
    r: Result<(Option<Tensor>, Option<Tensor>), ModelError>,
) -> bool {
    ||| call_ensures(FlashNVEmbedModel::forward::<K>, (&model, &kernel, batch), r)
    ||| call_ensures(FlashNVEmbedModel::embed::<K>, (&model, &kernel, batch), r)
}

/// The model, called on the batch, gave these embeddings.
pub open spec fn embedding_gave<K: Fn(AttentionCall) -> Result<Tensor, ModelError>>(
    model: FlashNVEmbedModel,
    kernel: K,
    batch: Batch,
    pooled: Tensor,
) -> bool {
    batch_gave(
        model,
        kernel,
        batch,
        Ok::<(Option<Tensor>, Option<Tensor>), ModelError>((Some(pooled), None)),
    )
}

proof fn lemma_outcome<K: Fn(AttentionCall) -> Result<Tensor, ModelError>>(
    model: FlashNVEmbedModel,
    kernel: K,
    batch: Batch,
    r: Result<(Option<Tensor>, Option<Tensor>), ModelError>,
)
    requires
        batch_gave(model, kernel, batch, r),
    ensures
        !batch.is_even() ==> (r matches Err(e) && batch.is_uneven(e)),
        r matches Ok((pooled, raw)) ==> {
            &&& raw is None
            &&& model.answers(kernel, batch, array_opt(pooled))
            &&& forall|k: int|
                0 <= k < batch.cumulative_seq_lengths@.len() - 1 ==> #[trigger] is_sequence(
                    batch.cumulative_seq_lengths@,
                    k,
                    batch.input_ids@.len(),
                )
        },
{
    reveal(batch_gave);
    assert(model.is_outcome(kernel, batch, r));
}

/// Row `i` of what a batch asks for names sequence `k`, and all rows name sequences of the batch,
/// whose embeddings a machine word can count.
pub open spec fn asks_for(model: FlashNVEmbedModel, batch: Batch, i: int, k: int) -> bool {
    let sequences = (batch.cumulative_seq_lengths@.len() - 1) as nat;
    &&& 0 <= i < batch.pooled_indices@.len()
    &&& batch.pooled_indices@[i] == k
    &&& batch.cumulative_seq_lengths@.len() > 0
    &&& ids_below(vector(batch.pooled_indices@), sequences)
    &&& sequences * tensor_dims(model.latent_attention_model.latents)[1] <= usize::MAX
}

/// The latent attention takes a sequence of this many tokens.
pub open spec fn takes_sequence(model: FlashNVEmbedModel, len: nat) -> bool {
    let width = model.embedding_model.embeddings.hidden_size as nat;
    forall|states: Array|
        states.dims == seq![1nat, len, width] ==> #[trigger] is_taken(
            model.latent_attention_model,
            states,
        )
}

proof fn lemma_row<K: Fn(AttentionCall) -> Result<Tensor, ModelError>>(
    model: FlashNVEmbedModel,
    kernel: K,
    batch: Batch,
    pooled: Tensor,
    i: int,
) -> (states: Array)
    requires
        embedding_gave(model, kernel, batch, pooled),
        asks_for(model, batch, i, batch.pooled_indices@[i] as int),
    ensures
        model.encodes(kernel, batch, states),
        model.embeds_sequence(
            states,
            vector(batch.attention_mask@),
            batch.cumulative_seq_lengths@,
            batch.pooled_indices@[i] as int,
            narrowed(array(pooled), 0, i as nat, 1),
        ),
        batch.is_even(),
        0 <= batch.pooled_indices@[i] < batch.cumulative_seq_lengths@.len() - 1,
        batch.cumulative_seq_lengths@[batch.pooled_indices@[i] as int]
            < batch.cumulative_seq_lengths@[batch.pooled_indices@[i] + 1]
            <= batch.input_ids@.len(),
{
    let r = Ok::<(Option<Tensor>, Option<Tensor>), ModelError>((Some(pooled), None));
    lemma_outcome(model, kernel, batch, r);
    law_pooled_rows_are_of_the_sequences_asked_for(model, kernel, batch, array(pooled), i);
    lemma_number(batch.pooled_indices@, i);
    let k = batch.pooled_indices@[i] as int;
    assert(is_sequence(batch.cumulative_seq_lengths@, k, batch.input_ids@.len()));
    choose|states: Array|
        {
            &&& #[trigger] model.encodes(kernel, batch, states)
            &&& model.embeds_sequence(
                states,
                vector(batch.attention_mask@),
                batch.cumulative_seq_lengths@,
                batch.pooled_indices@[i] as int,
                narrowed(array(pooled), 0, i as nat, 1),
            )
        }
}

/// The embedding of a sequence is that of its own tokens: two batches that have a sequence in
/// common, with the same mask, get the same embedding for it, wherever its bounds put it, whatever
/// else is in them, and in whichever place they ask for it.
pub proof fn law_a_sequence_has_its_own_embedding<
    K: Fn(AttentionCall) -> Result<Tensor, ModelError>,
>(
    model: FlashNVEmbedModel,
    kernel: K,
    batch: Batch,
    k: int,
    pooled: Tensor,
    i: int,
    other: Batch,
    j: int,
    other_pooled: Tensor,
    other_i: int,
)
    requires
        works_slice_by_slice(),
        sum_is_local(),
        is_kernel(kernel),
        keeps_to_sequences(kernel),
        model.is_sized(),
        are_known(model.embedding_model, tokens_of(batch)),
        are_known(model.embedding_model, tokens_of(other)),
        has_same_sequence(batch, k, other, j),
        part_of(batch.attention_mask@, batch.cumulative_seq_lengths@, k) == part_of(
            other.attention_mask@,
            other.cumulative_seq_lengths@,
            j,
        ),
        takes_sequence(
            model,
            (batch.cumulative_seq_lengths@[k + 1] - batch.cumulative_seq_lengths@[k]) as nat,
        ),
        asks_for(model, batch, i, k),
        asks_for(model, other, other_i, j),
        embedding_gave(model, kernel, batch, pooled),
        embedding_gave(model, kernel, other, other_pooled),
    ensures
        narrowed(array(pooled), 0, i as nat, 1) == narrowed(
            array(other_pooled),
            0,
            other_i as nat,
            1,
        ),
{
    let (p, q) = (batch.cumulative_seq_lengths@, other.cumulative_seq_lengths@);
    let states = lemma_row(model, kernel, batch, pooled, i);
    let other_states = lemma_row(model, kernel, other, other_pooled, other_i);
    law_a_sequence_has_its_own_states(model, kernel, batch, states, k, other, other_states, j);
    lemma_part(batch.attention_mask@, p[k] as nat, p[k + 1] as nat);
    lemma_part(other.attention_mask@, q[j] as nat, q[j + 1] as nat);
    lemma_same_embedding(
        model,
        sequence_states(states, p[k] as nat, p[k + 1] as nat),
        sequence_mask(vector(batch.attention_mask@), p[k] as nat, p[k + 1] as nat),
        narrowed(array(pooled), 0, i as nat, 1),
        sequence_states(other_states, q[j] as nat, q[j + 1] as nat),
        sequence_mask(vector(other.attention_mask@), q[j] as nat, q[j + 1] as nat),
        narrowed(array(other_pooled), 0, other_i as nat, 1),
        (p[k + 1] - p[k]) as nat,
    );
}

proof fn lemma_same_embedding(
    model: FlashNVEmbedModel,
    states: Array,
    mask: Array,
    row: Array,
    other_states: Array,
    other_mask: Array,
    other_row: Array,
    len: nat,
)
    requires
        works_slice_by_slice(),
        sum_is_local(),
        takes_sequence(model, len),
        0 < len <= usize::MAX,
        states.dims =~= seq![
            1nat,
            len,
            model.embedding_model.embeddings.hidden_size as nat,
        ],
        mask.dims =~= seq![len],
        same(states, other_states),
        same(mask, other_mask),
        model.latent_attention_model.embeds(states, Some(mask), row),
        model.latent_attention_model.embeds(other_states, Some(other_mask), other_row),
        well_formed(row),
        well_formed(other_row),
    ensures
        row == other_row,
{
    assert(is_taken(model.latent_attention_model, states));
    assert(states.dims[0] == 1 && states.dims[1] == len);
    assert(1 * len == len);
    lemma_embeds_same(
        model.latent_attention_model,
        states,
        Some(mask),
        row,
        other_states,
        Some(other_mask),
        other_row,
    );
    assert forall|i: Seq<nat>| row.cells.dom().contains(i) implies row.cells[i]
        == other_row.cells[i] by {
        assert(in_bounds(i, row.dims));
    }
    assert(row.cells =~= other_row.cells);
}

/// The embedding of a sequence is the same in a batch with others and alone.
pub proof fn law_a_sequence_has_the_embedding_it_has_alone<
    K: Fn(AttentionCall) -> Result<Tensor, ModelError>,
>(
    model: FlashNVEmbedModel,
    kernel: K,
    batch: Batch,
    k: int,
    pooled: Tensor,
    i: int,
    alone: Batch,
    other_pooled: Tensor,
)
    requires
        works_slice_by_slice(),
        sum_is_local(),
        is_kernel(kernel),
        keeps_to_sequences(kernel),
        model.is_sized(),
        are_known(model.embedding_model, tokens_of(batch)),
        are_known(model.embedding_model, tokens_of(alone)),
        is_alone(alone, batch, k),
        takes_sequence(model, alone.input_ids@.len()),
        asks_for(model, batch, i, k),
        asks_for(model, alone, 0, 0),
        embedding_gave(model, kernel, batch, pooled),
        embedding_gave(model, kernel, alone, other_pooled),
    ensures
        narrowed(array(pooled), 0, i as nat, 1) == narrowed(array(other_pooled), 0, 0, 1),
{
    let states = lemma_row(model, kernel, batch, pooled, i);
    lemma_alone(alone, batch, k);
    let mask = part_of(batch.attention_mask@, batch.cumulative_seq_lengths@, k);
    assert(part_of(alone.attention_mask@, alone.cumulative_seq_lengths@, 0) =~= mask);
    law_a_sequence_has_its_own_embedding(
        model,
        kernel,
        batch,
        k,
        pooled,
        i,
        alone,
        0,
        other_pooled,
        0,
    );
}

/// An embedding is what its parts give: the language model on the tokens, the positions and the
/// bounds of the batch, and the latent attention on the states and the attention mask of the
/// sequence that is asked for.
pub proof fn law_embedding_is_its_parts<K: Fn(AttentionCall) -> Result<Tensor, ModelError>>(
    model: FlashNVEmbedModel,
    kernel: K,
    batch: Batch,
    k: int,
    ids: Tensor,
    mask: Tensor,
    bounds: Tensor,
    positions: Tensor,
    states: Tensor,
    piece: Tensor,
    piece_mask: Tensor,
    row: Tensor,
    pooled: Tensor,
    i: int,
)
    requires
        works_slice_by_slice(),
        sum_is_local(),
        is_kernel(kernel),
        answers_alike(kernel),
        model.is_sized(),
        are_known(model.embedding_model, tokens_of(batch)),
        takes_sequence(
            model,
            (batch.cumulative_seq_lengths@[k + 1] - batch.cumulative_seq_lengths@[k]) as nat,
        ),
        array(ids) == vector(batch.input_ids@),
        array(positions) == vector(batch.position_ids@),
        array(bounds) == vector(batch.cumulative_seq_lengths@),
        model_gave(
            model.embedding_model,
            kernel,
            ids,
            mask,
            bounds,
            positions,
            batch.max_length as usize,
            states,
        ),
        array(piece) == unsqueezed(
            narrowed(
                array(states),
                0,
                batch.cumulative_seq_lengths@[k] as nat,
                (batch.cumulative_seq_lengths@[k + 1] - batch.cumulative_seq_lengths@[k]) as nat,
            ),
            0,
        ),
        array(piece_mask) == vector(
            part_of(batch.attention_mask@, batch.cumulative_seq_lengths@, k),
        ),
        latents_gave(model.latent_attention_model, piece, Some(piece_mask), row),
        asks_for(model, batch, i, k),
        embedding_gave(model, kernel, batch, pooled),
    ensures
        narrowed(array(pooled), 0, i as nat, 1) == array(row),
{
    let p = batch.cumulative_seq_lengths@;
    let (start, end) = (p[k] as nat, p[k + 1] as nat);
    let len = (end - start) as nat;
    let found = lemma_row(model, kernel, batch, pooled, i);
    lemma_encodes_same(model.embedding_model, kernel, tokens_of(batch), found, array(states));
    let (a, b) = (narrowed(found, 0, start, len), narrowed(array(states), 0, start, len));
    assert forall|x: Seq<nat>| #[trigger] in_bounds(x, a.dims) implies a.cells[x]
        == b.cells[x] by {
        assert(x[0] < a.dims[0] && x[1] < a.dims[1]);
        let at = x.update(0, x[0] + start);
        assert(in_bounds(at, found.dims));
    }
    assert(a.cells =~= b.cells);
    assert(a =~= b);
    lemma_part(batch.attention_mask@, start, end);
    assert(same(array(piece), array(piece)));
    assert(same(array(piece_mask), array(piece_mask)));
    lemma_same_embedding(
        model,
        sequence_states(found, start, end),
        sequence_mask(vector(batch.attention_mask@), start, end),
        narrowed(array(pooled), 0, i as nat, 1),
        array(piece),
        array(piece_mask),
        array(row),
        len,
    );
}

/// A kernel that fails whatever it is asked, always with this error.
pub open spec fn always_fails<K: Fn(AttentionCall) -> Result<Tensor, ModelError>>(
    kernel: K,
    e: ModelError,
) -> bool {
    forall|call: AttentionCall, r: Result<Tensor, ModelError>| #[trigger]
        call_ensures(kernel, (call,), r) ==> r == Err::<Tensor, ModelError>(e)
}

proof fn lemma_no_states<K: Fn(AttentionCall) -> Result<Tensor, ModelError>>(
    model: FlashNVEmbedModel,
    kernel: K,
    batch: Batch,
    e: ModelError,
    states: Array,
)
    requires
        always_fails(kernel, e),
        model.embedding_model.layers@.len() > 0,
    ensures
        !model.encodes(kernel, batch, states),
{
    if model.encodes(kernel, batch, states) {
        let m = model.embedding_model;
        let n = m.layers@.len();
        let t = tokens_of(batch);
        let (x, place, h, residual, sum) = choose|
            x: Array,
            place: Placement,
            h: Array,
            residual: Option<Array>,
            sum: Array,
        | #[trigger]
            m.steps(
                kernel,
                t.ids,
                t.positions,
                t.bounds,
                t.max_s,
                x,
                place,
                h,
                residual,
                sum,
                states,
            );
        let layer = m.layers@[n - 1];
        let (hb, rb) = choose|hb: Array, rb: Option<Array>|
            {
                &&& m.layers_run(kernel, (n - 1) as nat, x, place, hb, rb)
                &&& #[trigger] layer.runs(kernel, hb, rb, place, h, residual->Some_0)
            };
        let (normed, before, attended, again) = choose|
            normed: Array,
            before: Array,
            attended: Array,
            again: Array,
        | #[trigger]
            layer.steps(
                kernel,
                hb,
                rb,
                place,
                normed,
                before,
                attended,
                again,
                h,
                residual->Some_0,
            );
        assert(layer.attention.attends(kernel, normed, place, attended));
    }
}

/// Where the kernel fails, there are no embeddings, and the error is the kernel's unless an
/// operation on tensors failed before.
pub proof fn law_errors_of_the_kernel_are_handed_on<
    K: Fn(AttentionCall) -> Result<Tensor, ModelError>,
>(
    model: FlashNVEmbedModel,
    kernel: K,
    batch: Batch,
    e: ModelError,
    r: Result<(Option<Tensor>, Option<Tensor>), ModelError>,
)
    requires
        always_fails(kernel, e),
        model.embedding_model.layers@.len() > 0,
        batch.position_ids@.len() == batch.input_ids@.len(),
        batch.attention_mask@.len() == batch.input_ids@.len(),
        batch_gave(model, kernel, batch, r),
    ensures
        r matches Err(found) && (found == e || is_operation_error(found)),
{
    assert forall|states: Array| !model.encodes(kernel, batch, states) by {
        lemma_no_states(model, kernel, batch, e, states);
    }
    assert(model.is_outcome(kernel, batch, r)) by {
        reveal(batch_gave);
    }
    match r {
        Ok((pooled, raw)) => {
            assert(model.answers(kernel, batch, array_opt(pooled)));
        },
        Err(found) => {
            assert(model.refuses(kernel, batch, found));
        },
    }
}

/// A batch whose lists of positions and of mask entries are not as long as that of its tokens is
/// refused, and the length of the first list that is not is named.
pub proof fn law_lists_of_another_length_are_refused<
    K: Fn(AttentionCall) -> Result<Tensor, ModelError>,
>(
    model: FlashNVEmbedModel,
    kernel: K,
    batch: Batch,
    r: Result<(Option<Tensor>, Option<Tensor>), ModelError>,
)
    requires
        batch_gave(model, kernel, batch, r),
    ensures
        batch.position_ids@.len() != batch.input_ids@.len() ==> r == Err::<
            (Option<Tensor>, Option<Tensor>),
            ModelError,
        >(
            ModelError::ListLength {
                got: batch.position_ids@.len() as usize,
                expected: batch.input_ids@.len() as usize,
            },
        ),
        batch.position_ids@.len() == batch.input_ids@.len() && batch.attention_mask@.len()
            != batch.input_ids@.len() ==> r == Err::<(Option<Tensor>, Option<Tensor>), ModelError>(
            ModelError::ListLength {
                got: batch.attention_mask@.len() as usize,
                expected: batch.input_ids@.len() as usize,
            },
        ),
{
    lemma_outcome(model, kernel, batch, r);
}

/// No raw states are given, there are embeddings where any are asked for, one row for each, and
/// there are none where a sequence has no tokens or more than there are.
pub proof fn law_embeddings_are_given_where_asked_for<
    K: Fn(AttentionCall) -> Result<Tensor, ModelError>,
>(
    model: FlashNVEmbedModel,
    kernel: K,
    batch: Batch,
    r: Result<(Option<Tensor>, Option<Tensor>), ModelError>,
    k: int,
)
    requires
        batch_gave(model, kernel, batch, r),
        0 <= k < batch.cumulative_seq_lengths@.len() - 1,
    ensures
        r matches Ok((pooled, raw)) ==> {
            &&& raw is None
            &&& pooled is None <==> batch.pooled_indices@.len() == 0
            &&& pooled matches Some(o) ==> tensor_dims(o) == seq![
                batch.pooled_indices@.len(),
                tensor_dims(model.latent_attention_model.latents)[1],
            ]
            &&& batch.cumulative_seq_lengths@[k] < batch.cumulative_seq_lengths@[k + 1]
                <= batch.input_ids@.len()
        },
{
    lemma_outcome(model, kernel, batch, r);
    if r is Ok {
        assert(is_sequence(batch.cumulative_seq_lengths@, k, batch.input_ids@.len()));
        match r->Ok_0.0 {
            Some(o) => {
                assert(tensor_dims(o) == array(o).dims);
            },
            None => {},
        }
    }
}

/// The rows that are selected are those that are asked for, in the order in which they are asked
/// for, as often as they are asked for.
pub proof fn law_selected_rows_are_those_asked_for(
    embeddings: Tensor,
    indices: Vec<u32>,
    device: Device,
    out: Tensor,
    i: int,
)
    requires
        tensor_dims(embeddings).len() == 2,
        ids_below(vector(indices@), tensor_dims(embeddings)[0]),
        0 <= i < indices@.len(),
        call_ensures(
            select,
            (&embeddings, indices, &device),
            Ok::<(Option<Tensor>, Option<Tensor>), ModelError>((Some(out), None)),
        ),
    ensures
        tensor_dims(out) == seq![indices@.len(), tensor_dims(embeddings)[1]],
        narrowed(array(out), 0, i as nat, 1) == narrowed(
            array(embeddings),
            0,
            indices@[i] as nat,
            1,
        ),
{
    assert(array(embeddings).dims == tensor_dims(embeddings));
    lemma_picked_row(array(embeddings), indices@, array(out), i);
}

/// For pooling, every token counts as often as the product of its two masks says, and as its
/// attention mask says where there is no other.
pub proof fn law_masks_are_multiplied(
    attention_mask: Tensor,
    instruction_mask: Option<Vec<u32>>,
    shape: usize,
    device: Device,
    out: Tensor,
    t: nat,
)
    requires
        call_ensures(
            pool_mask,
            (&attention_mask, instruction_mask, shape, &device),
            Ok::<Tensor, ModelError>(out),
        ),
        instruction_mask matches Some(mask) ==> {
            &&& mask@.len() == shape
            &&& array(attention_mask).cells[seq![t]] * mask@[t as int] <= u64::MAX
        },
        tensor_dims(attention_mask) == seq![shape as nat],
        t < shape,
    ensures
        array(out).cells[seq![t]] == match instruction_mask {
            Some(mask) => array(attention_mask).cells[seq![t]] * mask@[t as int],
            None => array(attention_mask).cells[seq![t]] as int,
        },
        tensor_dims(out) == tensor_dims(attention_mask),
        tensor_dtype(out) == tensor_dtype(attention_mask),
{
    assert(array(attention_mask).dims == tensor_dims(attention_mask));
    match instruction_mask {
        Some(mask) => {
            lemma_number(mask@, t as int);
            assert(in_bounds(seq![t], array(attention_mask).dims));
        },
        None => {},
    }
}

} // verus!
