# nvembed

An NV-Embed embedding model on top of [candle](https://github.com/huggingface/candle), with its
logic verified by [Verus](https://github.com/verus-lang/verus).

- `src/` is the verified library: loading the weights, the Mistral language model with attention in
  both directions, the latent attention, pooling, and the errors. Every function says which tensors
  candle was asked to compute from which, where each cell of a rearranged tensor comes from, and on
  which inputs it succeeds.
- `tests/` runs the library on tensors in host memory.
- `app/` is what surrounds it: the configuration file, the tables of the rotary position encoding,
  the attention kernel of a CUDA device, and the interface that a service calls.

What is believed of candle without proof stands in `src/tensor.rs`, `src/ops.rs` and
`src/weights.rs`. Floating-point results are not computed in proofs: a predicate such as
`gelu_gives(x, out)` says that `out` is an outcome of that operation on `x`.

Some laws of the layers hold up to rounding only: that rows are treated one by one, or that the
order of the states does not matter. `src/exact.rs` says what each operation of candle keeps where
nothing is rounded, and the laws of `src/token_laws.rs` and `src/latent_laws.rs` are stated of such
operations.

The attention kernel is a function that the caller hands in, since it exists on CUDA devices only.
The language model gives one row of states per token. `FlashNVEmbedModel::forward` cuts these rows
into the sequences of the batch, lets the latent attention embed each of them with its own part of
the attention mask, and selects the embeddings that the batch asks for.

In the latent attention the learned vectors attend to the states, and the mean of what they gather
is the embedding. Where a sequence has as many tokens as there are learned vectors, the mask weighs
them one by one; otherwise they all weigh as much as the tokens that the mask keeps. Means under a
mask and lengths are taken in single precision at least, so that the small number that is added to
divisors is not rounded to zero.
