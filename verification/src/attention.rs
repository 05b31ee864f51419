//! The self-attention of a layer of the language model.
use crate::array::{
    count, countable, has_host_matmul, is_flattened, is_float, is_joined, is_plain, is_spanned,
    is_view, join, joinable, law_joining_undoes_narrowing, law_narrowing_twice,
    law_narrowing_undoes_joining, lemma_cells, lemma_count_three, lemma_count_two,
    lemma_join_well_formed, lemma_joined_three, lemma_span, lemma_span_two, narrowed, sizes,
    well_formed, Array,
};
use crate::config::NVEmbedConfig;
use crate::error::{lift, ModelError};
use crate::layers::{
    inverse_sqrt, is_inverse_sqrt, is_number, is_operation_error, lemma_linear_fits, reshaped,
    Linear,
};
use crate::ops::{self, arrays, linear_fits, linear_gives};
use crate::tensor::{
    array, is_readable, same_kind, tensor_dims, tensor_dtype, tensor_on_host, tensor_packed,
    tensor_starts_inside,
};
use crate::weights::{
    dims_of, expect_countable, has_matrix, holds_matrix, matrix_fails, weights_start_inside,
    Weights,
};
use candle_core::Tensor;
use vstd::prelude::*;

verus! {

/// Queries, keys and values of all tokens, and what an attention kernel needs to know of them.
/// The kernel rotates the queries and the keys by the angles, in place, and then lets every token
/// of a sequence attend to the tokens of that sequence.
pub struct AttentionCall {
    pub q: Tensor,
    pub k: Tensor,
    pub v: Tensor,
    pub cos: Tensor,
    pub sin: Tensor,
    pub cu_seqlens: Tensor,
    pub max_s: usize,
    pub softmax_scale: Tensor,
    pub is_causal: bool,
    pub window_size_left: Option<usize>,
}

/// The self-attention, with the three input projections fused into one.
pub struct BidirectionalMistralAttention {
    pub qkv_linear: Linear,
    pub o_proj: Linear,
    pub window_size_left: Option<usize>,
    pub num_attention_heads: usize,
    pub num_key_value_heads: usize,
    pub attention_head_size: usize,
    pub softmax_scale: Tensor,
}

/// An attention kernel: it takes every call, and what it gives back are floating-point numbers in
/// the shape of the queries.
pub open spec fn is_kernel<K: Fn(AttentionCall) -> Result<Tensor, ModelError>>(kernel: K) -> bool {
    &&& forall|call: AttentionCall| #[trigger] call_requires(kernel, (call,))
    &&& forall|call: AttentionCall, t: Tensor| #[trigger]
        call_ensures(kernel, (call,), Ok::<Tensor, ModelError>(t)) ==> is_float(tensor_dtype(t))
            && tensor_dims(t) == tensor_dims(call.q)
}

/// The positions of the tokens in a batch: the angles of each, the bounds of the sequences, and
/// the length of the longest one.
#[verifier::ext_equal]
pub struct Placement {
    pub cos: Array,
    pub sin: Array,
    pub cu_seqlens: Array,
    pub max_s: nat,
}

/// The positions that these tensors hold.
pub open spec fn placement(
    cu_seqlens: Tensor,
    cos: Tensor,
    sin: Tensor,
    max_s: usize,
) -> Placement {
    Placement {
        cos: array(cos),
        sin: array(sin),
        cu_seqlens: array(cu_seqlens),
        max_s: max_s as nat,
    }
}

impl BidirectionalMistralAttention {
    /// The shape of the projected tokens, with the heads apart.
    pub open spec fn headed(self, dims: Seq<nat>) -> Seq<nat> {
        dims.drop_last().push(
            (self.num_attention_heads + 2 * self.num_key_value_heads) as nat,
        ).push(self.attention_head_size as nat)
    }

    /// The call asks for attention among these projected tokens: the first heads are the queries,
    /// the next ones the keys, the last ones the values.
    pub open spec fn splits(self, heads: Array, call: AttentionCall) -> bool {
        let q = self.num_attention_heads as nat;
        let kv = self.num_key_value_heads as nat;
        &&& array(call.q) == narrowed(heads, 1, 0, q)
        &&& array(call.k) == narrowed(heads, 1, q, kv)
        &&& array(call.v) == narrowed(heads, 1, q + kv, kv)
    }

    /// The call asks for attention in both directions, with the scale and the window of this
    /// attention, between tokens at these positions.
    pub open spec fn places(self, place: Placement, call: AttentionCall) -> bool {
        &&& array(call.cos) == place.cos
        &&& array(call.sin) == place.sin
        &&& array(call.cu_seqlens) == place.cu_seqlens
        &&& call.max_s == place.max_s
        &&& array(call.softmax_scale) == array(self.softmax_scale)
        &&& !call.is_causal
        &&& call.window_size_left == self.window_size_left
    }

    /// The call is what is asked of the kernel for the states `x`.
    pub open spec fn asks(self, x: Array, place: Placement, call: AttentionCall) -> bool {
        &&& exists|projected: Array, heads: Array|
            {
                &&& #[trigger] linear_gives(array(self.qkv_linear.weight), x, projected)
                &&& projected.dims == x.dims.drop_last().push(self.qkv_linear.outputs())
                &&& #[trigger] is_view(projected, heads)
                &&& heads.dims == self.headed(projected.dims)
                &&& self.splits(heads, call)
            }
        &&& self.places(place, call)
    }

    /// `out` is an outcome of the output projection on what the kernel gave back.
    pub open spec fn finishes(self, attended: Array, out: Array) -> bool {
        exists|flat: Array|
            {
                &&& #[trigger] is_flattened(attended, flat)
                &&& linear_gives(array(self.o_proj.weight), flat, out)
                &&& out.dims == flat.dims.drop_last().push(self.o_proj.outputs())
            }
    }

    /// The weights have the shapes that belong to this width of the hidden states.
    pub open spec fn is_sized(self, hidden_size: nat) -> bool {
        let rows = hidden_size + 2 * (self.num_key_value_heads * self.attention_head_size);
        &&& self.num_attention_heads + 2 * self.num_key_value_heads <= usize::MAX
        &&& tensor_dims(self.qkv_linear.weight) == seq![rows as nat, hidden_size]
        &&& tensor_dims(self.o_proj.weight) == seq![hidden_size, hidden_size]
        &&& is_number(self.softmax_scale)
    }

    /// The attention whose weights these are.
    pub open spec fn is_made_of(self, q: Array, k: Array, v: Array, o: Array) -> bool {
        &&& is_joined(seq![q, k, v], 0, array(self.qkv_linear.weight))
        &&& array(self.o_proj.weight) == o
    }

    /// The numbers of the attention are those of the configuration.
    pub open spec fn is_configured(self, config: NVEmbedConfig) -> bool {
        let text = config.text_config;
        &&& self.window_size_left == text.sliding_window
        &&& self.num_attention_heads == text.num_attention_heads
        &&& self.num_key_value_heads == text.num_key_value_heads
        &&& self.attention_head_size == text.head_size()
        &&& is_inverse_sqrt(self.attention_head_size as u64, array(self.softmax_scale))
        &&& is_number(self.softmax_scale)
    }

    /// The attention that is stored at this place.
    pub open spec fn is_stored(self, vb: Weights, config: NVEmbedConfig) -> bool {
        let hidden = config.text_config.hidden_size as nat;
        let rows = config.text_config.key_value_size();
        &&& self.is_configured(config)
        &&& exists|q: Array, k: Array, v: Array, o: Array|
            {
                &&& #[trigger] holds_matrix(vb, "q_proj"@, hidden, hidden, q)
                &&& #[trigger] holds_matrix(vb, "k_proj"@, rows, hidden, k)
                &&& #[trigger] holds_matrix(vb, "v_proj"@, rows, hidden, v)
                &&& #[trigger] holds_matrix(vb, "o_proj"@, hidden, hidden, o)
                &&& self.is_made_of(q, k, v, o)
            }
    }

    /// The attention is stored at this place.
    pub open spec fn is_there(vb: Weights, config: NVEmbedConfig) -> bool {
        exists|attention: Self| #[trigger] attention.is_stored(vb, config)
    }

    /// `e` says why the attention was not read from this place: the first weight that failed, or
    /// what candle said to the joining of the first three.
    pub open spec fn is_refused(vb: Weights, config: NVEmbedConfig, e: ModelError) -> bool {
        let hidden = config.text_config.hidden_size as nat;
        let rows = config.text_config.key_value_size();
        let has_q = has_matrix(vb, "q_proj"@, hidden, hidden);
        let has_k = has_matrix(vb, "k_proj"@, rows, hidden);
        let has_v = has_matrix(vb, "v_proj"@, rows, hidden);
        ||| matrix_fails(vb, "q_proj"@, hidden, hidden, e)
        ||| has_q && matrix_fails(vb, "k_proj"@, rows, hidden, e)
        ||| has_q && has_k && matrix_fails(vb, "v_proj"@, rows, hidden, e)
        ||| has_q && has_k && has_v && is_operation_error(e)
        ||| has_q && has_k && has_v && matrix_fails(vb, "o_proj"@, hidden, hidden, e)
    }

    /// The weight of the three input projections as one.
    pub fn fuse(query: Tensor, key: Tensor, value: Tensor) -> (r: Result<Tensor, ModelError>)
        requires
            tensor_dims(query).len() == 2,
            tensor_dims(key).len() == 2,
            tensor_dims(value).len() == 2,
            tensor_dims(query)[0] + tensor_dims(key)[0] + tensor_dims(value)[0] <= usize::MAX,
            is_readable(query),
            is_readable(key),
            is_readable(value),
        ensures
            r matches Ok(o) ==> {
                &&& is_joined(seq![array(query), array(key), array(value)], 0, array(o))
                &&& tensor_dims(key)[1] == tensor_dims(query)[1]
                &&& tensor_dims(value)[1] == tensor_dims(query)[1]
                &&& tensor_dtype(key) == tensor_dtype(query)
                &&& tensor_dtype(value) == tensor_dtype(query)
                &&& same_kind(o, query)
            },
            r matches Err(e) ==> is_operation_error(e),
            tensor_dims(key)[1] == tensor_dims(query)[1] && tensor_dims(value)[1] == tensor_dims(
                query,
            )[1] && same_kind(key, query) && same_kind(value, query) && tensor_on_host(query)
                && is_plain(tensor_dtype(query)) && (tensor_dims(query)[0] + tensor_dims(key)[0]
                + tensor_dims(value)[0]) * tensor_dims(query)[1] <= usize::MAX ==> r is Ok,
    {
        let ghost (a, b, c) = (array(query), array(key), array(value));
        let (first, second, third) = (dims_of(&query), dims_of(&key), dims_of(&value));
        proof {
            assert(sizes(first@).len() == first@.len() && sizes(second@).len() == second@.len());
            assert(sizes(third@).len() == third@.len());
            assert(sizes(first@)[0] == first@[0] && sizes(first@)[1] == first@[1]);
            assert(sizes(second@)[0] == second@[0] && sizes(third@)[0] == third@[0]);
        }
        let rows: usize = first[0] + second[0] + third[0];
        let shape: Vec<usize> = vec![rows, first[1]];
        proof {
            assert(sizes(shape@) =~= join(join(a, b, 0), c, 0).dims);
            if rows * first@[1] <= usize::MAX {
                lemma_span_two(rows as nat, first@[1] as nat);
                assert(sizes(shape@) =~= seq![rows as nat, first@[1] as nat]);
            }
        }
        expect_countable(&shape)?;
        let parts: Vec<Tensor> = vec![query, key, value];
        proof {
            assert(arrays(parts@) =~= seq![a, b, c]);
            lemma_joined_three(a, b, c, 0);
            lemma_count_two(join(join(a, b, 0), c, 0).dims);
            assert(tensor_on_host(parts@[0]) == tensor_on_host(query));
            assert(seq![a, b, c][1] == b);
            assert(seq![a, b, c][2] == c);
        }
        lift(ops::cat(&parts, 0))
    }

    /// The attention with these weights.
    pub fn new(fused: Tensor, output: Tensor, config: &NVEmbedConfig) -> (r: Result<
        Self,
        ModelError,
    >)
        requires
            config.text_config.is_sized(),
        ensures
            r is Ok,
            r matches Ok(attention) ==> {
                &&& attention.qkv_linear.weight == fused
                &&& attention.o_proj.weight == output
                &&& attention.is_configured(*config)
            },
    {
        let attention_head_size: usize = config.text_config.attention_head_size();
        let softmax_scale: Tensor = inverse_sqrt(attention_head_size)?;
        Ok(
            BidirectionalMistralAttention {
                qkv_linear: Linear::new(fused),
                o_proj: Linear::new(output),
                window_size_left: config.text_config.sliding_window,
                num_attention_heads: config.text_config.num_attention_heads,
                num_key_value_heads: config.text_config.num_key_value_heads,
                attention_head_size,
                softmax_scale,
            },
        )
    }

    /// Reads the weights of the attention from this place.
    pub fn load(vb: &Weights, config: &NVEmbedConfig) -> (r: Result<Self, ModelError>)
        requires
            config.text_config.is_sized(),
            config.text_config.has_cells() || weights_start_inside(*vb),
        ensures
            r matches Ok(attention) ==> {
                &&& attention.is_stored(*vb, *config)
                &&& attention.is_sized(config.text_config.hidden_size as nat)
            },
            r matches Err(e) ==> Self::is_refused(*vb, *config, e),
    {
        let hidden_size: usize = config.text_config.hidden_size;
        let attention_head_size: usize = config.text_config.attention_head_size();
        let rows: usize = config.text_config.num_key_value_heads * attention_head_size;
        proof {
            let (n, d) = (config.text_config.num_key_value_heads, attention_head_size);
            assert(n > 0 && d > 0 ==> n * d > 0) by (nonlinear_arith);
        }
        let query: Tensor = vb.matrix("q_proj", hidden_size, hidden_size)?;
        let key: Tensor = vb.matrix("k_proj", rows, hidden_size)?;
        let value: Tensor = vb.matrix("v_proj", rows, hidden_size)?;
        let ghost (a, b, c) = (array(query), array(key), array(value));
        let fused: Tensor = Self::fuse(query, key, value)?;
        let output: Tensor = vb.matrix("o_proj", hidden_size, hidden_size)?;
        let attention: Self = Self::new(fused, output, config)?;
        proof {
            lemma_joined_three(a, b, c, 0);
            assert(join(join(a, b, 0), c, 0).dims =~= seq![
                (hidden_size + 2 * rows) as nat,
                hidden_size as nat,
            ]);
        }
        Ok(attention)
    }

    /// States of tokens whose projection is not as wide as the heads are together.
    pub open spec fn is_unsplittable(self, x: Tensor) -> bool {
        let dims = tensor_dims(x);
        let heads = self.num_attention_heads + 2 * self.num_key_value_heads;
        &&& dims.len() == 2
        &&& dims[0] > 0
        &&& dims[0] * self.qkv_linear.outputs() <= usize::MAX
        &&& self.qkv_linear.outputs() != heads * self.attention_head_size
    }

    /// An attention whose width the heads do not divide cannot split any states.
    pub proof fn law_uneven_heads_split_nothing(self, hidden_size: nat, x: Tensor)
        requires
            self.is_sized(hidden_size),
            self.num_attention_heads > 0,
            self.attention_head_size == hidden_size / (self.num_attention_heads as nat),
            hidden_size % (self.num_attention_heads as nat) != 0,
            tensor_dims(x).len() == 2,
            tensor_dims(x)[0] > 0,
            tensor_dims(x)[0] * self.qkv_linear.outputs() <= usize::MAX,
        ensures
            self.is_unsplittable(x),
    {
        let h = self.num_attention_heads as int;
        let kv = self.num_key_value_heads as int;
        let d = self.attention_head_size as int;
        vstd::arithmetic::div_mod::lemma_fundamental_div_mod(hidden_size as int, h);
        assert((h + 2 * kv) * d == h * d + 2 * (kv * d)) by (nonlinear_arith);
    }

    /// The states on which everything before the kernel succeeds in host memory.
    pub open spec fn fits(self, x: Tensor) -> bool {
        let dims = tensor_dims(x);
        let rows = dims[1] + 2 * (self.num_key_value_heads * self.attention_head_size);
        &&& dims.len() == 2
        &&& dims[0] > 0
        &&& dims[1] > 0
        &&& self.is_sized(dims[1])
        &&& self.num_attention_heads * self.attention_head_size == dims[1]
        &&& tensor_on_host(x)
        &&& has_host_matmul(tensor_dtype(x))
        &&& same_kind(self.qkv_linear.weight, x)
        &&& same_kind(self.o_proj.weight, x)
        &&& dims[0] * rows <= usize::MAX
        &&& is_spanned(self.headed(dims))
    }

    proof fn lemma_fits(self, x: Tensor)
        requires
            self.fits(x),
        ensures
            linear_fits(self.qkv_linear.weight, x),
    {
        let n = tensor_dims(x)[0];
        let d = tensor_dims(x)[1];
        let rows = tensor_dims(self.qkv_linear.weight)[0];
        assert(rows >= d) by {
            assert(self.num_key_value_heads * self.attention_head_size >= 0) by (nonlinear_arith);
        }
        assert(n * d <= n * rows) by (nonlinear_arith)
            requires
                d <= rows,
        ;
        lemma_linear_fits(self.qkv_linear.weight, x);
    }

    proof fn lemma_heads_fit(self, x: Tensor, projected: Tensor)
        requires
            self.fits(x),
            tensor_dims(projected) == tensor_dims(x).drop_last().push(self.qkv_linear.outputs()),
        ensures
            count(self.headed(tensor_dims(projected))) == count(tensor_dims(projected)),
            countable(tensor_dims(projected)),
            is_spanned(self.headed(tensor_dims(projected))),
    {
        let n = tensor_dims(x)[0];
        let h = self.num_attention_heads as nat;
        let kv = self.num_key_value_heads as nat;
        let d = self.attention_head_size as nat;
        lemma_count_two(tensor_dims(projected));
        lemma_count_three(self.headed(tensor_dims(projected)));
        assert(n * (h + 2 * kv) * d == n * (h * d + 2 * (kv * d))) by (nonlinear_arith);
        assert(tensor_dims(projected).drop_last() =~= tensor_dims(x).drop_last());
    }

    proof fn lemma_queries_fit(self, x: Tensor, q: Tensor)
        requires
            self.fits(x),
            same_kind(q, x),
            tensor_dims(q) == seq![
                tensor_dims(x)[0],
                self.num_attention_heads as nat,
                self.attention_head_size as nat,
            ],
        ensures
            self.takes_back(q),
    {
        let n = tensor_dims(x)[0];
        let d = tensor_dims(x)[1];
        let (heads, size) = (self.num_attention_heads as nat, self.attention_head_size as nat);
        let rows = d + 2 * (self.num_key_value_heads * self.attention_head_size);
        lemma_cells(tensor_dims(q));
        assert(heads > 0 && size > 0) by (nonlinear_arith)
            requires
                heads * size > 0,
        ;
        assert(rows >= d) by {
            assert(self.num_key_value_heads * self.attention_head_size >= 0) by (nonlinear_arith);
        }
        assert(n * d <= n * rows && d <= n * d) by (nonlinear_arith)
            requires
                d <= rows,
                n > 0,
        ;
    }

    proof fn lemma_unsplittable(self, x: Tensor, projected: Tensor)
        requires
            self.is_unsplittable(x),
            tensor_dims(projected) == tensor_dims(x).drop_last().push(self.qkv_linear.outputs()),
        ensures
            count(self.headed(tensor_dims(projected))) != count(tensor_dims(projected)),
            countable(tensor_dims(projected)),
    {
        let n = tensor_dims(x)[0];
        let heads = (self.num_attention_heads + 2 * self.num_key_value_heads) as nat;
        let d = self.attention_head_size as nat;
        let width = self.qkv_linear.outputs();
        lemma_count_two(tensor_dims(projected));
        lemma_count_three(self.headed(tensor_dims(projected)));
        assert(n * heads * d != n * width) by (nonlinear_arith)
            requires
                n > 0,
                heads * d != width,
        ;
    }

    /// Projects the states and takes the result apart into queries, keys and values.
    pub fn ask(
        &self,
        hidden_states: &Tensor,
        cu_seqlens: &Tensor,
        cos: &Tensor,
        sin: &Tensor,
        max_s: usize,
    ) -> (r: Result<AttentionCall, ModelError>)
        requires
            self.num_attention_heads + 2 * self.num_key_value_heads <= usize::MAX,
        ensures
            r matches Ok(call) ==> self.asks(
                array(*hidden_states),
                placement(*cu_seqlens, *cos, *sin, max_s),
                call,
            ),
            r matches Ok(call) ==> tensor_dims(*hidden_states).len() == 2 ==> tensor_dims(call.q)
                == seq![
                tensor_dims(*hidden_states)[0],
                self.num_attention_heads as nat,
                self.attention_head_size as nat,
            ],
            r matches Ok(call) ==> same_kind(call.q, *hidden_states),
            self.is_unsplittable(*hidden_states) ==> r is Err,
            r matches Err(e) ==> is_operation_error(e),
            self.fits(*hidden_states) ==> r is Ok,
    {
        proof {
            if self.fits(*hidden_states) {
                self.lemma_fits(*hidden_states);
            }
        }
        let projected: Tensor = self.qkv_linear.forward(hidden_states)?;
        let mut shape: Vec<usize> = dims_of(&projected);
        let _ = shape.pop();
        shape.push(self.num_attention_heads + 2 * self.num_key_value_heads);
        shape.push(self.attention_head_size);
        proof {
            assert(tensor_dims(projected).drop_last() =~= tensor_dims(*hidden_states).drop_last());
            assert(sizes(shape@) =~= self.headed(tensor_dims(projected)));
            if self.fits(*hidden_states) {
                self.lemma_heads_fit(*hidden_states, projected);
            }
            if self.is_unsplittable(*hidden_states) {
                self.lemma_unsplittable(*hidden_states, projected);
            }
        }
        let heads: Tensor = reshaped(&projected, &shape)?;
        let q: Tensor = lift(ops::narrow(&heads, 1, 0, self.num_attention_heads))?;
        let k: Tensor = lift(
            ops::narrow(&heads, 1, self.num_attention_heads, self.num_key_value_heads),
        )?;
        let v: Tensor = lift(
            ops::narrow(
                &heads,
                1,
                self.num_attention_heads + self.num_key_value_heads,
                self.num_key_value_heads,
            ),
        )?;
        let call = AttentionCall {
            q,
            k,
            v,
            cos: cos.clone(),
            sin: sin.clone(),
            cu_seqlens: cu_seqlens.clone(),
            max_s,
            softmax_scale: self.softmax_scale.clone(),
            is_causal: false,
            window_size_left: self.window_size_left,
        };
        assert(is_view(array(projected), array(heads)));
        assert(self.splits(array(heads), call));
        proof {
            if tensor_dims(*hidden_states).len() == 2 {
                assert(tensor_dims(call.q) == array(call.q).dims);
                assert(tensor_dims(call.q) =~= seq![
                    tensor_dims(*hidden_states)[0],
                    self.num_attention_heads as nat,
                    self.attention_head_size as nat,
                ]);
            }
        }
        Ok(call)
    }

    /// What a kernel gave back, if everything after it succeeds in host memory.
    pub open spec fn takes_back(self, attended: Tensor) -> bool {
        let dims = tensor_dims(attended);
        let weight = tensor_dims(self.o_proj.weight);
        &&& dims.len() == 3
        &&& weight.len() == 2
        &&& dims[1] * dims[2] == weight[1]
        &&& weight[1] <= usize::MAX
        &&& count(dims) > 0
        &&& tensor_on_host(attended)
        &&& tensor_on_host(self.o_proj.weight)
        &&& has_host_matmul(tensor_dtype(attended))
        &&& tensor_dtype(self.o_proj.weight) == tensor_dtype(attended)
        &&& dims[0] * weight[0] <= usize::MAX
        &&& dims[0] * weight[1] <= usize::MAX
    }

    /// Puts the heads together again and projects them.
    pub fn finish(&self, attended: &Tensor) -> (r: Result<Tensor, ModelError>)
        ensures
            r matches Ok(o) ==> {
                &&& self.finishes(array(*attended), array(o))
                &&& tensor_dims(*attended).len() >= 3
                &&& tensor_dims(o) == tensor_dims(*attended).take(
                    tensor_dims(*attended).len() - 2,
                ).push(self.o_proj.outputs())
                &&& tensor_packed(o)
                &&& tensor_starts_inside(o)
                &&& same_kind(o, *attended)
            },
            r matches Err(e) ==> is_operation_error(e),
            self.takes_back(*attended) ==> r is Ok,
    {
        proof {
            if self.takes_back(*attended) {
                let dims = tensor_dims(*attended);
                lemma_count_three(dims);
                assert(dims[0] * dims[1] * dims[2] == dims[0] * (dims[1] * dims[2]))
                    by (nonlinear_arith);
                lemma_span(dims);
                lemma_cells(dims);
                assert(dims[1] * dims[2] > 0) by (nonlinear_arith)
                    requires
                        dims[1] > 0,
                        dims[2] > 0,
                ;
            }
        }
        expect_countable(&dims_of(attended))?;
        let flat: Tensor = lift(ops::flatten_last_two(attended))?;
        proof {
            if self.takes_back(*attended) {
                assert(tensor_dims(flat).drop_last()[0] == tensor_dims(*attended).take(1)[0]);
                assert(tensor_dims(flat) =~= seq![
                    tensor_dims(*attended)[0],
                    tensor_dims(self.o_proj.weight)[1],
                ]);
                lemma_linear_fits(self.o_proj.weight, flat);
            }
        }
        self.o_proj.forward(&flat)
    }

    /// `out` is an outcome of the attention on the states `x`, with this kernel.
    pub open spec fn attends<K: Fn(AttentionCall) -> Result<Tensor, ModelError>>(
        self,
        kernel: K,
        x: Array,
        place: Placement,
        out: Array,
    ) -> bool {
        exists|call: AttentionCall, attended: Tensor|
            {
                &&& self.asks(x, place, call)
                &&& #[trigger] call_ensures(kernel, (call,), Ok::<Tensor, ModelError>(attended))
                &&& self.finishes(array(attended), out)
            }
    }

    /// The kernel failed on what the attention asks of it for the states `x`.
    pub open spec fn kernel_fails<K: Fn(AttentionCall) -> Result<Tensor, ModelError>>(
        self,
        kernel: K,
        x: Array,
        place: Placement,
        e: ModelError,
    ) -> bool {
        exists|call: AttentionCall|
            {
                &&& self.asks(x, place, call)
                &&& #[trigger] call_ensures(kernel, (call,), Err::<Tensor, ModelError>(e))
            }
    }

    /// Whenever this attention asks the kernel for something between tokens at these positions,
    /// with queries that could themselves be projected, the kernel gives back states that can be
    /// projected.
    pub open spec fn is_served<K: Fn(AttentionCall) -> Result<Tensor, ModelError>>(
        self,
        kernel: K,
        place: Placement,
    ) -> bool {
        forall|x: Array, call: AttentionCall, r: Result<Tensor, ModelError>|
            #![trigger self.asks(x, place, call), call_ensures(kernel, (call,), r)]
            self.asks(x, place, call) && self.takes_back(call.q) && call_ensures(
                kernel,
                (call,),
                r,
            ) ==> {
                &&& r is Ok
                &&& self.takes_back(r->Ok_0)
            }
    }

    /// The attention among the tokens of each sequence, in both directions.
    pub fn forward<K: Fn(AttentionCall) -> Result<Tensor, ModelError>>(
        &self,
        kernel: &K,
        hidden_states: &Tensor,
        cu_seqlens: &Tensor,
        cos: &Tensor,
        sin: &Tensor,
        max_s: usize,
    ) -> (r: Result<Tensor, ModelError>)
        requires
            self.num_attention_heads + 2 * self.num_key_value_heads <= usize::MAX,
            is_kernel(*kernel),
        ensures
            r matches Ok(o) ==> {
                &&& self.attends(
                    *kernel,
                    array(*hidden_states),
                    placement(*cu_seqlens, *cos, *sin, max_s),
                    array(o),
                )
                &&& tensor_dims(o).len() > 0
                &&& tensor_dims(o).last() == self.o_proj.outputs()
                &&& tensor_packed(o)
                &&& is_float(tensor_dtype(o))
                &&& tensor_dims(*hidden_states).len() == 2 ==> tensor_dims(o) == seq![
                    tensor_dims(*hidden_states)[0],
                    self.o_proj.outputs(),
                ]
                &&& tensor_starts_inside(o)
            },
            self.is_unsplittable(*hidden_states) ==> r is Err,
            self.fits(*hidden_states) && self.is_served(
                *kernel,
                placement(*cu_seqlens, *cos, *sin, max_s),
            ) ==> r is Ok && same_kind(r->Ok_0, self.o_proj.weight),
            r matches Err(e) ==> is_operation_error(e) || self.kernel_fails(
                *kernel,
                array(*hidden_states),
                placement(*cu_seqlens, *cos, *sin, max_s),
                e,
            ),
    {
        let call: AttentionCall = self.ask(hidden_states, cu_seqlens, cos, sin, max_s)?;
        proof {
            if self.fits(*hidden_states) {
                self.lemma_queries_fit(*hidden_states, call.q);
            }
        }
        let attended: Tensor = kernel(call)?;
        let o: Tensor = self.finish(&attended)?;
        proof {
            if tensor_dims(attended).len() == 3 {
                assert(tensor_dims(o) =~= seq![tensor_dims(attended)[0], self.o_proj.outputs()]);
            }
        }
        Ok(o)
    }
}

/// The fused weight holds the three weights that it was made of, one after the other.
pub proof fn law_fused_weight_holds_its_parts(
    attention: BidirectionalMistralAttention,
    q: Array,
    k: Array,
    v: Array,
    o: Array,
)
    requires
        attention.is_made_of(q, k, v, o),
        well_formed(q),
        well_formed(k),
        well_formed(v),
        joinable(q, k, 0),
        joinable(q, v, 0),
        countable(tensor_dims(attention.qkv_linear.weight)),
    ensures
        ({
            let fused = array(attention.qkv_linear.weight);
            &&& narrowed(fused, 0, 0, q.dims[0]) == q
            &&& narrowed(fused, 0, q.dims[0], k.dims[0]) == k
            &&& narrowed(fused, 0, q.dims[0] + k.dims[0], v.dims[0]) == v
        }),
{
    let fused = array(attention.qkv_linear.weight);
    let front = join(q, k, 0);
    lemma_joined_three(q, k, v, 0);
    lemma_join_well_formed(q, k, 0);
    law_narrowing_undoes_joining(q, k, 0);
    law_narrowing_undoes_joining(front, v, 0);
    law_narrowing_twice(fused, 0, 0, front.dims[0], 0, q.dims[0]);
    law_narrowing_twice(fused, 0, 0, front.dims[0], q.dims[0], k.dims[0]);
}

/// Queries, keys and values are all of the projected heads: each head goes to one of the three, in
/// order, and keys and values get as many.
pub proof fn law_heads_go_to_one_part_each(
    attention: BidirectionalMistralAttention,
    heads: Array,
    call: AttentionCall,
)
    requires
        attention.splits(heads, call),
        well_formed(heads),
        heads.dims.len() >= 2,
        heads.dims[1] == attention.num_attention_heads + 2 * attention.num_key_value_heads,
    ensures
        join(array(call.q), join(array(call.k), array(call.v), 1), 1) == heads,
        tensor_dims(call.q)[1] == attention.num_attention_heads,
        tensor_dims(call.k)[1] == attention.num_key_value_heads,
        tensor_dims(call.v)[1] == attention.num_key_value_heads,
{
    let q = attention.num_attention_heads as nat;
    let kv = attention.num_key_value_heads as nat;
    let rest = narrowed(heads, 1, q, 2 * kv);
    law_joining_undoes_narrowing(heads, 1, q, q + 2 * kv);
    law_joining_undoes_narrowing(rest, 1, kv, 2 * kv);
    law_narrowing_twice(heads, 1, q, 2 * kv, 0, kv);
    law_narrowing_twice(heads, 1, q, 2 * kv, kv, kv);
    assert(tensor_dims(call.q) == array(call.q).dims);
    assert(tensor_dims(call.k) == array(call.k).dims);
    assert(tensor_dims(call.v) == array(call.v).dims);
}

/// Every call of the kernel asks for attention in both directions, whatever the states are.
pub proof fn law_attention_is_bidirectional(
    attention: BidirectionalMistralAttention,
    x: Array,
    place: Placement,
    call: AttentionCall,
)
    requires
        attention.asks(x, place, call),
    ensures
        !call.is_causal,
        call.window_size_left == attention.window_size_left,
{
}

} // verus!
