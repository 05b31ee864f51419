//! The configuration of the model.
use vstd::prelude::*;

verus! {

/// The activation of a gated layer.
#[derive(Debug, Clone, Copy, PartialEq, Eq, Structural)]
pub enum HiddenAct {
    Gelu,
    Relu,
    Swiglu,
}

/// The configuration of the language model. The two numbers that are not whole are given by the
/// bits of the double that holds them.
#[derive(Debug, Clone, PartialEq)]
pub struct TextConfig {
    pub hidden_size: usize,
    pub intermediate_size: usize,
    pub num_hidden_layers: usize,
    pub num_attention_heads: usize,
    pub num_key_value_heads: usize,
    pub hidden_act: HiddenAct,
    pub max_position_embeddings: usize,
    pub rms_norm_eps: u64,
    pub rope_theta: u64,
    pub sliding_window: Option<usize>,
    pub vocab_size: usize,
}

/// The configuration of the latent attention.
#[derive(Debug, Clone, PartialEq)]
pub struct LatentAttentionConfig {
    pub num_latents_value: usize,
    pub latent_dim: usize,
    pub hidden_dim: usize,
    pub num_cross_heads: usize,
    pub cross_dim_head: usize,
    pub output_normalize: bool,
}

/// The configuration of the embedding model.
#[derive(Debug, Clone, PartialEq)]
pub struct NVEmbedConfig {
    pub hidden_size: usize,
    pub model_type: String,
    pub torch_dtype: Option<String>,
    pub text_config: TextConfig,
    pub latent_attention_config: LatentAttentionConfig,
    pub is_mask_instruction: Option<bool>,
}

impl TextConfig {
    /// The size of one attention head.
    pub open spec fn head_size(self) -> nat {
        (self.hidden_size / self.num_attention_heads) as nat
    }

    /// The number of rows of the key weight, and of the value weight.
    pub open spec fn key_value_size(self) -> nat {
        self.num_key_value_heads as nat * self.head_size()
    }

    /// There is a head, and the sizes that are computed from these fit in a machine word.
    pub open spec fn is_sized(self) -> bool {
        &&& self.num_attention_heads > 0
        &&& self.head_size() <= i64::MAX
        &&& self.num_attention_heads + 2 * self.num_key_value_heads <= usize::MAX
        &&& self.hidden_size + 2 * self.key_value_size() <= usize::MAX
        &&& 2 * self.intermediate_size <= usize::MAX
    }

    /// Whether there is a head and the sizes that are computed from these fit in a machine word.
    pub fn has_fitting_sizes(&self) -> (r: bool)
        ensures
            r == self.is_sized(),
    {
        if self.num_attention_heads == 0 {
            return false;
        }
        let head_size: usize = self.attention_head_size();
        let heads: u128 = self.num_attention_heads as u128 + 2 * self.num_key_value_heads as u128;
        let rows: u128 = fit_product(self.num_key_value_heads, head_size);
        head_size as u128 <= i64::MAX as u128 && heads <= usize::MAX as u128
            && self.hidden_size as u128 + 2 * rows <= usize::MAX as u128
            && 2 * self.intermediate_size as u128 <= usize::MAX as u128
    }

    /// Every weight of the language model has cells.
    pub open spec fn has_cells(self) -> bool {
        &&& self.hidden_size > 0
        &&& self.intermediate_size > 0
        &&& self.vocab_size > 0
        &&& self.num_key_value_heads > 0
        &&& self.head_size() > 0
    }

    /// Whether every weight of the language model has cells.
    pub fn has_only_weights_with_cells(&self) -> (r: bool)
        requires
            self.num_attention_heads > 0,
        ensures
            r == self.has_cells(),
    {
        self.hidden_size > 0 && self.intermediate_size > 0 && self.vocab_size > 0
            && self.num_key_value_heads > 0 && self.attention_head_size() > 0
    }

    /// The size of one attention head.
    pub fn attention_head_size(&self) -> (r: usize)
        requires
            self.num_attention_heads > 0,
        ensures
            r == self.head_size(),
    {
        self.hidden_size / self.num_attention_heads
    }
}

impl LatentAttentionConfig {
    /// The size of one head of the cross attention.
    pub open spec fn head_size(self) -> nat {
        (self.cross_dim_head / self.num_cross_heads) as nat
    }

    /// There is a head, and the sizes that are computed from these fit in a machine word.
    pub open spec fn is_sized(self) -> bool {
        &&& self.num_cross_heads > 0
        &&& self.head_size() <= i64::MAX
        &&& 2 * (self.head_size() * self.num_cross_heads) <= usize::MAX
        &&& 8 * self.latent_dim <= usize::MAX
    }

    /// Whether there is a head and the sizes that are computed from these fit in a machine word.
    pub fn has_fitting_sizes(&self) -> (r: bool)
        ensures
            r == self.is_sized(),
    {
        if self.num_cross_heads == 0 {
            return false;
        }
        let head_size: usize = self.cross_dim_head / self.num_cross_heads;
        let inner: u128 = fit_product(head_size, self.num_cross_heads);
        head_size as u128 <= i64::MAX as u128 && 2 * inner <= usize::MAX as u128
            && 8 * self.latent_dim as u128 <= usize::MAX as u128
    }
}

impl LatentAttentionConfig {
    /// Every weight of the latent attention has cells.
    pub open spec fn has_cells(self) -> bool {
        &&& self.num_latents_value > 0
        &&& self.latent_dim > 0
        &&& self.hidden_dim > 0
        &&& self.head_size() > 0
    }

    /// Whether every weight of the latent attention has cells.
    pub fn has_only_weights_with_cells(&self) -> (r: bool)
        requires
            self.num_cross_heads > 0,
        ensures
            r == self.has_cells(),
    {
        self.num_latents_value > 0 && self.latent_dim > 0 && self.hidden_dim > 0
            && self.cross_dim_head / self.num_cross_heads > 0
    }
}

impl NVEmbedConfig {
    /// Every weight of the model has cells.
    pub open spec fn has_cells(self) -> bool {
        self.text_config.has_cells() && self.latent_attention_config.has_cells()
    }
}

/// The product of two sizes, or a number that is larger than every size.
fn fit_product(a: usize, b: usize) -> (r: u128)
    ensures
        a * b <= usize::MAX ==> r == a * b,
        a * b > usize::MAX ==> r > usize::MAX,
        r <= 2 * usize::MAX,
{
    match a.checked_mul(b) {
        Some(product) => product as u128,
        None => usize::MAX as u128 + 1,
    }
}

} // verus!
