use nvembed::config::{HiddenAct, LatentAttentionConfig, TextConfig};
use nvembed::error::ModelError;
use nvembed::text::{bracketed_text, decimal_text, layer_name_text};

#[test]
fn numbers_are_written_in_decimal() {
    assert_eq!(decimal_text(0), "0");
    assert_eq!(decimal_text(9), "9");
    assert_eq!(decimal_text(10), "10");
    assert_eq!(decimal_text(4096), "4096");
    assert_eq!(decimal_text(usize::MAX), format!("{}", usize::MAX));
}

#[test]
fn lists_are_written_like_debug_output() {
    assert_eq!(bracketed_text(&vec![]), "[]");
    assert_eq!(bracketed_text(&vec![7]), "[7]");
    assert_eq!(bracketed_text(&vec![2, 512, 4096]), format!("{:?}", vec![2, 512, 4096]));
}

#[test]
fn layers_have_numbered_names() {
    assert_eq!(layer_name_text(0), "layers.0");
    assert_eq!(layer_name_text(31), "layers.31");
    assert_ne!(layer_name_text(1), layer_name_text(11));
}

#[test]
fn messages_of_refused_loads() {
    let text = |e: ModelError| e.message().unwrap();
    assert_eq!(text(ModelError::MistralRequiresCuda), "BidirectionalMistral requires Cuda");
    assert_eq!(text(ModelError::MistralRequiresF16), "BidirectionalMistral requires DType::F16");
    assert_eq!(text(ModelError::RequiresCuda), "FlashNVEmbed requires Cuda");
    assert_eq!(text(ModelError::RequiresF16), "FlashNVEmbed requires DType::F16");
    assert_eq!(
        text(ModelError::ClassifierNotSupported),
        "`classifier` model type is not supported for NVEmbed"
    );
    assert_eq!(
        text(ModelError::UnexpectedWeight { dims: vec![3, 2] }),
        "unexpected shape of a weight: [3, 2]"
    );
}

#[test]
fn messages_of_refused_states() {
    let text = |e: ModelError| e.message().unwrap();
    assert_eq!(
        text(ModelError::AttentionRank { x: vec![1, 2], k: vec![3, 4, 5] }),
        "Expected 3D tensors for attention, got x: [1, 2], k: [3, 4, 5]"
    );
    assert_eq!(
        text(ModelError::HiddenStatesRank { dims: vec![5, 4096] }),
        "Expected 3D tensor for hidden_states, got shape: [5, 4096]"
    );
    assert_eq!(
        text(ModelError::HiddenSize { got: 8, expected: 16 }),
        "Hidden dimension mismatch: got 8, expected 16"
    );
    assert_eq!(
        text(ModelError::MissingContext),
        "Missing context tensor in cross-attention"
    );
    assert_eq!(
        text(ModelError::MaskShape { expected: 6, dims: vec![2, 3] }),
        "Invalid attention mask shape: expected (6,), got [2, 3]"
    );
    assert_eq!(
        text(ModelError::NotTwoChunks { got: 1 }),
        "Expected 2 chunks for the gated activation, got 1"
    );
}

#[test]
fn messages_of_refused_batches() {
    let text = |e: ModelError| e.message().unwrap();
    assert_eq!(
        text(ModelError::ListLength { got: 2, expected: 3 }),
        "list of length 2, expected 3"
    );
    assert_eq!(
        text(ModelError::SequenceBounds { start: 5, end: 4 }),
        "sequence from token 5 to 4"
    );
    assert_eq!(text(ModelError::NoSequences), "embeddings of no sequences");
    assert_eq!(
        text(ModelError::TooManyCells { dims: vec![1, 2] }),
        "too many cells in shape [1, 2]"
    );
    assert_eq!(
        text(ModelError::EmptyStates { dims: vec![1, 0, 4] }),
        "states without cells: [1, 0, 4]"
    );
    assert_eq!(text(ModelError::IntegerStates), "states of integers cannot be multiplied");
}

#[test]
fn errors_of_candle_keep_their_own_text() {
    let inner = candle_core::Error::Msg("out of memory".to_string());
    assert!(ModelError::Candle(inner).message().is_none());
}

fn text_config() -> TextConfig {
    TextConfig {
        hidden_size: 4096,
        intermediate_size: 14336,
        num_hidden_layers: 32,
        num_attention_heads: 32,
        num_key_value_heads: 8,
        hidden_act: HiddenAct::Swiglu,
        max_position_embeddings: 32768,
        rms_norm_eps: 1e-5f64.to_bits(),
        rope_theta: 10000f64.to_bits(),
        sliding_window: Some(4096),
        vocab_size: 32000,
    }
}

#[test]
fn heads_share_the_hidden_size() {
    assert_eq!(text_config().attention_head_size(), 128);
    assert_eq!(text_config(), text_config().clone());
}

#[test]
fn sizes_of_the_text_configuration_have_to_fit() {
    assert!(text_config().has_fitting_sizes());
    let mut none = text_config();
    none.num_attention_heads = 0;
    assert!(!none.has_fitting_sizes());
    let mut many = text_config();
    many.num_key_value_heads = usize::MAX / 2;
    assert!(!many.has_fitting_sizes());
    let mut wide = text_config();
    wide.intermediate_size = usize::MAX / 2 + 1;
    assert!(!wide.has_fitting_sizes());
    wide.intermediate_size = usize::MAX / 2;
    assert!(wide.has_fitting_sizes());
}

#[test]
fn sizes_of_the_latent_attention_configuration_have_to_fit() {
    let sized = |num_cross_heads: usize, cross_dim_head: usize, latent_dim: usize| {
        LatentAttentionConfig {
            num_latents_value: 512,
            latent_dim,
            hidden_dim: 4096,
            num_cross_heads,
            cross_dim_head,
            output_normalize: true,
        }
        .has_fitting_sizes()
    };
    assert!(sized(8, 4096, 4096));
    assert!(!sized(0, 4096, 4096));
    assert!(!sized(1, usize::MAX / 2 + 1, 4096));
    assert!(!sized(8, 4096, usize::MAX / 8 + 1));
    assert!(sized(8, 4096, usize::MAX / 8));
}
