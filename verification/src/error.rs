//! The errors of the model.
use crate::text::{bracketed, bracketed_text, decimal, decimal_text};
use vstd::prelude::*;
use vstd::string::*;

verus! {

/// Why a model was not loaded, or did not give an embedding.
#[derive(Debug)]
pub enum ModelError {
    /// An operation on tensors failed.
    Candle(candle_core::Error),
    /// The weights gave a tensor of another shape than was asked for.
    UnexpectedWeight { dims: Vec<usize> },
    /// A shape of so many cells that a machine word cannot count them.
    TooManyCells { dims: Vec<usize> },
    /// A list of another length than the tokens, or than the bounds of the sequences.
    ListLength { got: usize, expected: usize },
    /// States of integers, which cannot be multiplied.
    IntegerStates,
    /// States, or learned vectors, without cells.
    EmptyStates { dims: Vec<usize> },
    /// The bounds of a sequence that has no tokens, or tokens that are not there.
    SequenceBounds { start: usize, end: usize },
    /// An embedding was asked for, but there are no sequences.
    NoSequences,
    /// The language model was to be loaded elsewhere than on a CUDA device.
    MistralRequiresCuda,
    /// The language model was to be loaded with another element type than half precision.
    MistralRequiresF16,
    /// The embedding model was to be loaded elsewhere than on a CUDA device.
    RequiresCuda,
    /// The embedding model was to be loaded with another element type than half precision.
    RequiresF16,
    /// The embedding model does not classify.
    ClassifierNotSupported,
    /// The last dimension of a gated activation did not split into two halves.
    NotTwoChunks { got: usize },
    /// The inputs of the cross attention did not have three dimensions.
    AttentionRank { x: Vec<usize>, k: Vec<usize> },
    /// The hidden states did not have three dimensions.
    HiddenStatesRank { dims: Vec<usize> },
    /// The hidden states are not as wide as the latents.
    HiddenSize { got: usize, expected: usize },
    /// The norm of the cross attention gave no context.
    MissingContext,
    /// The attention mask does not have one dimension with this many entries.
    MaskShape { expected: usize, dims: Vec<usize> },
}

/// The text of an error of the model's own; the text of a candle error is candle's.
pub open spec fn error_text(e: ModelError) -> Option<Seq<char>> {
    match e {
        ModelError::Candle(_) => None,
        ModelError::UnexpectedWeight { dims } => Some(
            "unexpected shape of a weight: "@ + bracketed(dims@),
        ),
        ModelError::TooManyCells { dims } => Some("too many cells in shape "@ + bracketed(dims@)),
        ModelError::ListLength { got, expected } => Some(
            "list of length "@ + decimal(got as nat) + ", expected "@ + decimal(expected as nat),
        ),
        ModelError::IntegerStates => Some("states of integers cannot be multiplied"@),
        ModelError::EmptyStates { dims } => Some("states without cells: "@ + bracketed(dims@)),
        ModelError::SequenceBounds { start, end } => Some(
            "sequence from token "@ + decimal(start as nat) + " to "@ + decimal(end as nat),
        ),
        ModelError::NoSequences => Some("embeddings of no sequences"@),
        ModelError::MistralRequiresCuda => Some("BidirectionalMistral requires Cuda"@),
        ModelError::MistralRequiresF16 => Some("BidirectionalMistral requires DType::F16"@),
        ModelError::RequiresCuda => Some("FlashNVEmbed requires Cuda"@),
        ModelError::RequiresF16 => Some("FlashNVEmbed requires DType::F16"@),
        ModelError::ClassifierNotSupported => Some(
            "`classifier` model type is not supported for NVEmbed"@,
        ),
        ModelError::NotTwoChunks { got } => Some(
            "Expected 2 chunks for the gated activation, got "@ + decimal(got as nat),
        ),
        ModelError::AttentionRank { x, k } => Some(
            "Expected 3D tensors for attention, got x: "@ + bracketed(x@) + ", k: "@ + bracketed(
                k@,
            ),
        ),
        ModelError::HiddenStatesRank { dims } => Some(
            "Expected 3D tensor for hidden_states, got shape: "@ + bracketed(dims@),
        ),
        ModelError::HiddenSize { got, expected } => Some(
            "Hidden dimension mismatch: got "@ + decimal(got as nat) + ", expected "@ + decimal(
                expected as nat,
            ),
        ),
        ModelError::MissingContext => Some("Missing context tensor in cross-attention"@),
        ModelError::MaskShape { expected, dims } => Some(
            "Invalid attention mask shape: expected ("@ + decimal(expected as nat) + ",), got "@
                + bracketed(dims@),
        ),
    }
}

/// A text followed by a list of numbers.
fn with_list(prefix: &str, v: &Vec<usize>) -> (r: String)
    ensures
        r@ == prefix@ + bracketed(v@),
{
    let mut text: String = prefix.to_string();
    let list: String = bracketed_text(v);
    text.append(list.as_str());
    text
}

/// A text followed by a number.
fn with_number(prefix: &str, n: usize) -> (r: String)
    ensures
        r@ == prefix@ + decimal(n as nat),
{
    let mut text: String = prefix.to_string();
    let number: String = decimal_text(n);
    text.append(number.as_str());
    text
}

/// A text, a number, another text and another number.
fn with_numbers(prefix: &str, a: usize, between: &str, b: usize) -> (r: String)
    ensures
        r@ == prefix@ + decimal(a as nat) + between@ + decimal(b as nat),
{
    let mut text: String = with_number(prefix, a);
    text.append(between);
    let number: String = decimal_text(b);
    text.append(number.as_str());
    text
}

impl ModelError {
    /// The text of the error, or nothing where the error is candle's and has its own text.
    pub fn message(&self) -> (r: Option<String>)
        ensures
            r is Some <==> error_text(*self) is Some,
            r matches Some(text) ==> error_text(*self) == Some(text@),
    {
        match self {
            ModelError::Candle(_) => None,
            ModelError::UnexpectedWeight { dims } => Some(
                with_list("unexpected shape of a weight: ", dims),
            ),
            ModelError::TooManyCells { dims } => Some(with_list("too many cells in shape ", dims)),
            ModelError::ListLength { got, expected } => Some(
                with_numbers("list of length ", *got, ", expected ", *expected),
            ),
            ModelError::IntegerStates => Some(
                "states of integers cannot be multiplied".to_string(),
            ),
            ModelError::EmptyStates { dims } => Some(with_list("states without cells: ", dims)),
            ModelError::SequenceBounds { start, end } => Some(
                with_numbers("sequence from token ", *start, " to ", *end),
            ),
            ModelError::NoSequences => Some("embeddings of no sequences".to_string()),
            ModelError::MistralRequiresCuda => Some(
                "BidirectionalMistral requires Cuda".to_string(),
            ),
            ModelError::MistralRequiresF16 => Some(
                "BidirectionalMistral requires DType::F16".to_string(),
            ),
            ModelError::RequiresCuda => Some("FlashNVEmbed requires Cuda".to_string()),
            ModelError::RequiresF16 => Some("FlashNVEmbed requires DType::F16".to_string()),
            ModelError::ClassifierNotSupported => Some(
                "`classifier` model type is not supported for NVEmbed".to_string(),
            ),
            ModelError::NotTwoChunks { got } => Some(
                with_number("Expected 2 chunks for the gated activation, got ", *got),
            ),
            ModelError::AttentionRank { x, k } => {
                let mut text: String = with_list("Expected 3D tensors for attention, got x: ", x);
                text.append(", k: ");
                let list: String = bracketed_text(k);
                text.append(list.as_str());
                Some(text)
            },
            ModelError::HiddenStatesRank { dims } => Some(
                with_list("Expected 3D tensor for hidden_states, got shape: ", dims),
            ),
            ModelError::HiddenSize { got, expected } => Some(
                with_numbers("Hidden dimension mismatch: got ", *got, ", expected ", *expected),
            ),
            ModelError::MissingContext => Some(
                "Missing context tensor in cross-attention".to_string(),
            ),
            ModelError::MaskShape { expected, dims } => {
                let mut text: String = with_number(
                    "Invalid attention mask shape: expected (",
                    *expected,
                );
                text.append(",), got ");
                let list: String = bracketed_text(dims);
                text.append(list.as_str());
                Some(text)
            },
        }
    }
}

/// The result of a candle operation, with its error as one of the model's.
pub fn lift<T>(r: Result<T, candle_core::Error>) -> (o: Result<T, ModelError>)
    ensures
        r matches Ok(t) ==> o == Ok::<T, ModelError>(t),
        r matches Err(e) ==> o == Err::<T, ModelError>(ModelError::Candle(e)),
{
    match r {
        Ok(t) => Ok(t),
        Err(e) => Err(ModelError::Candle(e)),
    }
}

} // verus!
