//! What the model is asked for.
use crate::error::ModelError;
use vstd::prelude::*;

verus! {

/// Sequences of tokens, put one after the other without padding. Sequence `k` is made of the
/// tokens from `cumulative_seq_lengths[k]` up to `cumulative_seq_lengths[k + 1]`.
#[derive(Debug, Clone)]
pub struct Batch {
    pub input_ids: Vec<u32>,
    pub position_ids: Vec<u32>,
    pub attention_mask: Vec<u32>,
    pub cumulative_seq_lengths: Vec<u32>,
    pub max_length: u32,
    pub pooled_indices: Vec<u32>,
}

impl Batch {
    /// Every token has a position and a mask.
    pub open spec fn is_even(self) -> bool {
        &&& self.position_ids@.len() == self.input_ids@.len()
        &&& self.attention_mask@.len() == self.input_ids@.len()
    }

    /// `e` names the first list that is not as long as there are tokens.
    pub open spec fn is_uneven(self, e: ModelError) -> bool {
        &&& !self.is_even()
        &&& e matches ModelError::ListLength { got, expected } && expected == self.input_ids@.len()
            && got == (if self.position_ids@.len() != self.input_ids@.len() {
            self.position_ids@.len()
        } else {
            self.attention_mask@.len()
        })
    }

    /// An error where a token has no position or no mask.
    pub fn expect_even(&self) -> (r: Result<(), ModelError>)
        ensures
            r is Ok <==> self.is_even(),
            r matches Err(e) ==> self.is_uneven(e),
    {
        let expected: usize = self.input_ids.len();
        if self.position_ids.len() != expected {
            return Err(ModelError::ListLength { got: self.position_ids.len(), expected });
        }
        if self.attention_mask.len() != expected {
            return Err(ModelError::ListLength { got: self.attention_mask.len(), expected });
        }
        Ok(())
    }
}

/// How the states of a sequence become one.
#[derive(Debug, Clone, Copy, PartialEq, Eq, Structural)]
pub enum Pool {
    Cls,
    Mean,
    Splade,
    LastToken,
}

/// What a model is loaded for.
#[derive(Debug, Clone, Copy, PartialEq, Eq, Structural)]
pub enum ModelType {
    Classifier,
    Embedding(Pool),
}

} // verus!
