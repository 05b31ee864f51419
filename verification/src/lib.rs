//! An embedding model: a Mistral language model in which every token attends to its whole sequence,
//! and a latent attention that pools its states.
//!
//! `array` says what a tensor is as a value, and `tensor`, `ops` and `weights` say what is relied
//! on of candle. `layers` and the modules behind it are built on these: `attention`, `mlp`, `layer`
//! and `mistral` are the language model, `feed_forward`, `cross_attention` and `latent` the latent
//! attention, and `model` puts the two together. `token_laws` and `latent_laws` state what the
//! layers keep up to rounding, in terms of `rows` and `exact`.
//!
//! How calls relate to each other is stated in `layer_calls`, `token_calls`, `latent_calls`,
//! `pool_calls` and `model_calls`, what is read from a checkpoint in `load_laws`, and what is not
//! refused in `reading_laws` and `success_laws`.
pub mod array;
pub mod attention;
pub mod batch;
pub mod config;
pub mod cross_attention;
pub mod error;
pub mod exact;
pub mod feed_forward;
pub mod latent;
pub mod latent_calls;
pub mod latent_laws;
pub mod layer;
pub mod layer_calls;
pub mod layers;
pub mod load_laws;
pub mod mistral;
pub mod mlp;
pub mod model;
pub mod model_calls;
pub mod ops;
pub mod pool_calls;
pub mod reading_laws;
pub mod rows;
pub mod success_laws;
pub mod tensor;
pub mod text;
pub mod token_calls;
pub mod token_laws;
pub mod weights;
