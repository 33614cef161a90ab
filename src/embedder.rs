//! The embedding providers the indexer can use.

use vstd::prelude::*;

verus! {

/// The embedding models a provider can be asked for.
#[derive(PartialEq, Eq, Structural, Debug, Clone, Copy)]
pub enum EmbeddingModel {
    TextEmbedding3Small,
    TextEmbedding3Large,
    TextEmbeddingAda002,
}

/// The settings of the OpenAI embedding provider.
#[derive(Debug, Clone)]
pub struct OpenAIEmbedder {
    pub api_key: String,
}

/// An embedding provider.
#[derive(Debug, Clone)]
pub enum Embedder {
    OpenAI(OpenAIEmbedder),
}

impl Embedder {
    /// The model every provider embeds with.
    pub fn model(&self) -> (r: EmbeddingModel)
        ensures
            r == EmbeddingModel::TextEmbedding3Small,
    {
        EmbeddingModel::TextEmbedding3Small
    }
}

} // verus!
