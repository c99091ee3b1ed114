//! What can go wrong when a tokenizer is read from a model file.

use vstd::prelude::*;

use crate::tokenizer::gguf::GgufError;

verus! {

#[derive(Debug)]
pub enum TokenizerError {
    /// A metadata entry is missing or has another type.
    Gguf(GgufError),
    /// The file names a tokenizer family that is not known here.
    UnsupportedModel(String),
    /// The parallel arrays of the vocabulary differ in length.
    InconsistentVocab { tokens: usize, scores: usize, types: usize },
}

/// The errors with their texts as character sequences.
pub enum ErroModelo {
    ChaveAusente(Seq<char>),
    TipoErrado(Seq<char>),
    UnsupportedModel(Seq<char>),
    InconsistentVocab { tokens: nat, scores: nat, types: nat },
}

impl View for TokenizerError {
    type V = ErroModelo;

    open spec fn view(&self) -> ErroModelo {
        match self {
            TokenizerError::Gguf(GgufError::ChaveAusente(k)) => ErroModelo::ChaveAusente(k@),
            TokenizerError::Gguf(GgufError::TipoErrado(k)) => ErroModelo::TipoErrado(k@),
            TokenizerError::UnsupportedModel(m) => ErroModelo::UnsupportedModel(m@),
            TokenizerError::InconsistentVocab { tokens, scores, types } =>
                ErroModelo::InconsistentVocab {
                tokens: *tokens as nat,
                scores: *scores as nat,
                types: *types as nat,
            },
        }
    }
}

} // verus!
