//! The variants of the BPE pre-tokenizer.

use vstd::prelude::*;

use crate::tokenizer::texto::mesmo_texto;

verus! {

/// Variant of the pre-tokenizer, chosen by the metadata key `tokenizer.ggml.pre`.
#[derive(Clone, Copy, Debug, PartialEq, Eq, Structural)]
pub enum Pretok {
    /// Qwen2 / GPT-4: every value of the key but `qwen35`, and its absence.
    Qwen2,
    /// Qwen3.5: a combining mark stays in the run of the letter before it.
    Qwen35,
}

impl Default for Pretok {
    fn default() -> (r: Pretok)
        ensures
            r == Pretok::Qwen2,
    {
        Pretok::Qwen2
    }
}

impl Pretok {
    pub open spec fn de_pre(pre: Seq<char>) -> Pretok {
        if pre == "qwen35"@ {
            Pretok::Qwen35
        } else {
            Pretok::Qwen2
        }
    }

    /// Maps the value of `tokenizer.ggml.pre`: only `qwen35` differs.
    pub fn from_pre(pre: &str) -> (r: Pretok)
        ensures
            r == Pretok::de_pre(pre@),
    {
        if mesmo_texto(pre, "qwen35") {
            Pretok::Qwen35
        } else {
            Pretok::Qwen2
        }
    }
}

} // verus!
