//! The tokenizer as handed across a foreign call boundary: built from the
//! text of its vocabulary and merge listings, encoding into a bounded buffer.
use vstd::prelude::*;
use crate::text::lines;
use crate::tokenizer::{bpe_encode, merge_pairs, merges_from_text, rule_table, vocab_from_text, BpeModel, BpeTokenizer};

verus! {

/// Owns a byte-pair-encoding tokenizer for callers that hold it by handle.
pub struct TokenizerHandle {
    tok: BpeTokenizer,
}

impl TokenizerHandle {
    /// What the tokenizer holds.
    pub closed spec fn model(&self) -> BpeModel {
        self.tok@
    }

    /// Builds the tokenizer from a vocabulary listing (one token per line) and a
    /// merge listing (two pieces per line, in priority order).
    pub fn new(vocab_text: &str, merges_text: &str, unk_id: usize) -> (r: Self)
        ensures
            r.model() == (BpeModel {
                vocab: lines(vocab_text@),
                rules: rule_table(merge_pairs(lines(merges_text@))),
                unk: unk_id,
            }),
    {
        let vocab = vocab_from_text(vocab_text);
        let merges = merges_from_text(merges_text);
        TokenizerHandle { tok: BpeTokenizer::new(vocab, merges, unk_id) }
    }

    /// The ids of `text`, cut to the first `cap` of them.
    pub fn encode_capped(&self, text: &str, cap: usize) -> (r: Vec<usize>)
        ensures
            r@ == bpe_encode(self.model(), text@).take(
                if cap < bpe_encode(self.model(), text@).len() {
                    cap as int
                } else {
                    bpe_encode(self.model(), text@).len() as int
                },
            ),
    {
        let mut ids = self.tok.encode(text);
        if cap < ids.len() {
            ids.truncate(cap);
        }
        assert(ids@ =~= bpe_encode(self.model(), text@).take(ids.len() as int));
        ids
    }
}

} // verus!
