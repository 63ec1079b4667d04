//! Semantic-token production: tokenizing a document and delta-encoding the
//! result into the flat token stream the highlighting protocol expects.

use vstd::prelude::*;

use crate::document::Document;
use crate::semantic_tokens::block_tokens::doc_tokens;
use crate::semantic_tokens::delta_conversions::make_relative;
use crate::semantic_tokens::delta_conversions::relative_of;

pub mod block_tokens;
pub mod delta_conversions;
pub mod inline_tokens;

verus! {

/// A highlighted span at its absolute source position, before delta encoding.
#[derive(Debug, Clone, Copy, PartialEq, Eq, Structural)]
pub struct AbsoluteToken {
    /// 1-based source line.
    pub line: u32,
    /// 1-based UTF-16 start column.
    pub start: u32,
    /// Number of UTF-16 code units the token covers.
    pub length: u32,
    /// Protocol token-type index.
    pub token_type: u32,
    /// Bitwise-or of the active formatting modifiers.
    pub token_modifiers_bitset: u32,
}

/// One protocol token: positions relative to the previous token, per the
/// semantic-tokens encoding.
#[derive(Debug, Clone, Copy, PartialEq, Eq, Structural)]
pub struct SemanticToken {
    pub delta_line: u32,
    pub delta_start: u32,
    pub length: u32,
    pub token_type: u32,
    pub token_modifiers_bitset: u32,
}

/// Positions the tokenizer emits are 1-based, which the delta encoder relies
/// on when it re-bases them to the protocol's 0-based origin.
pub open spec fn token_wf(t: AbsoluteToken) -> bool {
    t.line >= 1 && t.start >= 1
}

pub open spec fn all_tokens_wf(s: Seq<AbsoluteToken>) -> bool {
    forall|i: int| 0 <= i < s.len() ==> token_wf(#[trigger] s[i])
}

/// Concatenation keeps position validity.
pub proof fn lemma_all_tokens_wf_concat(a: Seq<AbsoluteToken>, b: Seq<AbsoluteToken>)
    requires
        all_tokens_wf(a),
        all_tokens_wf(b),
    ensures
        all_tokens_wf(a + b),
{
    assert forall|k: int| 0 <= k < (a + b).len() implies token_wf(#[trigger] (a + b)[k]) by {
        if k < a.len() {
            assert((a + b)[k] == a[k]);
        } else {
            assert((a + b)[k] == b[k - a.len()]);
        }
    }
}

/// Produces the protocol token stream for a compiled document: the absolute
/// tokens of every block in document order, delta-encoded into relative
/// offsets.  An empty document yields an empty stream.
pub fn get_semantic_tokens(document: &Document) -> (r: Vec<SemanticToken>)
    requires
        document.wf(),
    ensures
        r@ == relative_of(doc_tokens(*document)),
        r@.len() == doc_tokens(*document).len(),
        document.blocks@.len() == 0 ==> r@ == Seq::<SemanticToken>::empty(),
{
    let tokens = document.tokens();
    proof {
        if document.blocks@.len() == 0 {
            assert(doc_tokens(*document) =~= Seq::<AbsoluteToken>::empty());
            crate::semantic_tokens::delta_conversions::lemma_relative_of_empty();
        }
    }
    make_relative(tokens)
}

/// Answers a full token request from the store's view of one file: the
/// document's token stream, or an empty stream when no document was ever
/// published for the file.
pub fn get_semantic_tokens_or_empty(document: Option<&Document>) -> (r: Vec<SemanticToken>)
    requires
        match document {
            Some(d) => d.wf(),
            None => true,
        },
    ensures
        match document {
            Some(d) => r@ == relative_of(doc_tokens(*d)),
            None => r@ == Seq::<SemanticToken>::empty(),
        },
{
    match document {
        Some(d) => get_semantic_tokens(d),
        None => Vec::new(),
    }
}

/// Round-trip law over whole documents: delta-decoding the encoded stream of
/// a well-formed document reconstructs the tokenizer's absolute tokens —
/// exactly those tokens (as a multiset), in ascending (line, column) order.
pub proof fn lemma_document_round_trip(d: Document)
    requires
        d.wf(),
    ensures
        crate::semantic_tokens::delta_conversions::decode(relative_of(doc_tokens(d)))
            == crate::semantic_tokens::delta_conversions::sort_desc(doc_tokens(d)).reverse(),
        crate::semantic_tokens::delta_conversions::decode(
            relative_of(doc_tokens(d)),
        ).to_multiset() == doc_tokens(d).to_multiset(),
{
    crate::semantic_tokens::block_tokens::lemma_doc_tokens_wf(d);
    crate::semantic_tokens::delta_conversions::lemma_round_trip(doc_tokens(d));
}

} // verus!
