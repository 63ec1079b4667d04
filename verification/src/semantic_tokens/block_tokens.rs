//! Tokenizing blocks.
//!
//! Each block emits its own marker tokens before descending into its inline
//! content.  A heading repeats its marker on every physical line it spans and
//! hands its content a neutral token type, so formatting modifiers still
//! apply without leaking the block type onto inline spans.  A verbatim block
//! highlights only its fences, the closing one only when it exists.  A bullet
//! list emits a one-column marker per entry, then recurses into the entry's
//! nested blocks.

use vstd::prelude::*;

use crate::document::Block;
use crate::document::BulletList;
use crate::document::BulletListEntry;
use crate::document::Document;
use crate::document::Heading;
use crate::document::Paragraph;
use crate::document::VerbatimBlock;
use crate::semantic_tokens::AbsoluteToken;
use crate::semantic_tokens::all_tokens_wf;
use crate::semantic_tokens::token_wf;
use crate::semantic_tokens::inline_tokens::TokenModifier;
use crate::semantic_tokens::inline_tokens::inline_seq_tokens;
use crate::semantic_tokens::inline_tokens::lemma_inline_seq_tokens_push;
use crate::semantic_tokens::inline_tokens::lemma_inline_seq_tokens_wf;

verus! {

/// Block-level token types; the values index the token legend negotiated
/// with the editor.
#[derive(Debug, Clone, Copy, PartialEq, Eq, Structural)]
pub enum TokenType {
    Paragraph,
    Heading,
    BulletListEntry,
    Verbatim,
    Math,
}

impl TokenType {
    /// The legend index sent for this token type.
    pub open spec fn spec_value(self) -> u32 {
        match self {
            TokenType::Paragraph => 2,
            TokenType::Heading => 3,
            TokenType::BulletListEntry => 3,
            TokenType::Verbatim => 18,
            TokenType::Math => 3,
        }
    }

    /// Executable table for [`Self::spec_value`].
    pub fn value(&self) -> (r: u32)
        ensures
            r == self.spec_value(),
    {
        match self {
            TokenType::Paragraph => 2,
            TokenType::Heading => 3,
            TokenType::BulletListEntry => 3,
            TokenType::Verbatim => 18,
            TokenType::Math => 3,
        }
    }
}

impl Default for TokenType {
    /// The neutral type: an unscoped plain run carries it and emits nothing.
    fn default() -> (r: Self)
        ensures
            r == TokenType::Paragraph,
    {
        TokenType::Paragraph
    }
}

/// A block token type left open while nested content is tokenized, with the
/// column offset its marker started at and its marker length, if any.
#[derive(Debug, Clone, Copy, PartialEq, Eq)]
pub struct OpenTokenType {
    pub length: Option<u32>,
    pub start_column_offset: u32,
}

/// The column offset the innermost open block token dictates: its start
/// offset, advanced by its marker length when it has one; zero with no open
/// token.
pub open spec fn spec_column_offset(s: Seq<OpenTokenType>) -> u32 {
    if s.len() == 0 {
        0
    } else {
        match s.last().length {
            Some(l) => (l + s.last().start_column_offset) as u32,
            None => s.last().start_column_offset,
        }
    }
}

/// Executable form of [`spec_column_offset`].
pub fn calculate_column_offset(open_types: &Vec<OpenTokenType>) -> (r: u32)
    requires
        open_types@.len() > 0 ==> match open_types@.last().length {
            Some(l) => l + open_types@.last().start_column_offset <= u32::MAX,
            None => true,
        },
    ensures
        r == spec_column_offset(open_types@),
{
    if open_types.len() == 0 {
        0
    } else {
        let last = open_types[open_types.len() - 1];
        match last.length {
            Some(length) => length + last.start_column_offset,
            None => last.start_column_offset,
        }
    }
}

/// The marker token a heading emits on one of its physical lines.
pub open spec fn heading_marker(h: Heading, line: u32) -> AbsoluteToken {
    AbsoluteToken {
        line,
        start: h.span.start.col_utf16,
        length: (h.level + 1) as u32,
        token_type: TokenType::Heading.spec_value(),
        token_modifiers_bitset: 0,
    }
}

/// A heading's tokens: its marker on the first line, the marker repeated on
/// every further line it spans (highest line first), then its inline content
/// under the neutral token type with no open modifiers.
pub open spec fn heading_tokens(h: Heading) -> Seq<AbsoluteToken> {
    let extra = h.span.end.line - h.span.start.line;
    seq![heading_marker(h, h.span.start.line)] + Seq::new(
        extra as nat,
        |i: int| heading_marker(h, (h.span.end.line - i) as u32),
    ) + inline_seq_tokens(h.content@, TokenType::Paragraph, Seq::<TokenModifier>::empty())
}

/// A paragraph's tokens: its inline content under the neutral token type.
pub open spec fn paragraph_tokens(p: Paragraph) -> Seq<AbsoluteToken> {
    inline_seq_tokens(p.content@, TokenType::Paragraph, Seq::<TokenModifier>::empty())
}

/// A verbatim block's tokens: the opening fence, and the closing fence (at
/// the same column) only when the block was explicitly closed.
pub open spec fn verbatim_tokens(v: VerbatimBlock) -> Seq<AbsoluteToken> {
    let open_tok = AbsoluteToken {
        line: v.span.start.line,
        start: v.span.start.col_utf16,
        length: v.tick_len,
        token_type: TokenType::Verbatim.spec_value(),
        token_modifiers_bitset: 0,
    };
    if v.implicit_closed {
        seq![open_tok]
    } else {
        seq![
            open_tok,
            AbsoluteToken {
                line: v.span.end.line,
                start: v.span.start.col_utf16,
                length: v.tick_len,
                token_type: TokenType::Verbatim.spec_value(),
                token_modifiers_bitset: 0,
            },
        ]
    }
}

/// A bullet-list entry's one-column marker token.
pub open spec fn entry_marker(e: BulletListEntry) -> AbsoluteToken {
    AbsoluteToken {
        line: e.span.start.line,
        start: e.span.start.col_utf16,
        length: 1,
        token_type: TokenType::BulletListEntry.spec_value(),
        token_modifiers_bitset: 0,
    }
}

/// The tokens of one block.
pub open spec fn block_tokens(b: Block) -> Seq<AbsoluteToken>
    decreases b,
{
    match b {
        Block::Heading(h) => heading_tokens(h),
        Block::Paragraph(p) => paragraph_tokens(p),
        Block::VerbatimBlock(v) => verbatim_tokens(v),
        Block::BulletList(l) => bullet_list_tokens(l),
        Block::Blankline => Seq::<AbsoluteToken>::empty(),
    }
}

/// The tokens of a sequence of sibling blocks, in order.
pub open spec fn block_seq_tokens(s: Seq<Block>) -> Seq<AbsoluteToken>
    decreases s,
{
    if s.len() == 0 {
        Seq::<AbsoluteToken>::empty()
    } else {
        block_tokens(s[0]) + block_seq_tokens(s.drop_first())
    }
}

/// A bullet list's tokens: those of its entries, in order.
pub open spec fn bullet_list_tokens(l: BulletList) -> Seq<AbsoluteToken>
    decreases l,
{
    entry_seq_tokens(l.entries@)
}

/// The tokens of a sequence of bullet-list entries, in order.
pub open spec fn entry_seq_tokens(s: Seq<BulletListEntry>) -> Seq<AbsoluteToken>
    decreases s,
{
    if s.len() == 0 {
        Seq::<AbsoluteToken>::empty()
    } else {
        entry_tokens(s[0]) + entry_seq_tokens(s.drop_first())
    }
}

/// One entry's tokens: its marker, then its nested blocks.
pub open spec fn entry_tokens(e: BulletListEntry) -> Seq<AbsoluteToken>
    decreases e,
{
    seq![entry_marker(e)] + block_seq_tokens(e.body@)
}

/// The tokens of a whole document: its blocks in order.
pub open spec fn doc_tokens(d: Document) -> Seq<AbsoluteToken> {
    block_seq_tokens(d.blocks@)
}

/// Appending one more block appends exactly its tokens.
pub proof fn lemma_block_seq_tokens_push(s: Seq<Block>, x: Block)
    ensures
        block_seq_tokens(s.push(x)) == block_seq_tokens(s) + block_tokens(x),
    decreases s.len(),
{
    if s.len() == 0 {
        assert(s.push(x).drop_first() =~= Seq::<Block>::empty());
        assert(s.push(x)[0] == x);
        assert(block_seq_tokens(s.push(x).drop_first()) == Seq::<AbsoluteToken>::empty());
        assert(block_seq_tokens(s) == Seq::<AbsoluteToken>::empty());
        assert(block_seq_tokens(s.push(x)) =~= block_seq_tokens(s) + block_tokens(x));
    } else {
        lemma_block_seq_tokens_push(s.drop_first(), x);
        assert(s.push(x).drop_first() =~= s.drop_first().push(x));
        assert(s.push(x)[0] == s[0]);
        assert(block_seq_tokens(s.push(x).drop_first()) == block_seq_tokens(s.drop_first()) + block_tokens(x));
        assert(block_seq_tokens(s.push(x)) =~= block_seq_tokens(s) + block_tokens(x));
    }
}

/// Appending one more entry appends exactly its tokens.
pub proof fn lemma_entry_seq_tokens_push(s: Seq<BulletListEntry>, x: BulletListEntry)
    ensures
        entry_seq_tokens(s.push(x)) == entry_seq_tokens(s) + entry_tokens(x),
    decreases s.len(),
{
    if s.len() == 0 {
        assert(s.push(x).drop_first() =~= Seq::<BulletListEntry>::empty());
        assert(s.push(x)[0] == x);
        assert(entry_seq_tokens(s.push(x).drop_first()) == Seq::<AbsoluteToken>::empty());
        assert(entry_seq_tokens(s) == Seq::<AbsoluteToken>::empty());
        assert(entry_seq_tokens(s.push(x)) =~= entry_seq_tokens(s) + entry_tokens(x));
    } else {
        lemma_entry_seq_tokens_push(s.drop_first(), x);
        assert(s.push(x).drop_first() =~= s.drop_first().push(x));
        assert(s.push(x)[0] == s[0]);
        assert(entry_seq_tokens(s.push(x).drop_first()) == entry_seq_tokens(s.drop_first()) + entry_tokens(x));
        assert(entry_seq_tokens(s.push(x)) =~= entry_seq_tokens(s) + entry_tokens(x));
    }
}

/// A well-formed block yields only tokens at valid 1-based positions.
pub proof fn lemma_block_tokens_wf(b: Block)
    requires
        b.wf(),
    ensures
        all_tokens_wf(block_tokens(b)),
    decreases b,
{
    match b {
        Block::Heading(h) => {
            let extra = h.span.end.line - h.span.start.line;
            let markers = seq![heading_marker(h, h.span.start.line)] + Seq::new(
                extra as nat,
                |i: int| heading_marker(h, (h.span.end.line - i) as u32),
            );
            assert(all_tokens_wf(markers)) by {
                assert forall|k: int| 0 <= k < markers.len() implies token_wf(
                    #[trigger] markers[k],
                ) by {
                    if k > 0 {
                        assert(markers[k] == heading_marker(h, (h.span.end.line - (k - 1)) as u32));
                    }
                }
            }
            lemma_inline_seq_tokens_wf(
                h.content@,
                TokenType::Paragraph,
                Seq::<TokenModifier>::empty(),
            );
            crate::semantic_tokens::lemma_all_tokens_wf_concat(
                markers,
                inline_seq_tokens(h.content@, TokenType::Paragraph, Seq::<TokenModifier>::empty()),
            );
        },
        Block::Paragraph(p) => {
            lemma_inline_seq_tokens_wf(
                p.content@,
                TokenType::Paragraph,
                Seq::<TokenModifier>::empty(),
            );
        },
        Block::VerbatimBlock(v) => {
            assert forall|k: int| 0 <= k < verbatim_tokens(v).len() implies token_wf(
                #[trigger] verbatim_tokens(v)[k],
            ) by {}
        },
        Block::BulletList(l) => {
            lemma_entry_seq_tokens_wf(l.entries@);
        },
        Block::Blankline => {},
    }
}

/// A well-formed run of sibling blocks yields only tokens at valid positions.
pub proof fn lemma_block_seq_tokens_wf(s: Seq<Block>)
    requires
        forall|k: int| #![trigger s[k]] 0 <= k < s.len() ==> s[k].wf(),
    ensures
        all_tokens_wf(block_seq_tokens(s)),
    decreases s,
{
    if s.len() > 0 {
        lemma_block_tokens_wf(s[0]);
        assert(forall|k: int| #![trigger s.drop_first()[k]] 0 <= k < s.drop_first().len()
            ==> s.drop_first()[k].wf()) by {
            assert(forall|k: int| 0 <= k < s.drop_first().len() ==> #[trigger] s.drop_first()[k]
                == s[k + 1]);
        }
        lemma_block_seq_tokens_wf(s.drop_first());
        crate::semantic_tokens::lemma_all_tokens_wf_concat(
            block_tokens(s[0]),
            block_seq_tokens(s.drop_first()),
        );
    }
}

/// A well-formed run of list entries yields only tokens at valid positions.
pub proof fn lemma_entry_seq_tokens_wf(s: Seq<BulletListEntry>)
    requires
        forall|k: int| #![trigger s[k]] 0 <= k < s.len() ==> s[k].wf(),
    ensures
        all_tokens_wf(entry_seq_tokens(s)),
    decreases s,
{
    if s.len() > 0 {
        let e = s[0];
        assert(all_tokens_wf(entry_tokens(e))) by {
            lemma_block_seq_tokens_wf(e.body@);
            crate::semantic_tokens::lemma_all_tokens_wf_concat(
                seq![entry_marker(e)],
                block_seq_tokens(e.body@),
            );
        }
        assert(forall|k: int| #![trigger s.drop_first()[k]] 0 <= k < s.drop_first().len()
            ==> s.drop_first()[k].wf()) by {
            assert(forall|k: int| 0 <= k < s.drop_first().len() ==> #[trigger] s.drop_first()[k]
                == s[k + 1]);
        }
        lemma_entry_seq_tokens_wf(s.drop_first());
        crate::semantic_tokens::lemma_all_tokens_wf_concat(
            entry_tokens(e),
            entry_seq_tokens(s.drop_first()),
        );
    }
}

/// A well-formed document yields only tokens at valid 1-based positions —
/// what the delta encoder needs of its input.
pub proof fn lemma_doc_tokens_wf(d: Document)
    requires
        d.wf(),
    ensures
        all_tokens_wf(doc_tokens(d)),
{
    lemma_block_seq_tokens_wf(d.blocks@);
}

impl Heading {
    /// Emits this heading's marker tokens and its content's tokens.
    pub fn tokens(&self) -> (r: Vec<AbsoluteToken>)
        requires
            self.wf(),
        ensures
            r@ == heading_tokens(*self),
            all_tokens_wf(r@),
    {
        let mut r: Vec<AbsoluteToken> = Vec::new();
        let marker_len: u32 = (self.level + 1) as u32;
        r.push(
            AbsoluteToken {
                line: self.span.start.line,
                start: self.span.start.col_utf16,
                length: marker_len,
                token_type: TokenType::Heading.value(),
                token_modifiers_bitset: 0,
            },
        );
        let ghost first = r@;
        let total: u32 = self.span.end.line - self.span.start.line;
        let mut lines: u32 = total;
        while lines > 0
            invariant
                lines <= total,
                total == self.span.end.line - self.span.start.line,
                self.wf(),
                marker_len == (self.level + 1) as u32,
                first.len() == 1,
                first[0] == heading_marker(*self, self.span.start.line),
                r@ =~= first + Seq::new(
                    (total - lines) as nat,
                    |i: int| heading_marker(*self, (self.span.end.line - i) as u32),
                ),
            decreases lines,
        {
            r.push(
                AbsoluteToken {
                    line: self.span.start.line + lines,
                    start: self.span.start.col_utf16,
                    length: marker_len,
                    token_type: TokenType::Heading.value(),
                    token_modifiers_bitset: 0,
                },
            );
            lines -= 1;
            proof {
                assert(r@ =~= first + Seq::new(
                    (total - lines) as nat,
                    |i: int| heading_marker(*self, (self.span.end.line - i) as u32),
                ));
            }
        }
        let ghost markers = r@;
        let mut mods: Vec<TokenModifier> = Vec::new();
        let mut j: usize = 0;
        while j < self.content.len()
            invariant
                j <= self.content@.len(),
                self.wf(),
                mods@ == Seq::<TokenModifier>::empty(),
                markers.len() >= 1,
                all_tokens_wf(markers),
                r@ == markers + inline_seq_tokens(
                    self.content@.take(j as int),
                    TokenType::Paragraph,
                    Seq::<TokenModifier>::empty(),
                ),
                all_tokens_wf(r@),
            decreases self.content@.len() - j,
        {
            proof {
                assert(self.content@[j as int].wf());
            }
            let mut sub = self.content[j].tokens(TokenType::Paragraph, &mut mods);
            r.append(&mut sub);
            proof {
                assert(self.content@.take(j + 1 as int) =~= self.content@.take(j as int).push(
                    self.content@[j as int],
                ));
                lemma_inline_seq_tokens_push(
                    self.content@.take(j as int),
                    self.content@[j as int],
                    TokenType::Paragraph,
                    Seq::<TokenModifier>::empty(),
                );
            }
            j += 1;
        }
        proof {
            assert(self.content@.take(self.content@.len() as int) =~= self.content@);
            assert(r@ =~= heading_tokens(*self));
        }
        r
    }
}

impl Paragraph {
    /// Emits this paragraph's content tokens under the neutral token type.
    pub fn tokens(&self) -> (r: Vec<AbsoluteToken>)
        requires
            self.wf(),
        ensures
            r@ == paragraph_tokens(*self),
            all_tokens_wf(r@),
    {
        let mut r: Vec<AbsoluteToken> = Vec::new();
        let mut mods: Vec<TokenModifier> = Vec::new();
        let mut j: usize = 0;
        while j < self.content.len()
            invariant
                j <= self.content@.len(),
                self.wf(),
                mods@ == Seq::<TokenModifier>::empty(),
                r@ == inline_seq_tokens(
                    self.content@.take(j as int),
                    TokenType::Paragraph,
                    Seq::<TokenModifier>::empty(),
                ),
                all_tokens_wf(r@),
            decreases self.content@.len() - j,
        {
            proof {
                assert(self.content@[j as int].wf());
            }
            let mut sub = self.content[j].tokens(TokenType::Paragraph, &mut mods);
            r.append(&mut sub);
            proof {
                assert(self.content@.take(j + 1 as int) =~= self.content@.take(j as int).push(
                    self.content@[j as int],
                ));
                lemma_inline_seq_tokens_push(
                    self.content@.take(j as int),
                    self.content@[j as int],
                    TokenType::Paragraph,
                    Seq::<TokenModifier>::empty(),
                );
            }
            j += 1;
        }
        proof {
            assert(self.content@.take(self.content@.len() as int) =~= self.content@);
        }
        r
    }
}

impl VerbatimBlock {
    /// Emits the fence tokens; only the fences are highlighted, never the
    /// enclosed raw lines.
    pub fn tokens(&self) -> (r: Vec<AbsoluteToken>)
        requires
            self.wf(),
        ensures
            r@ == verbatim_tokens(*self),
            all_tokens_wf(r@),
    {
        let mut r: Vec<AbsoluteToken> = Vec::new();
        r.push(
            AbsoluteToken {
                line: self.span.start.line,
                start: self.span.start.col_utf16,
                length: self.tick_len,
                token_type: TokenType::Verbatim.value(),
                token_modifiers_bitset: 0,
            },
        );
        if !self.implicit_closed {
            r.push(
                AbsoluteToken {
                    line: self.span.end.line,
                    start: self.span.start.col_utf16,
                    length: self.tick_len,
                    token_type: TokenType::Verbatim.value(),
                    token_modifiers_bitset: 0,
                },
            );
        }
        proof {
            assert(r@ =~= verbatim_tokens(*self));
        }
        r
    }
}

impl BulletList {
    /// Emits every entry's tokens, in order.
    pub fn tokens(&self) -> (r: Vec<AbsoluteToken>)
        requires
            self.wf(),
        ensures
            r@ == bullet_list_tokens(*self),
            all_tokens_wf(r@),
        decreases *self,
    {
        let mut r: Vec<AbsoluteToken> = Vec::new();
        let mut j: usize = 0;
        while j < self.entries.len()
            invariant
                j <= self.entries@.len(),
                self.wf(),
                r@ == entry_seq_tokens(self.entries@.take(j as int)),
                all_tokens_wf(r@),
            decreases self.entries@.len() - j,
        {
            proof {
                assert(self.entries@[j as int].wf());
            }
            let mut sub = self.entries[j].tokens();
            r.append(&mut sub);
            proof {
                assert(self.entries@.take(j + 1 as int) =~= self.entries@.take(j as int).push(
                    self.entries@[j as int],
                ));
                lemma_entry_seq_tokens_push(self.entries@.take(j as int), self.entries@[j as int]);
            }
            j += 1;
        }
        proof {
            assert(self.entries@.take(self.entries@.len() as int) =~= self.entries@);
        }
        r
    }
}

impl BulletListEntry {
    /// Emits this entry's marker token, then its nested blocks' tokens.
    pub fn tokens(&self) -> (r: Vec<AbsoluteToken>)
        requires
            self.wf(),
        ensures
            r@ == entry_tokens(*self),
            all_tokens_wf(r@),
        decreases *self,
    {
        let mut r: Vec<AbsoluteToken> = Vec::new();
        r.push(
            AbsoluteToken {
                line: self.span.start.line,
                start: self.span.start.col_utf16,
                length: 1,
                token_type: TokenType::BulletListEntry.value(),
                token_modifiers_bitset: 0,
            },
        );
        let ghost marker = r@;
        let mut j: usize = 0;
        while j < self.body.len()
            invariant
                j <= self.body@.len(),
                self.wf(),
                marker.len() == 1,
                marker[0] == entry_marker(*self),
                token_wf(marker[0]),
                r@ == marker + block_seq_tokens(self.body@.take(j as int)),
                all_tokens_wf(r@),
            decreases self.body@.len() - j,
        {
            proof {
                assert(self.body@[j as int].wf());
            }
            let mut sub = self.body[j].tokens();
            r.append(&mut sub);
            proof {
                assert(self.body@.take(j + 1 as int) =~= self.body@.take(j as int).push(
                    self.body@[j as int],
                ));
                lemma_block_seq_tokens_push(self.body@.take(j as int), self.body@[j as int]);
            }
            j += 1;
        }
        proof {
            assert(self.body@.take(self.body@.len() as int) =~= self.body@);
            assert(r@ =~= entry_tokens(*self));
        }
        r
    }
}

impl Block {
    /// Emits this block's tokens.
    pub fn tokens(&self) -> (r: Vec<AbsoluteToken>)
        requires
            self.wf(),
        ensures
            r@ == block_tokens(*self),
            all_tokens_wf(r@),
        decreases *self,
    {
        match self {
            Block::Heading(h) => h.tokens(),
            Block::Paragraph(p) => p.tokens(),
            Block::VerbatimBlock(v) => v.tokens(),
            Block::BulletList(l) => l.tokens(),
            Block::Blankline => Vec::new(),
        }
    }
}

impl Document {
    /// Emits the absolute tokens of the whole document, block by block in
    /// document order.
    pub fn tokens(&self) -> (r: Vec<AbsoluteToken>)
        requires
            self.wf(),
        ensures
            r@ == doc_tokens(*self),
            all_tokens_wf(r@),
    {
        let mut r: Vec<AbsoluteToken> = Vec::new();
        let mut j: usize = 0;
        while j < self.blocks.len()
            invariant
                j <= self.blocks@.len(),
                self.wf(),
                r@ == block_seq_tokens(self.blocks@.take(j as int)),
                all_tokens_wf(r@),
            decreases self.blocks@.len() - j,
        {
            proof {
                assert(self.blocks@[j as int].wf());
            }
            let mut sub = self.blocks[j].tokens();
            r.append(&mut sub);
            proof {
                assert(self.blocks@.take(j + 1 as int) =~= self.blocks@.take(j as int).push(
                    self.blocks@[j as int],
                ));
                lemma_block_seq_tokens_push(self.blocks@.take(j as int), self.blocks@[j as int]);
            }
            j += 1;
        }
        proof {
            assert(self.blocks@.take(self.blocks@.len() as int) =~= self.blocks@);
        }
        r
    }
}

} // verus!
