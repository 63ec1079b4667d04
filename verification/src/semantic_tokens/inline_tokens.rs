//! Tokenizing inline content.
//!
//! The walk threads two pieces of state: the ambient block-level token type
//! (constant within a block, switched only by verbatim and math scopes) and
//! the stack of open formatting modifiers.  A wrapping inline pushes its
//! modifier bit, emits its opening delimiter token, recurses, emits the
//! closing delimiter token unless the closure was implicit, and pops the bit
//! again — the stack leaves every call exactly as it entered it.
//!
//! A plain run in default scope emits nothing: for the protocol an absent
//! token means no highlighting.

use vstd::prelude::*;

use crate::document::FormatKind;
use crate::document::Inline;
use crate::document::ScopedKind;
use crate::document::spec_keyword_len;
use crate::document::spec_scoped_keyword_len;
use crate::document::keyword_len;
use crate::document::scoped_keyword_len;
use crate::semantic_tokens::AbsoluteToken;
use crate::semantic_tokens::all_tokens_wf;
use crate::semantic_tokens::token_wf;
use crate::semantic_tokens::block_tokens::TokenType;

verus! {

/// One formatting flag; the protocol encodes the set of active flags as a
/// bitset, so every flag owns one bit.
#[derive(Debug, Clone, Copy, PartialEq, Eq, Structural)]
pub enum TokenModifier {
    Plain,
    Bold,
    Highlight,
    Italic,
    Overline,
    DoubleQuote,
    Strikethrough,
    Subscript,
    Superscript,
    Underline,
}

impl TokenModifier {
    /// The modifier's bit in the protocol bitset.
    pub open spec fn spec_value(self) -> u32 {
        match self {
            TokenModifier::Plain => 0,
            TokenModifier::Bold => 1,
            TokenModifier::Highlight => 2,
            TokenModifier::Italic => 4,
            TokenModifier::Overline => 8,
            TokenModifier::DoubleQuote => 16,
            TokenModifier::Strikethrough => 32,
            TokenModifier::Subscript => 64,
            TokenModifier::Superscript => 128,
            TokenModifier::Underline => 256,
        }
    }

    /// Executable table for [`Self::spec_value`].
    pub fn value(&self) -> (r: u32)
        ensures
            r == self.spec_value(),
    {
        match self {
            TokenModifier::Plain => 0,
            TokenModifier::Bold => 1,
            TokenModifier::Highlight => 2,
            TokenModifier::Italic => 4,
            TokenModifier::Overline => 8,
            TokenModifier::DoubleQuote => 16,
            TokenModifier::Strikethrough => 32,
            TokenModifier::Subscript => 64,
            TokenModifier::Superscript => 128,
            TokenModifier::Underline => 256,
        }
    }
}

/// The modifier a wrapping inline kind sets over its content.
pub open spec fn spec_modifier_of(kind: FormatKind) -> TokenModifier {
    match kind {
        FormatKind::Bold => TokenModifier::Bold,
        FormatKind::Italic => TokenModifier::Italic,
        FormatKind::Underline => TokenModifier::Underline,
        FormatKind::Subscript => TokenModifier::Subscript,
        FormatKind::Superscript => TokenModifier::Superscript,
        FormatKind::Overline => TokenModifier::Overline,
        FormatKind::Strikethrough => TokenModifier::Strikethrough,
        FormatKind::Highlight => TokenModifier::Highlight,
        FormatKind::DoubleQuote => TokenModifier::DoubleQuote,
    }
}

/// Executable table for [`spec_modifier_of`].
pub fn modifier_of(kind: FormatKind) -> (r: TokenModifier)
    ensures
        r == spec_modifier_of(kind),
{
    match kind {
        FormatKind::Bold => TokenModifier::Bold,
        FormatKind::Italic => TokenModifier::Italic,
        FormatKind::Underline => TokenModifier::Underline,
        FormatKind::Subscript => TokenModifier::Subscript,
        FormatKind::Superscript => TokenModifier::Superscript,
        FormatKind::Overline => TokenModifier::Overline,
        FormatKind::Strikethrough => TokenModifier::Strikethrough,
        FormatKind::Highlight => TokenModifier::Highlight,
        FormatKind::DoubleQuote => TokenModifier::DoubleQuote,
    }
}

/// The ambient token type inside a verbatim or math scope.
pub open spec fn spec_scoped_token_type(kind: ScopedKind) -> TokenType {
    match kind {
        ScopedKind::Verbatim => TokenType::Verbatim,
        ScopedKind::Math => TokenType::Math,
    }
}

/// Executable table for [`spec_scoped_token_type`].
pub fn scoped_token_type(kind: ScopedKind) -> (r: TokenType)
    ensures
        r == spec_scoped_token_type(kind),
{
    match kind {
        ScopedKind::Verbatim => TokenType::Verbatim,
        ScopedKind::Math => TokenType::Math,
    }
}

/// Bitwise-or of the values of all modifiers on the stack.
pub open spec fn spec_bitfield(s: Seq<TokenModifier>) -> u32
    decreases s.len(),
{
    if s.len() == 0 {
        0
    } else {
        spec_bitfield(s.drop_last()) | s.last().spec_value()
    }
}

/// Folds the open-modifier stack into the protocol bitset.
pub fn get_modifier_bitfield(modifiers: &Vec<TokenModifier>) -> (r: u32)
    ensures
        r == spec_bitfield(modifiers@),
{
    let mut field: u32 = 0;
    let mut i: usize = 0;
    while i < modifiers.len()
        invariant
            i <= modifiers@.len(),
            field == spec_bitfield(modifiers@.take(i as int)),
        decreases modifiers@.len() - i,
    {
        field = field | modifiers[i].value();
        proof {
            assert(modifiers@.take(i + 1 as int).drop_last() =~= modifiers@.take(i as int));
        }
        i += 1;
    }
    proof {
        assert(modifiers@.take(modifiers@.len() as int) =~= modifiers@);
    }
    field
}

/// The tokens of one inline element, given the ambient token type and the
/// stack of open modifiers.
pub open spec fn inline_tokens(i: Inline, t: TokenType, mods: Seq<TokenModifier>) -> Seq<
    AbsoluteToken,
>
    decreases i,
{
    match i {
        Inline::Format(f) => {
            let mods2 = mods.push(spec_modifier_of(f.kind));
            let open_tok = AbsoluteToken {
                line: f.span.start.line,
                start: f.span.start.col_utf16,
                length: spec_keyword_len(f.kind),
                token_type: t.spec_value(),
                token_modifiers_bitset: spec_bitfield(mods2),
            };
            let close_toks = if f.implicit_end {
                Seq::<AbsoluteToken>::empty()
            } else {
                seq![
                    AbsoluteToken {
                        line: f.span.end.line,
                        start: (f.span.end.col_utf16 - spec_keyword_len(f.kind)) as u32,
                        length: spec_keyword_len(f.kind),
                        token_type: t.spec_value(),
                        token_modifiers_bitset: spec_bitfield(mods2),
                    },
                ]
            };
            seq![open_tok] + inline_seq_tokens(f.inner@, t, mods2) + close_toks
        },
        Inline::Scoped(s) => {
            let t2 = spec_scoped_token_type(s.kind);
            let open_tok = AbsoluteToken {
                line: s.span.start.line,
                start: s.span.start.col_utf16,
                length: spec_scoped_keyword_len(s.kind),
                token_type: t2.spec_value(),
                token_modifiers_bitset: spec_bitfield(mods),
            };
            let close_toks = if s.implicit_end {
                Seq::<AbsoluteToken>::empty()
            } else {
                seq![
                    AbsoluteToken {
                        line: s.span.end.line,
                        start: (s.span.end.col_utf16 - spec_scoped_keyword_len(s.kind)) as u32,
                        length: spec_scoped_keyword_len(s.kind),
                        token_type: t2.spec_value(),
                        token_modifiers_bitset: spec_bitfield(mods),
                    },
                ]
            };
            seq![open_tok] + inline_seq_tokens(s.inner@, t2, mods) + close_toks
        },
        Inline::Group(g) => inline_seq_tokens(g.inner@, t, mods),
        Inline::Plain(p) => {
            if mods.len() == 0 && t == TokenType::Paragraph {
                Seq::<AbsoluteToken>::empty()
            } else {
                seq![
                    AbsoluteToken {
                        line: p.span.start.line,
                        start: p.span.start.col_utf16,
                        length: (p.span.end.col_utf16 - p.span.start.col_utf16) as u32,
                        token_type: t.spec_value(),
                        token_modifiers_bitset: spec_bitfield(mods),
                    },
                ]
            }
        },
        Inline::EscapedNewline(pos) => {
            if mods.len() == 0 && t == TokenType::Paragraph {
                Seq::<AbsoluteToken>::empty()
            } else {
                seq![
                    AbsoluteToken {
                        line: pos.line,
                        start: pos.col_utf16,
                        length: 1,
                        token_type: t.spec_value(),
                        token_modifiers_bitset: spec_bitfield(mods),
                    },
                ]
            }
        },
        Inline::Newline => Seq::<AbsoluteToken>::empty(),
        Inline::ImplicitNewline => Seq::<AbsoluteToken>::empty(),
    }
}

/// The tokens of a sequence of sibling inlines, in order.
pub open spec fn inline_seq_tokens(s: Seq<Inline>, t: TokenType, mods: Seq<TokenModifier>) -> Seq<
    AbsoluteToken,
>
    decreases s,
{
    if s.len() == 0 {
        Seq::<AbsoluteToken>::empty()
    } else {
        inline_tokens(s[0], t, mods) + inline_seq_tokens(s.drop_first(), t, mods)
    }
}

/// Appending one more sibling appends exactly its tokens.
pub proof fn lemma_inline_seq_tokens_push(
    s: Seq<Inline>,
    x: Inline,
    t: TokenType,
    mods: Seq<TokenModifier>,
)
    ensures
        inline_seq_tokens(s.push(x), t, mods) == inline_seq_tokens(s, t, mods) + inline_tokens(
            x,
            t,
            mods,
        ),
    decreases s.len(),
{
    if s.len() == 0 {
        assert(s.push(x).drop_first() =~= Seq::<Inline>::empty());
        assert(s.push(x)[0] == x);
        assert(inline_seq_tokens(s.push(x).drop_first(), t, mods) == Seq::<
            AbsoluteToken,
        >::empty());
        assert(inline_seq_tokens(s, t, mods) == Seq::<AbsoluteToken>::empty());
        assert(inline_seq_tokens(s.push(x), t, mods) =~= inline_seq_tokens(s, t, mods)
            + inline_tokens(x, t, mods));
    } else {
        lemma_inline_seq_tokens_push(s.drop_first(), x, t, mods);
        assert(s.push(x).drop_first() =~= s.drop_first().push(x));
        assert(s.push(x)[0] == s[0]);
        assert(inline_seq_tokens(s.push(x).drop_first(), t, mods) == inline_seq_tokens(
            s.drop_first(),
            t,
            mods,
        ) + inline_tokens(x, t, mods));
        assert(inline_seq_tokens(s.push(x), t, mods) =~= inline_seq_tokens(s, t, mods)
            + inline_tokens(x, t, mods));
    }
}

/// A well-formed inline yields only tokens at valid 1-based positions.
pub proof fn lemma_inline_tokens_wf(i: Inline, t: TokenType, mods: Seq<TokenModifier>)
    requires
        i.wf(),
    ensures
        all_tokens_wf(inline_tokens(i, t, mods)),
    decreases i,
{
    let r = inline_tokens(i, t, mods);
    match i {
        Inline::Format(f) => {
            let mods2 = mods.push(spec_modifier_of(f.kind));
            let mid = inline_seq_tokens(f.inner@, t, mods2);
            lemma_inline_seq_tokens_wf(f.inner@, t, mods2);
            assert forall|k: int| 0 <= k < r.len() implies token_wf(#[trigger] r[k]) by {
                if k == 0 {
                } else if k < 1 + mid.len() {
                    assert(r[k] == mid[k - 1]);
                } else {
                    assert(!f.implicit_end);
                }
            }
        },
        Inline::Scoped(s) => {
            let t2 = spec_scoped_token_type(s.kind);
            let mid = inline_seq_tokens(s.inner@, t2, mods);
            lemma_inline_seq_tokens_wf(s.inner@, t2, mods);
            assert forall|k: int| 0 <= k < r.len() implies token_wf(#[trigger] r[k]) by {
                if k == 0 {
                } else if k < 1 + mid.len() {
                    assert(r[k] == mid[k - 1]);
                } else {
                    assert(!s.implicit_end);
                }
            }
        },
        Inline::Group(g) => {
            lemma_inline_seq_tokens_wf(g.inner@, t, mods);
        },
        Inline::Plain(_) => {},
        Inline::EscapedNewline(_) => {},
        Inline::Newline => {},
        Inline::ImplicitNewline => {},
    }
}

/// A well-formed run of siblings yields only tokens at valid positions.
pub proof fn lemma_inline_seq_tokens_wf(s: Seq<Inline>, t: TokenType, mods: Seq<TokenModifier>)
    requires
        forall|k: int| #![trigger s[k]] 0 <= k < s.len() ==> s[k].wf(),
    ensures
        all_tokens_wf(inline_seq_tokens(s, t, mods)),
    decreases s,
{
    if s.len() > 0 {
        lemma_inline_tokens_wf(s[0], t, mods);
        assert(forall|k: int| #![trigger s.drop_first()[k]] 0 <= k < s.drop_first().len()
            ==> s.drop_first()[k].wf()) by {
            assert(forall|k: int| 0 <= k < s.drop_first().len() ==> #[trigger] s.drop_first()[k]
                == s[k + 1]);
        }
        lemma_inline_seq_tokens_wf(s.drop_first(), t, mods);
        crate::semantic_tokens::lemma_all_tokens_wf_concat(
            inline_tokens(s[0], t, mods),
            inline_seq_tokens(s.drop_first(), t, mods),
        );
    }
}

impl Inline {
    /// Emits this inline's tokens under the given ambient token type and
    /// open-modifier stack.  Bracket discipline: every modifier pushed while
    /// descending is popped again, so the stack returns exactly as given and
    /// nothing leaks to siblings.
    pub fn tokens(&self, token_type: TokenType, modifiers: &mut Vec<TokenModifier>) -> (r: Vec<
        AbsoluteToken,
    >)
        requires
            self.wf(),
        ensures
            r@ == inline_tokens(*self, token_type, old(modifiers)@),
            final(modifiers)@ == old(modifiers)@,
            all_tokens_wf(r@),
        decreases *self,
    {
        match self {
            Inline::Format(f) => {
                let kw = keyword_len(f.kind);
                modifiers.push(modifier_of(f.kind));
                let bits = get_modifier_bitfield(modifiers);
                let ghost mods2 = modifiers@;
                let mut r: Vec<AbsoluteToken> = Vec::new();
                r.push(
                    AbsoluteToken {
                        line: f.span.start.line,
                        start: f.span.start.col_utf16,
                        length: kw,
                        token_type: token_type.value(),
                        token_modifiers_bitset: bits,
                    },
                );
                let ghost open_seq = r@;
                let mut j: usize = 0;
                while j < f.inner.len()
                    invariant
                        j <= f.inner@.len(),
                        *self == Inline::Format(*f),
                        f.wf(),
                        kw == spec_keyword_len(f.kind),
                        modifiers@ == mods2,
                        r@ == open_seq + inline_seq_tokens(f.inner@.take(j as int), token_type, mods2),
                        all_tokens_wf(r@),
                        open_seq.len() == 1,
                        token_wf(open_seq[0]),
                    decreases f.inner@.len() - j,
                {
                    proof {
                        assert(f.inner@[j as int].wf());
                        assert(self->Format_0 == *f);
                        assert(decreases_to!(*self => self->Format_0));
                    }
                    let mut sub = f.inner[j].tokens(token_type, modifiers);
                    r.append(&mut sub);
                    proof {
                        assert(f.inner@.take(j + 1 as int) =~= f.inner@.take(j as int).push(
                            f.inner@[j as int],
                        ));
                        lemma_inline_seq_tokens_push(
                            f.inner@.take(j as int),
                            f.inner@[j as int],
                            token_type,
                            mods2,
                        );
                    }
                    j += 1;
                }
                proof {
                    assert(f.inner@.take(f.inner@.len() as int) =~= f.inner@);
                }
                if !f.implicit_end {
                    r.push(
                        AbsoluteToken {
                            line: f.span.end.line,
                            start: f.span.end.col_utf16 - kw,
                            length: kw,
                            token_type: token_type.value(),
                            token_modifiers_bitset: bits,
                        },
                    );
                }
                modifiers.pop();
                proof {
                    assert(modifiers@ =~= old(modifiers)@);
                    assert(r@ =~= inline_tokens(*self, token_type, old(modifiers)@));
                }
                r
            },
            Inline::Scoped(s) => {
                let kw = scoped_keyword_len(s.kind);
                let inner_type = scoped_token_type(s.kind);
                let bits = get_modifier_bitfield(modifiers);
                let mut r: Vec<AbsoluteToken> = Vec::new();
                r.push(
                    AbsoluteToken {
                        line: s.span.start.line,
                        start: s.span.start.col_utf16,
                        length: kw,
                        token_type: inner_type.value(),
                        token_modifiers_bitset: bits,
                    },
                );
                let ghost open_seq = r@;
                let ghost mods0 = modifiers@;
                let mut j: usize = 0;
                while j < s.inner.len()
                    invariant
                        j <= s.inner@.len(),
                        *self == Inline::Scoped(*s),
                        s.wf(),
                        kw == spec_scoped_keyword_len(s.kind),
                        inner_type == spec_scoped_token_type(s.kind),
                        modifiers@ == mods0,
                        r@ == open_seq + inline_seq_tokens(s.inner@.take(j as int), inner_type, mods0),
                        all_tokens_wf(r@),
                        open_seq.len() == 1,
                        token_wf(open_seq[0]),
                    decreases s.inner@.len() - j,
                {
                    proof {
                        assert(s.inner@[j as int].wf());
                        assert(self->Scoped_0 == *s);
                        assert(decreases_to!(*self => self->Scoped_0));
                    }
                    let mut sub = s.inner[j].tokens(inner_type, modifiers);
                    r.append(&mut sub);
                    proof {
                        assert(s.inner@.take(j + 1 as int) =~= s.inner@.take(j as int).push(
                            s.inner@[j as int],
                        ));
                        lemma_inline_seq_tokens_push(
                            s.inner@.take(j as int),
                            s.inner@[j as int],
                            inner_type,
                            mods0,
                        );
                    }
                    j += 1;
                }
                proof {
                    assert(s.inner@.take(s.inner@.len() as int) =~= s.inner@);
                }
                if !s.implicit_end {
                    r.push(
                        AbsoluteToken {
                            line: s.span.end.line,
                            start: s.span.end.col_utf16 - kw,
                            length: kw,
                            token_type: inner_type.value(),
                            token_modifiers_bitset: bits,
                        },
                    );
                }
                proof {
                    assert(r@ =~= inline_tokens(*self, token_type, old(modifiers)@));
                }
                r
            },
            Inline::Group(g) => {
                let ghost mods0 = modifiers@;
                let mut r: Vec<AbsoluteToken> = Vec::new();
                let mut j: usize = 0;
                while j < g.inner.len()
                    invariant
                        j <= g.inner@.len(),
                        self.wf(),
                        *self == Inline::Group(*g),
                        modifiers@ == mods0,
                        r@ == inline_seq_tokens(g.inner@.take(j as int), token_type, mods0),
                        all_tokens_wf(r@),
                    decreases g.inner@.len() - j,
                {
                    proof {
                        assert(g.inner@[j as int].wf());
                    }
                    let mut sub = g.inner[j].tokens(token_type, modifiers);
                    r.append(&mut sub);
                    proof {
                        assert(g.inner@.take(j + 1 as int) =~= g.inner@.take(j as int).push(
                            g.inner@[j as int],
                        ));
                        lemma_inline_seq_tokens_push(
                            g.inner@.take(j as int),
                            g.inner@[j as int],
                            token_type,
                            mods0,
                        );
                    }
                    j += 1;
                }
                proof {
                    assert(g.inner@.take(g.inner@.len() as int) =~= g.inner@);
                }
                r
            },
            Inline::Plain(p) => {
                let mut r: Vec<AbsoluteToken> = Vec::new();
                if !(modifiers.len() == 0 && token_type == TokenType::Paragraph) {
                    let bits = get_modifier_bitfield(modifiers);
                    r.push(
                        AbsoluteToken {
                            line: p.span.start.line,
                            start: p.span.start.col_utf16,
                            length: p.span.end.col_utf16 - p.span.start.col_utf16,
                            token_type: token_type.value(),
                            token_modifiers_bitset: bits,
                        },
                    );
                }
                proof {
                    assert(r@ =~= inline_tokens(*self, token_type, old(modifiers)@));
                }
                r
            },
            Inline::EscapedNewline(pos) => {
                let mut r: Vec<AbsoluteToken> = Vec::new();
                if !(modifiers.len() == 0 && token_type == TokenType::Paragraph) {
                    let bits = get_modifier_bitfield(modifiers);
                    r.push(
                        AbsoluteToken {
                            line: pos.line,
                            start: pos.col_utf16,
                            length: 1,
                            token_type: token_type.value(),
                            token_modifiers_bitset: bits,
                        },
                    );
                }
                proof {
                    assert(r@ =~= inline_tokens(*self, token_type, old(modifiers)@));
                }
                r
            },
            Inline::Newline => Vec::new(),
            Inline::ImplicitNewline => Vec::new(),
        }
    }
}

} // verus!
