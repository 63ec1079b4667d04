//! The document model that the tokenizer walks.
//!
//! A compiled document is an ordered sequence of blocks; inline content is a
//! tree of formatting scopes over plain runs.  Positions are 1-based lines and
//! 1-based UTF-16 columns, with a span's end lying one past the last column of
//! the element.  Well-formedness of spans is a caller obligation, stated here
//! as spec functions and required by the tokenizer.

use vstd::prelude::*;

verus! {

/// A 1-based source position; columns count UTF-16 code units.
#[derive(Debug, Clone, Copy, PartialEq, Eq, Structural)]
pub struct Position {
    pub line: u32,
    pub col_utf16: u32,
}

/// Extent of an element: start position and the position one past its end.
#[derive(Debug, Clone, Copy, PartialEq, Eq, Structural)]
pub struct Span {
    pub start: Position,
    pub end: Position,
}

impl Position {
    /// Lines and columns start at 1.
    pub open spec fn wf(self) -> bool {
        self.line >= 1 && self.col_utf16 >= 1
    }
}

impl Span {
    /// Both endpoints valid and the end not before the start.
    pub open spec fn wf(self) -> bool {
        &&& self.start.wf()
        &&& self.end.wf()
        &&& (self.start.line < self.end.line || (self.start.line == self.end.line
            && self.start.col_utf16 <= self.end.col_utf16))
    }

    /// A span confined to one line.
    pub open spec fn single_line(self) -> bool {
        self.start.line == self.end.line
    }
}

/// Wrapping inline kinds that set a formatting modifier bit.
#[derive(Debug, Clone, Copy, PartialEq, Eq, Structural)]
pub enum FormatKind {
    Bold,
    Italic,
    Underline,
    Subscript,
    Superscript,
    Overline,
    Strikethrough,
    Highlight,
    DoubleQuote,
}

/// Wrapping inline kinds that switch the ambient token type instead of
/// setting a modifier bit.
#[derive(Debug, Clone, Copy, PartialEq, Eq, Structural)]
pub enum ScopedKind {
    Verbatim,
    Math,
}

/// Plain runs; the escaped variants render exactly like plain text.
#[derive(Debug, Clone, Copy, PartialEq, Eq, Structural)]
pub enum PlainKind {
    Plain,
    EscapedPlain,
    EscapedWhitespace,
}

/// A wrapping inline that owns nested content.  `implicit_end` is true when
/// the closure was inferred (say, at end of line), so no closing delimiter
/// exists in the source.
#[derive(Debug, PartialEq, Eq)]
pub struct FormatInline {
    pub kind: FormatKind,
    pub span: Span,
    pub inner: Vec<Inline>,
    pub implicit_end: bool,
}

/// A verbatim or math inline: same shape as a format, different token type.
#[derive(Debug, PartialEq, Eq)]
pub struct ScopedInline {
    pub kind: ScopedKind,
    pub span: Span,
    pub inner: Vec<Inline>,
    pub implicit_end: bool,
}

/// A transparent container (text group or hyperlink): its children are
/// tokenized as if they stood in its place.
#[derive(Debug, PartialEq, Eq)]
pub struct GroupInline {
    pub inner: Vec<Inline>,
}

/// A run of text without nested structure, confined to one line.
#[derive(Debug, Clone, Copy, PartialEq, Eq, Structural)]
pub struct PlainInline {
    pub kind: PlainKind,
    pub span: Span,
}

/// Character-level content of a block.
#[derive(Debug, PartialEq, Eq)]
pub enum Inline {
    /// Bold, italic, ..., double-quote: pushes a modifier bit over its inner content.
    Format(FormatInline),
    /// Verbatim or math: switches the ambient token type over its inner content.
    Scoped(ScopedInline),
    /// Text group or hyperlink: no tokens of its own.
    Group(GroupInline),
    /// A plain or escaped run.
    Plain(PlainInline),
    /// An escaped line break; its token covers the backslash only.
    EscapedNewline(Position),
    /// An explicit line break; never tokenized.
    Newline,
    /// A line break the parser inserted; never tokenized.
    ImplicitNewline,
}

/// Number of columns a wrapping kind's delimiter occupies.
pub open spec fn spec_keyword_len(kind: FormatKind) -> u32 {
    match kind {
        FormatKind::Bold => 2,
        FormatKind::Italic => 1,
        FormatKind::Underline => 2,
        FormatKind::Subscript => 1,
        FormatKind::Superscript => 1,
        FormatKind::Overline => 1,
        FormatKind::Strikethrough => 2,
        FormatKind::Highlight => 2,
        // A double-quote pair counts both quote marks.
        FormatKind::DoubleQuote => 2,
    }
}

/// Number of columns a verbatim or math delimiter occupies.
pub open spec fn spec_scoped_keyword_len(kind: ScopedKind) -> u32 {
    match kind {
        ScopedKind::Verbatim => 1,
        ScopedKind::Math => 1,
    }
}

/// Executable table for [`spec_keyword_len`].
pub fn keyword_len(kind: FormatKind) -> (r: u32)
    ensures
        r == spec_keyword_len(kind),
{
    match kind {
        FormatKind::Bold => 2,
        FormatKind::Italic => 1,
        FormatKind::Underline => 2,
        FormatKind::Subscript => 1,
        FormatKind::Superscript => 1,
        FormatKind::Overline => 1,
        FormatKind::Strikethrough => 2,
        FormatKind::Highlight => 2,
        FormatKind::DoubleQuote => 2,
    }
}

/// Executable table for [`spec_scoped_keyword_len`].
pub fn scoped_keyword_len(kind: ScopedKind) -> (r: u32)
    ensures
        r == spec_scoped_keyword_len(kind),
{
    match kind {
        ScopedKind::Verbatim => 1,
        ScopedKind::Math => 1,
    }
}

impl FormatInline {
    /// The span is valid, a closing delimiter fits before the span's end, and
    /// the nested content is well-formed.
    pub open spec fn wf(self) -> bool
        decreases self,
    {
        &&& self.span.wf()
        &&& (!self.implicit_end ==> self.span.end.col_utf16 >= spec_keyword_len(self.kind) + 1)
        &&& forall|i: int| #![trigger self.inner@[i]] 0 <= i < self.inner@.len() ==> self.inner@[i].wf()
    }
}

impl ScopedInline {
    /// The span is valid, a closing delimiter fits before the span's end, and
    /// the nested content is well-formed.
    pub open spec fn wf(self) -> bool
        decreases self,
    {
        &&& self.span.wf()
        &&& (!self.implicit_end ==> self.span.end.col_utf16 >= spec_scoped_keyword_len(self.kind)
            + 1)
        &&& forall|i: int| #![trigger self.inner@[i]] 0 <= i < self.inner@.len() ==> self.inner@[i].wf()
    }
}

impl GroupInline {
    /// The nested content is well-formed.
    pub open spec fn wf(self) -> bool
        decreases self,
    {
        forall|i: int| #![trigger self.inner@[i]] 0 <= i < self.inner@.len() ==> self.inner@[i].wf()
    }
}

impl Inline {
    /// Spans are valid, a closing delimiter fits before its span's end, and
    /// plain runs stay on one line.
    pub open spec fn wf(self) -> bool
        decreases self,
    {
        match self {
            Inline::Format(f) => f.wf(),
            Inline::Scoped(s) => s.wf(),
            Inline::Group(g) => g.wf(),
            Inline::Plain(p) => p.span.wf() && p.span.single_line(),
            Inline::EscapedNewline(pos) => pos.wf(),
            Inline::Newline => true,
            Inline::ImplicitNewline => true,
        }
    }
}

impl Span {
    /// Executable check for [`Self::wf`].
    pub fn check_wf(&self) -> (r: bool)
        ensures
            r == self.wf(),
    {
        self.start.line >= 1 && self.start.col_utf16 >= 1 && self.end.line >= 1
            && self.end.col_utf16 >= 1 && (self.start.line < self.end.line || (self.start.line
            == self.end.line && self.start.col_utf16 <= self.end.col_utf16))
    }
}

impl Inline {
    /// Executable check for [`Self::wf`].
    pub fn check_wf(&self) -> (r: bool)
        ensures
            r == self.wf(),
        decreases *self,
    {
        match self {
            Inline::Format(f) => {
                if !f.span.check_wf() {
                    return false;
                }
                if !f.implicit_end {
                    let kw = keyword_len(f.kind);
                    if f.span.end.col_utf16 < kw + 1 {
                        return false;
                    }
                }
                let mut j: usize = 0;
                while j < f.inner.len()
                    invariant
                        j <= f.inner@.len(),
                        *self == Inline::Format(*f),
                        f.span.wf(),
                        !f.implicit_end ==> f.span.end.col_utf16 >= spec_keyword_len(f.kind) + 1,
                        forall|k: int| 0 <= k < j ==> #[trigger] f.inner@[k].wf(),
                    decreases f.inner@.len() - j,
                {
                    proof {
                        assert(self->Format_0 == *f);
                        assert(decreases_to!(*self => self->Format_0));
                    }
                    if !f.inner[j].check_wf() {
                        return false;
                    }
                    j += 1;
                }
                proof {
                    assert forall|i: int| #![trigger f.inner@[i]] 0 <= i < f.inner@.len()
                        implies f.inner@[i].wf() by {
                        assert(f.inner@[i].wf());
                    }
                    assert(f.wf());
                }
                true
            },
            Inline::Scoped(s) => {
                if !s.span.check_wf() {
                    return false;
                }
                if !s.implicit_end {
                    let kw = scoped_keyword_len(s.kind);
                    if s.span.end.col_utf16 < kw + 1 {
                        return false;
                    }
                }
                let mut j: usize = 0;
                while j < s.inner.len()
                    invariant
                        j <= s.inner@.len(),
                        *self == Inline::Scoped(*s),
                        s.span.wf(),
                        !s.implicit_end ==> s.span.end.col_utf16 >= spec_scoped_keyword_len(s.kind)
                            + 1,
                        forall|k: int| 0 <= k < j ==> #[trigger] s.inner@[k].wf(),
                    decreases s.inner@.len() - j,
                {
                    proof {
                        assert(self->Scoped_0 == *s);
                        assert(decreases_to!(*self => self->Scoped_0));
                    }
                    if !s.inner[j].check_wf() {
                        return false;
                    }
                    j += 1;
                }
                proof {
                    assert forall|i: int| #![trigger s.inner@[i]] 0 <= i < s.inner@.len()
                        implies s.inner@[i].wf() by {
                        assert(s.inner@[i].wf());
                    }
                    assert(s.wf());
                }
                true
            },
            Inline::Group(g) => {
                let mut j: usize = 0;
                while j < g.inner.len()
                    invariant
                        j <= g.inner@.len(),
                        *self == Inline::Group(*g),
                        forall|k: int| 0 <= k < j ==> #[trigger] g.inner@[k].wf(),
                    decreases g.inner@.len() - j,
                {
                    proof {
                        assert(self->Group_0 == *g);
                        assert(decreases_to!(*self => self->Group_0));
                    }
                    if !g.inner[j].check_wf() {
                        return false;
                    }
                    j += 1;
                }
                proof {
                    assert forall|i: int| #![trigger g.inner@[i]] 0 <= i < g.inner@.len()
                        implies g.inner@[i].wf() by {
                        assert(g.inner@[i].wf());
                    }
                    assert(g.wf());
                }
                true
            },
            Inline::Plain(p) => p.span.check_wf() && p.span.start.line == p.span.end.line,
            Inline::EscapedNewline(pos) => pos.line >= 1 && pos.col_utf16 >= 1,
            Inline::Newline => true,
            Inline::ImplicitNewline => true,
        }
    }
}

/// A heading block: its marker prefixes every physical line the heading spans.
#[derive(Debug, PartialEq, Eq)]
pub struct Heading {
    /// Heading depth, 1 to 6.
    pub level: u8,
    pub span: Span,
    pub content: Vec<Inline>,
}

/// A paragraph block: inline content only.
#[derive(Debug, PartialEq, Eq)]
pub struct Paragraph {
    pub content: Vec<Inline>,
}

/// A fenced verbatim block.  Only the fences are highlighted; the closing
/// fence exists only when `implicit_closed` is false.
#[derive(Debug, PartialEq, Eq)]
pub struct VerbatimBlock {
    pub span: Span,
    /// Length of the opening fence.
    pub tick_len: u32,
    /// True when the block ran to the end of input without a closing fence.
    pub implicit_closed: bool,
}

/// A bullet list: a sequence of entries.
#[derive(Debug, PartialEq, Eq)]
pub struct BulletList {
    pub entries: Vec<BulletListEntry>,
}

/// One bullet-list entry: a one-column marker and nested blocks.
#[derive(Debug, PartialEq, Eq)]
pub struct BulletListEntry {
    pub span: Span,
    pub body: Vec<Block>,
}

/// Structural unit of a document.
#[derive(Debug, PartialEq, Eq)]
pub enum Block {
    Heading(Heading),
    Paragraph(Paragraph),
    VerbatimBlock(VerbatimBlock),
    BulletList(BulletList),
    Blankline,
}

/// A compiled document: ordered blocks, immutable once published.
#[derive(Debug, PartialEq, Eq)]
pub struct Document {
    pub blocks: Vec<Block>,
}

impl Heading {
    pub open spec fn wf(self) -> bool {
        &&& 1 <= self.level <= 6
        &&& self.span.wf()
        &&& forall|i: int| #![trigger self.content@[i]] 0 <= i < self.content@.len() ==> self.content@[i].wf()
    }
}

impl Paragraph {
    pub open spec fn wf(self) -> bool {
        forall|i: int| #![trigger self.content@[i]] 0 <= i < self.content@.len() ==> self.content@[i].wf()
    }
}

impl VerbatimBlock {
    pub open spec fn wf(self) -> bool {
        self.span.wf()
    }
}

impl BulletListEntry {
    pub open spec fn wf(self) -> bool
        decreases self,
    {
        &&& self.span.wf()
        &&& forall|i: int| #![trigger self.body@[i]] 0 <= i < self.body@.len() ==> self.body@[i].wf()
    }
}

impl BulletList {
    pub open spec fn wf(self) -> bool
        decreases self,
    {
        forall|i: int| #![trigger self.entries@[i]] 0 <= i < self.entries@.len() ==> self.entries@[i].wf()
    }
}

impl Block {
    pub open spec fn wf(self) -> bool
        decreases self,
    {
        match self {
            Block::Heading(h) => h.wf(),
            Block::Paragraph(p) => p.wf(),
            Block::VerbatimBlock(v) => v.wf(),
            Block::BulletList(l) => l.wf(),
            Block::Blankline => true,
        }
    }
}

impl Document {
    pub open spec fn wf(self) -> bool {
        forall|i: int| #![trigger self.blocks@[i]] 0 <= i < self.blocks@.len() ==> self.blocks@[i].wf()
    }
}

fn check_inlines_wf(content: &Vec<Inline>) -> (r: bool)
    ensures
        r == (forall|k: int| #![trigger content@[k]] 0 <= k < content@.len() ==> content@[k].wf()),
{
    let mut j: usize = 0;
    while j < content.len()
        invariant
            j <= content@.len(),
            forall|k: int| 0 <= k < j ==> #[trigger] content@[k].wf(),
        decreases content@.len() - j,
    {
        if !content[j].check_wf() {
            return false;
        }
        j += 1;
    }
    true
}

impl Heading {
    /// Executable check for [`Self::wf`].
    pub fn check_wf(&self) -> (r: bool)
        ensures
            r == self.wf(),
    {
        1 <= self.level && self.level <= 6 && self.span.check_wf() && check_inlines_wf(
            &self.content,
        )
    }
}

impl Paragraph {
    /// Executable check for [`Self::wf`].
    pub fn check_wf(&self) -> (r: bool)
        ensures
            r == self.wf(),
    {
        check_inlines_wf(&self.content)
    }
}

impl BulletListEntry {
    /// Executable check for [`Self::wf`].
    pub fn check_wf(&self) -> (r: bool)
        ensures
            r == self.wf(),
        decreases *self,
    {
        if !self.span.check_wf() {
            return false;
        }
        let mut j: usize = 0;
        while j < self.body.len()
            invariant
                j <= self.body@.len(),
                self.span.wf(),
                forall|k: int| 0 <= k < j ==> #[trigger] self.body@[k].wf(),
            decreases self.body@.len() - j,
        {
            if !self.body[j].check_wf() {
                return false;
            }
            j += 1;
        }
        proof {
            assert forall|i: int| #![trigger self.body@[i]] 0 <= i < self.body@.len()
                implies self.body@[i].wf() by {
                assert(self.body@[i].wf());
            }
        }
        true
    }
}

impl BulletList {
    /// Executable check for [`Self::wf`].
    pub fn check_wf(&self) -> (r: bool)
        ensures
            r == self.wf(),
        decreases *self,
    {
        let mut j: usize = 0;
        while j < self.entries.len()
            invariant
                j <= self.entries@.len(),
                forall|k: int| 0 <= k < j ==> #[trigger] self.entries@[k].wf(),
            decreases self.entries@.len() - j,
        {
            if !self.entries[j].check_wf() {
                return false;
            }
            j += 1;
        }
        proof {
            assert forall|i: int| #![trigger self.entries@[i]] 0 <= i < self.entries@.len()
                implies self.entries@[i].wf() by {
                assert(self.entries@[i].wf());
            }
        }
        true
    }
}

impl Block {
    /// Executable check for [`Self::wf`].
    pub fn check_wf(&self) -> (r: bool)
        ensures
            r == self.wf(),
        decreases *self,
    {
        match self {
            Block::Heading(h) => h.check_wf(),
            Block::Paragraph(p) => p.check_wf(),
            Block::VerbatimBlock(v) => v.span.check_wf(),
            Block::BulletList(l) => l.check_wf(),
            Block::Blankline => true,
        }
    }
}

impl Document {
    /// Executable check for [`Self::wf`]: whether every block of the document
    /// is well-formed, so the tokenizer may walk it.
    pub fn check_wf(&self) -> (r: bool)
        ensures
            r == self.wf(),
    {
        let mut j: usize = 0;
        while j < self.blocks.len()
            invariant
                j <= self.blocks@.len(),
                forall|k: int| 0 <= k < j ==> #[trigger] self.blocks@[k].wf(),
            decreases self.blocks@.len() - j,
        {
            if !self.blocks[j].check_wf() {
                return false;
            }
            j += 1;
        }
        true
    }
}

} // verus!
