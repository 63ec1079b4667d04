use unimarkup_lsp::document::Block;
use unimarkup_lsp::document::Document;
use unimarkup_lsp::document::FormatInline;
use unimarkup_lsp::document::FormatKind;
use unimarkup_lsp::document::Inline;
use unimarkup_lsp::document::Paragraph;
use unimarkup_lsp::document::PlainInline;
use unimarkup_lsp::document::PlainKind;
use unimarkup_lsp::document::Position;
use unimarkup_lsp::document::Span;
use unimarkup_lsp::semantic_tokens::SemanticToken;
use unimarkup_lsp::semantic_tokens::get_semantic_tokens;

fn sp(sl: u32, sc: u32, el: u32, ec: u32) -> Span {
    Span {
        start: Position { line: sl, col_utf16: sc },
        end: Position { line: el, col_utf16: ec },
    }
}

fn plain(sl: u32, sc: u32, el: u32, ec: u32) -> Inline {
    Inline::Plain(PlainInline { kind: PlainKind::Plain, span: sp(sl, sc, el, ec) })
}

fn tok(delta_line: u32, delta_start: u32, length: u32, token_type: u32, bits: u32) -> SemanticToken {
    SemanticToken {
        delta_line,
        delta_start,
        length,
        token_type,
        token_modifiers_bitset: bits,
    }
}

#[test]
fn bold_token_modifier() {
    // "**bold text**"
    let doc = Document {
        blocks: vec![Block::Paragraph(Paragraph {
            content: vec![Inline::Format(FormatInline {
                kind: FormatKind::Bold,
                span: sp(1, 1, 1, 14),
                inner: vec![plain(1, 3, 1, 12)],
                implicit_end: false,
            })],
        })],
    };
    let tokens = get_semantic_tokens(&doc);
    assert_eq!(
        tokens,
        vec![tok(0, 0, 2, 2, 1), tok(0, 2, 9, 2, 1), tok(0, 9, 2, 2, 1)]
    );
}

#[test]
fn bold_token_modifier_before_plain() {
    // "**bold text**plain text" — the unscoped trailing run emits nothing.
    let doc = Document {
        blocks: vec![Block::Paragraph(Paragraph {
            content: vec![
                Inline::Format(FormatInline {
                    kind: FormatKind::Bold,
                    span: sp(1, 1, 1, 14),
                    inner: vec![plain(1, 3, 1, 12)],
                    implicit_end: false,
                }),
                plain(1, 14, 1, 24),
            ],
        })],
    };
    let tokens = get_semantic_tokens(&doc);
    assert_eq!(
        tokens,
        vec![tok(0, 0, 2, 2, 1), tok(0, 2, 9, 2, 1), tok(0, 9, 2, 2, 1)]
    );
}

#[test]
fn bold_token_modifier_after_plain() {
    // "plain text**bold text**"
    let doc = Document {
        blocks: vec![Block::Paragraph(Paragraph {
            content: vec![
                plain(1, 1, 1, 11),
                Inline::Format(FormatInline {
                    kind: FormatKind::Bold,
                    span: sp(1, 11, 1, 24),
                    inner: vec![plain(1, 13, 1, 22)],
                    implicit_end: false,
                }),
            ],
        })],
    };
    let tokens = get_semantic_tokens(&doc);
    assert_eq!(
        tokens,
        vec![tok(0, 10, 2, 2, 1), tok(0, 2, 9, 2, 1), tok(0, 9, 2, 2, 1)]
    );
}

#[test]
fn italic_token_modifier() {
    // "*italic text*"
    let doc = Document {
        blocks: vec![Block::Paragraph(Paragraph {
            content: vec![Inline::Format(FormatInline {
                kind: FormatKind::Italic,
                span: sp(1, 1, 1, 14),
                inner: vec![plain(1, 2, 1, 13)],
                implicit_end: false,
            })],
        })],
    };
    let tokens = get_semantic_tokens(&doc);
    assert_eq!(
        tokens,
        vec![tok(0, 0, 1, 2, 4), tok(0, 1, 11, 2, 4), tok(0, 11, 1, 2, 4)]
    );
}

#[test]
fn bold_italic_token_modifier() {
    // "***bold and italic text***" — italic nested directly inside bold, so
    // the inner tokens carry both modifier bits.
    let doc = Document {
        blocks: vec![Block::Paragraph(Paragraph {
            content: vec![Inline::Format(FormatInline {
                kind: FormatKind::Bold,
                span: sp(1, 1, 1, 27),
                inner: vec![Inline::Format(FormatInline {
                    kind: FormatKind::Italic,
                    span: sp(1, 3, 1, 25),
                    inner: vec![plain(1, 4, 1, 24)],
                    implicit_end: false,
                })],
                implicit_end: false,
            })],
        })],
    };
    let tokens = get_semantic_tokens(&doc);
    assert_eq!(
        tokens,
        vec![
            tok(0, 0, 2, 2, 1),
            tok(0, 2, 1, 2, 5),
            tok(0, 1, 20, 2, 5),
            tok(0, 20, 1, 2, 5),
            tok(0, 1, 2, 2, 1),
        ]
    );
}

#[test]
fn bold_without_closing_delimiter_emits_no_close_token() {
    // "**bold" to end of line: the closure is implicit, so no closing token.
    let doc = Document {
        blocks: vec![Block::Paragraph(Paragraph {
            content: vec![Inline::Format(FormatInline {
                kind: FormatKind::Bold,
                span: sp(1, 1, 1, 7),
                inner: vec![plain(1, 3, 1, 7)],
                implicit_end: true,
            })],
        })],
    };
    let tokens = get_semantic_tokens(&doc);
    assert_eq!(tokens, vec![tok(0, 0, 2, 2, 1), tok(0, 2, 4, 2, 1)]);
}
