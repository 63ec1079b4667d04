use unimarkup_lsp::document::Block;
use unimarkup_lsp::document::Document;
use unimarkup_lsp::document::FormatInline;
use unimarkup_lsp::document::FormatKind;
use unimarkup_lsp::document::Inline;
use unimarkup_lsp::document::Paragraph;
use unimarkup_lsp::document::PlainInline;
use unimarkup_lsp::document::PlainKind;
use unimarkup_lsp::document::Position;
use unimarkup_lsp::document::Span;
use unimarkup_lsp::semantic_tokens::SemanticToken;
use unimarkup_lsp::semantic_tokens::get_semantic_tokens;

fn sp(sl: u32, sc: u32, el: u32, ec: u32) -> Span {
    Span {
        start: Position { line: sl, col_utf16: sc },
        end: Position { line: el, col_utf16: ec },
    }
}

fn plain(sl: u32, sc: u32, el: u32, ec: u32) -> Inline {
    Inline::Plain(PlainInline { kind: PlainKind::Plain, span: sp(sl, sc, el, ec) })
}

fn tok(delta_line: u32, delta_start: u32, length: u32, token_type: u32, bits: u32) -> SemanticToken {
    SemanticToken {
        delta_line,
        delta_start,
        length,
        token_type,
        token_modifiers_bitset: bits,
    }
}

#[test]
fn bold_token_modifier_in_two_blocks() {
    // "**bold text**\n\n**other bold text**" — two paragraphs split by a
    // blank line; the second paragraph's first token re-bases its column.
    let doc = Document {
        blocks: vec![
            Block::Paragraph(Paragraph {
                content: vec![Inline::Format(FormatInline {
                    kind: FormatKind::Bold,
                    span: sp(1, 1, 1, 14),
                    inner: vec![plain(1, 3, 1, 12)],
                    implicit_end: false,
                })],
            }),
            Block::Blankline,
            Block::Paragraph(Paragraph {
                content: vec![Inline::Format(FormatInline {
                    kind: FormatKind::Bold,
                    span: sp(3, 1, 3, 20),
                    inner: vec![plain(3, 3, 3, 18)],
                    implicit_end: false,
                })],
            }),
        ],
    };
    let tokens = get_semantic_tokens(&doc);
    assert_eq!(
        tokens,
        vec![
            tok(0, 0, 2, 2, 1),
            tok(0, 2, 9, 2, 1),
            tok(0, 9, 2, 2, 1),
            tok(2, 0, 2, 2, 1),
            tok(0, 2, 15, 2, 1),
            tok(0, 15, 2, 2, 1),
        ]
    );
}

#[test]
fn empty_document_yields_no_tokens() {
    let doc = Document { blocks: vec![] };
    let tokens = get_semantic_tokens(&doc);
    assert_eq!(tokens, Vec::<SemanticToken>::new());
}

#[test]
fn encoding_the_same_document_twice_is_identical() {
    let doc = Document {
        blocks: vec![Block::Paragraph(Paragraph {
            content: vec![Inline::Format(FormatInline {
                kind: FormatKind::Bold,
                span: sp(1, 1, 1, 14),
                inner: vec![plain(1, 3, 1, 12)],
                implicit_end: false,
            })],
        })],
    };
    let first = get_semantic_tokens(&doc);
    let second = get_semantic_tokens(&doc);
    assert_eq!(first, second);
}
