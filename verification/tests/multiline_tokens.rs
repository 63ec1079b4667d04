use unimarkup_lsp::document::Block;
use unimarkup_lsp::document::Document;
use unimarkup_lsp::document::FormatInline;
use unimarkup_lsp::document::FormatKind;
use unimarkup_lsp::document::Inline;
use unimarkup_lsp::document::Paragraph;
use unimarkup_lsp::document::PlainInline;
use unimarkup_lsp::document::PlainKind;
use unimarkup_lsp::document::Position;
use unimarkup_lsp::document::Span;
use unimarkup_lsp::semantic_tokens::SemanticToken;
use unimarkup_lsp::semantic_tokens::get_semantic_tokens;

fn sp(sl: u32, sc: u32, el: u32, ec: u32) -> Span {
    Span {
        start: Position { line: sl, col_utf16: sc },
        end: Position { line: el, col_utf16: ec },
    }
}

fn plain(sl: u32, sc: u32, el: u32, ec: u32) -> Inline {
    Inline::Plain(PlainInline { kind: PlainKind::Plain, span: sp(sl, sc, el, ec) })
}

fn tok(delta_line: u32, delta_start: u32, length: u32, token_type: u32, bits: u32) -> SemanticToken {
    SemanticToken {
        delta_line,
        delta_start,
        length,
        token_type,
        token_modifiers_bitset: bits,
    }
}

#[test]
fn bold_token_modifier_over_two_lines() {
    // "**bold\ntext**" — the open token sits on line 1, each line's inner run
    // gets its own token, and the close token sits on line 2 at the span's
    // end column minus the delimiter length.
    let doc = Document {
        blocks: vec![Block::Paragraph(Paragraph {
            content: vec![Inline::Format(FormatInline {
                kind: FormatKind::Bold,
                span: sp(1, 1, 2, 7),
                inner: vec![
                    plain(1, 3, 1, 7),
                    Inline::ImplicitNewline,
                    plain(2, 1, 2, 5),
                ],
                implicit_end: false,
            })],
        })],
    };
    let tokens = get_semantic_tokens(&doc);
    assert_eq!(
        tokens,
        vec![
            tok(0, 0, 2, 2, 1),
            tok(0, 2, 4, 2, 1),
            tok(1, 0, 4, 2, 1),
            tok(0, 4, 2, 2, 1),
        ]
    );
}

#[test]
fn escaped_newline_inside_a_scope_marks_the_backslash() {
    // A bold scope spanning a line break with an escaped newline at the end
    // of line 1: the escape gets a one-column token; outside any scope it
    // would get none.
    let doc = Document {
        blocks: vec![Block::Paragraph(Paragraph {
            content: vec![Inline::Format(FormatInline {
                kind: FormatKind::Bold,
                span: sp(1, 1, 2, 5),
                inner: vec![Inline::EscapedNewline(Position { line: 1, col_utf16: 7 })],
                implicit_end: false,
            })],
        })],
    };
    let tokens = get_semantic_tokens(&doc);
    assert_eq!(
        tokens,
        vec![tok(0, 0, 2, 2, 1), tok(0, 6, 1, 2, 1), tok(1, 2, 2, 2, 1)]
    );
}

#[test]
fn escaped_newline_outside_any_scope_emits_nothing() {
    let doc = Document {
        blocks: vec![Block::Paragraph(Paragraph {
            content: vec![Inline::EscapedNewline(Position { line: 1, col_utf16: 3 })],
        })],
    };
    let tokens = get_semantic_tokens(&doc);
    assert_eq!(tokens, Vec::<SemanticToken>::new());
}
