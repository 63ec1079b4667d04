use unimarkup_lsp::document::Block;
use unimarkup_lsp::document::BulletList;
use unimarkup_lsp::document::BulletListEntry;
use unimarkup_lsp::document::Document;
use unimarkup_lsp::document::FormatInline;
use unimarkup_lsp::document::FormatKind;
use unimarkup_lsp::document::Heading;
use unimarkup_lsp::document::Inline;
use unimarkup_lsp::document::Paragraph;
use unimarkup_lsp::document::PlainInline;
use unimarkup_lsp::document::PlainKind;
use unimarkup_lsp::document::Position;
use unimarkup_lsp::document::ScopedInline;
use unimarkup_lsp::document::ScopedKind;
use unimarkup_lsp::document::Span;
use unimarkup_lsp::document::VerbatimBlock;
use unimarkup_lsp::semantic_tokens::SemanticToken;
use unimarkup_lsp::semantic_tokens::get_semantic_tokens;

fn sp(sl: u32, sc: u32, el: u32, ec: u32) -> Span {
    Span {
        start: Position { line: sl, col_utf16: sc },
        end: Position { line: el, col_utf16: ec },
    }
}

fn plain(sl: u32, sc: u32, el: u32, ec: u32) -> Inline {
    Inline::Plain(PlainInline { kind: PlainKind::Plain, span: sp(sl, sc, el, ec) })
}

fn tok(delta_line: u32, delta_start: u32, length: u32, token_type: u32, bits: u32) -> SemanticToken {
    SemanticToken {
        delta_line,
        delta_start,
        length,
        token_type,
        token_modifiers_bitset: bits,
    }
}

#[test]
fn heading_token_type() {
    // "# heading" — one heading marker; the unscoped plain run emits nothing.
    let doc = Document {
        blocks: vec![Block::Heading(Heading {
            level: 1,
            span: sp(1, 1, 1, 10),
            content: vec![plain(1, 3, 1, 10)],
        })],
    };
    let tokens = get_semantic_tokens(&doc);
    assert_eq!(tokens, vec![tok(0, 0, 2, 3, 0)]);
}

#[test]
fn heading_token_type_with_bold_token_modifier() {
    // "# **heading**" — the heading marker, then the bold scope under the
    // neutral inline type with the bold bit set.
    let doc = Document {
        blocks: vec![Block::Heading(Heading {
            level: 1,
            span: sp(1, 1, 1, 14),
            content: vec![Inline::Format(FormatInline {
                kind: FormatKind::Bold,
                span: sp(1, 3, 1, 14),
                inner: vec![plain(1, 5, 1, 12)],
                implicit_end: false,
            })],
        })],
    };
    let tokens = get_semantic_tokens(&doc);
    assert_eq!(
        tokens,
        vec![
            tok(0, 0, 2, 3, 0),
            tok(0, 2, 2, 2, 1),
            tok(0, 2, 7, 2, 1),
            tok(0, 7, 2, 2, 1),
        ]
    );
}

#[test]
fn heading_marker_repeats_on_every_spanned_line() {
    let doc = Document {
        blocks: vec![Block::Heading(Heading {
            level: 2,
            span: sp(1, 1, 3, 4),
            content: vec![],
        })],
    };
    let tokens = get_semantic_tokens(&doc);
    assert_eq!(
        tokens,
        vec![tok(0, 0, 3, 3, 0), tok(1, 0, 3, 3, 0), tok(1, 0, 3, 3, 0)]
    );
}

#[test]
fn verbatim_block_highlights_both_fences() {
    // A three-tick fence opened on line 1 and closed on line 3.
    let doc = Document {
        blocks: vec![Block::VerbatimBlock(VerbatimBlock {
            span: sp(1, 1, 3, 4),
            tick_len: 3,
            implicit_closed: false,
        })],
    };
    let tokens = get_semantic_tokens(&doc);
    assert_eq!(tokens, vec![tok(0, 0, 3, 18, 0), tok(2, 0, 3, 18, 0)]);
}

#[test]
fn verbatim_block_without_close_emits_one_fence() {
    let doc = Document {
        blocks: vec![Block::VerbatimBlock(VerbatimBlock {
            span: sp(1, 1, 2, 5),
            tick_len: 3,
            implicit_closed: true,
        })],
    };
    let tokens = get_semantic_tokens(&doc);
    assert_eq!(tokens, vec![tok(0, 0, 3, 18, 0)]);
}

#[test]
fn bullet_list_marks_each_entry() {
    let doc = Document {
        blocks: vec![Block::BulletList(BulletList {
            entries: vec![
                BulletListEntry {
                    span: sp(1, 1, 1, 7),
                    body: vec![Block::Paragraph(Paragraph { content: vec![plain(1, 3, 1, 7)] })],
                },
                BulletListEntry {
                    span: sp(2, 1, 2, 7),
                    body: vec![Block::Paragraph(Paragraph { content: vec![plain(2, 3, 2, 7)] })],
                },
            ],
        })],
    };
    let tokens = get_semantic_tokens(&doc);
    assert_eq!(tokens, vec![tok(0, 0, 1, 3, 0), tok(1, 0, 1, 3, 0)]);
}

#[test]
fn math_scope_switches_the_token_type() {
    // "$x + y$" — verbatim-like scope: the ambient type switches to math and
    // the inner run is emitted even without open modifiers.
    let doc = Document {
        blocks: vec![Block::Paragraph(Paragraph {
            content: vec![Inline::Scoped(ScopedInline {
                kind: ScopedKind::Math,
                span: sp(1, 1, 1, 8),
                inner: vec![plain(1, 2, 1, 7)],
                implicit_end: false,
            })],
        })],
    };
    let tokens = get_semantic_tokens(&doc);
    assert_eq!(
        tokens,
        vec![tok(0, 0, 1, 3, 0), tok(0, 1, 5, 3, 0), tok(0, 5, 1, 3, 0)]
    );
}
