use unimarkup_lsp::semantic_tokens::AbsoluteToken;
use unimarkup_lsp::semantic_tokens::SemanticToken;
use unimarkup_lsp::semantic_tokens::block_tokens::OpenTokenType;
use unimarkup_lsp::semantic_tokens::block_tokens::calculate_column_offset;
use unimarkup_lsp::semantic_tokens::delta_conversions::make_relative;
use unimarkup_lsp::semantic_tokens::delta_conversions::to_lsp_line_nr;
use unimarkup_lsp::semantic_tokens::inline_tokens::TokenModifier;
use unimarkup_lsp::semantic_tokens::inline_tokens::get_modifier_bitfield;

fn abs(line: u32, start: u32, length: u32) -> AbsoluteToken {
    AbsoluteToken {
        line,
        start,
        length,
        token_type: 2,
        token_modifiers_bitset: 0,
    }
}

fn tok(delta_line: u32, delta_start: u32, length: u32) -> SemanticToken {
    SemanticToken {
        delta_line,
        delta_start,
        length,
        token_type: 2,
        token_modifiers_bitset: 0,
    }
}

#[test]
fn make_relative_sorts_and_rebases() {
    // Emission order interleaved by nesting; the encoder sorts by position,
    // then takes deltas against the next lower token.
    let tokens = vec![abs(1, 1, 2), abs(2, 5, 2), abs(1, 3, 4), abs(2, 1, 4)];
    let rel = make_relative(tokens);
    assert_eq!(rel, vec![tok(0, 0, 2), tok(0, 2, 4), tok(1, 0, 4), tok(0, 4, 2)]);
}

#[test]
fn make_relative_keeps_every_token() {
    let tokens = vec![abs(3, 1, 1), abs(1, 1, 1), abs(2, 1, 1), abs(2, 9, 1)];
    let rel = make_relative(tokens);
    assert_eq!(rel.len(), 4);
    assert_eq!(rel, vec![tok(0, 0, 1), tok(1, 0, 1), tok(0, 8, 1), tok(1, 0, 1)]);
}

#[test]
fn make_relative_of_nothing_is_nothing() {
    let rel = make_relative(Vec::new());
    assert_eq!(rel, Vec::<SemanticToken>::new());
}

#[test]
fn make_relative_is_deterministic() {
    let a = make_relative(vec![abs(1, 4, 2), abs(1, 4, 3), abs(1, 1, 1)]);
    let b = make_relative(vec![abs(1, 4, 2), abs(1, 4, 3), abs(1, 1, 1)]);
    assert_eq!(a, b);
}

#[test]
fn tokens_at_one_position_break_ties_deterministically() {
    // The descending sort is stable, so after the final reversal two tokens
    // at one position come out in reversed emission order — always the same
    // way for the same input.
    let rel = make_relative(vec![abs(1, 1, 7), abs(1, 1, 9)]);
    assert_eq!(rel, vec![tok(0, 0, 9), tok(0, 0, 7)]);
}

#[test]
fn line_numbers_convert_to_protocol_origin() {
    assert_eq!(to_lsp_line_nr(1), 0);
    assert_eq!(to_lsp_line_nr(42), 41);
}

#[test]
fn column_offset_follows_the_innermost_open_token() {
    assert_eq!(calculate_column_offset(&Vec::new()), 0);
    let with_length = vec![OpenTokenType { length: Some(3), start_column_offset: 2 }];
    assert_eq!(calculate_column_offset(&with_length), 5);
    let without_length = vec![
        OpenTokenType { length: Some(9), start_column_offset: 9 },
        OpenTokenType { length: None, start_column_offset: 7 },
    ];
    assert_eq!(calculate_column_offset(&without_length), 7);
}

#[test]
fn modifier_bits_accumulate_by_or() {
    assert_eq!(get_modifier_bitfield(&Vec::new()), 0);
    assert_eq!(get_modifier_bitfield(&vec![TokenModifier::Bold]), 1);
    assert_eq!(
        get_modifier_bitfield(&vec![TokenModifier::Bold, TokenModifier::Italic]),
        5
    );
    assert_eq!(
        get_modifier_bitfield(&vec![TokenModifier::Underline, TokenModifier::DoubleQuote]),
        272
    );
}
