use foam_ls::catalog::{get_foam_definition, token_color};
use foam_ls::lexer::scan;
use foam_ls::token::{Span, Token};
use foam_ls::validate::{get_errors, get_inline_hints};

fn sp(start: usize, end: usize) -> Span {
    Span { start, end }
}

#[test]
fn well_formed_uniform_has_no_diagnostic() {
    let (tokens, spans) = scan("uniform {10 0 0};").unwrap();
    assert!(get_errors(&tokens, &spans).is_empty());
}

#[test]
fn short_uniform_gets_one_diagnostic_at_anchor() {
    let (tokens, spans) = scan("uniform {10 0};").unwrap();
    let errors = get_errors(&tokens, &spans);
    assert_eq!(errors.len(), 1);
    assert_eq!(
        errors,
        vec![(sp(0, 7), "Expected RightBrace, found Semicolon".to_string())]
    );
}

#[test]
fn two_uniform_constructs_are_checked_separately() {
    let (tokens, spans) = scan("uniform {10 0}; uniform {1 2 3};").unwrap();
    let errors = get_errors(&tokens, &spans);
    assert_eq!(
        errors,
        vec![(sp(0, 7), "Expected Semicolon, found Uniform".to_string())]
    );
}

#[test]
fn uniform_near_end_checks_present_positions() {
    let (tokens, spans) = scan("uniform {10};").unwrap();
    let errors = get_errors(&tokens, &spans);
    assert_eq!(
        errors,
        vec![(sp(0, 7), "Expected Int, found Semicolon".to_string())]
    );
}

#[test]
fn uniform_with_under_four_following_tokens_is_not_checked() {
    let (tokens, spans) = scan("uniform {1").unwrap();
    assert!(get_errors(&tokens, &spans).is_empty());
}

#[test]
fn last_mismatch_of_a_construct_is_reported() {
    let (tokens, spans) = scan("uniform (10 0 0);").unwrap();
    let errors = get_errors(&tokens, &spans);
    assert_eq!(
        errors,
        vec![(sp(0, 7), "Expected RightBrace, found RightParen".to_string())]
    );
}

#[test]
fn brace_mismatch_names_both_kinds() {
    let (tokens, spans) = scan("uniform (10 0 0};").unwrap();
    let errors = get_errors(&tokens, &spans);
    assert_eq!(
        errors,
        vec![(sp(0, 7), "Expected LeftBrace, found LeftParen".to_string())]
    );
}

#[test]
fn dimensions_get_unit_hints() {
    let (tokens, spans) = scan("dimensions [1 0 0 0 0 0 0];").unwrap();
    let hints = get_inline_hints(&tokens, &spans);
    let labels = ["kg", "m", "s", "K", "mol", "A", "cd"];
    let starts = [12, 14, 16, 18, 20, 22, 24];
    assert_eq!(hints.len(), 7);
    for j in 0..7 {
        assert_eq!(hints[j], (sp(starts[j], starts[j] + 1), labels[j].to_string()));
    }
}

#[test]
fn malformed_dimensions_get_no_hints() {
    let (tokens, spans) = scan("dimensions [1 0 0 0 0 0];").unwrap();
    assert!(get_inline_hints(&tokens, &spans).is_empty());
    let (tokens, spans) = scan("dimensions [1 0 0 0 0 0 0]").unwrap();
    assert_eq!(get_inline_hints(&tokens, &spans).len(), 7);
}

#[test]
fn definitions_and_fallback() {
    assert_eq!(
        get_foam_definition(Token::Hex),
        "Specifies a hexahedral block using a list of vertex indices."
    );
    assert_eq!(get_foam_definition(Token::Comma), "Unknown OpenFOAM keyword.");
    assert_eq!(get_foam_definition(Token::Uniform), "Unknown OpenFOAM keyword.");
}

#[test]
fn colors_and_default() {
    assert_eq!(token_color(Token::Hex), "#FF0000");
    assert_eq!(token_color(Token::FixedWalls), "#008000");
    assert_eq!(token_color(Token::Blocks), "#FFFFFF");
}
