use foam_ls::lexer::{keyword, line_comment, scan, LexError};
use foam_ls::token::{Span, Token};

fn sp(start: usize, end: usize) -> Span {
    Span { start, end }
}

#[test]
fn test_foam_keywords() {
    let input = "hex (0 1 2 3 4 5 6 7) (40 40 1) simpleGrading (1 1 1)";
    let (token, _len) = keyword(input).unwrap();
    assert_eq!(token, Token::Hex);
}

#[test]
fn test_invalid_keyword() {
    let input = "invalid";
    let result = keyword(input);
    assert!(result.is_none());
}

#[test]
fn test_comment() {
    let input = "// This is a comment\n";
    let (comment, len) = line_comment(input).unwrap();
    let remaining = &input[len..];
    assert_eq!(remaining, "");
    assert_eq!(comment, Token::LineComment);
    assert_eq!(&input[2..len - 1], " This is a comment");
}

#[test]
fn test_scan_line() {
    let input = "var x <= 10;";
    let tokens = scan(input);
    println!("{:?}", tokens);
    assert_eq!(tokens, Err(LexError { offset: 0 }));
}

#[test]
fn keyword_match_is_case_sensitive() {
    assert_eq!(scan("Hex"), Err(LexError { offset: 0 }));
    assert_eq!(scan("hex"), Ok((vec![Token::Hex], vec![sp(0, 3)])));
}

#[test]
fn hex_block_starts_with_hex_keyword() {
    let (tokens, spans) = scan("hex (0 1 2 3 4 5 6 7) (40 40 1) simpleGrading (1 1 1)").unwrap();
    assert_eq!(tokens[0], Token::Hex);
    assert_eq!(spans[0], sp(0, 3));
    assert_eq!(tokens.len(), spans.len());
    assert_eq!(tokens.len(), 22);
    assert_eq!(tokens[1], Token::LeftParen);
    assert_eq!(tokens[2], Token::Int(0));
    assert_eq!(tokens[10], Token::RightParen);
    assert_eq!(tokens[12], Token::Int(40));
    assert_eq!(spans[12], sp(23, 25));
    assert_eq!(tokens[16], Token::SimpleGrading);
    assert_eq!(spans[16], sp(32, 45));
}

#[test]
fn spans_are_increasing_and_within_text() {
    let text = "FoamFile\n{\n    format ascii;\n    class volVectorField;\n}\n/* mesh */ blocks ( hex ( 0 1 ) );\n// end\n";
    let (tokens, spans) = scan(text).unwrap();
    assert_eq!(tokens.len(), spans.len());
    for i in 0..spans.len() {
        assert!(spans[i].start < spans[i].end);
        assert!(spans[i].end <= text.len());
        if i + 1 < spans.len() {
            assert!(spans[i].end <= spans[i + 1].start);
        }
    }
    assert_eq!(tokens[tokens.len() - 1], Token::LineComment);
}

#[test]
fn integers_with_sign_and_limits() {
    assert_eq!(scan("42"), Ok((vec![Token::Int(42)], vec![sp(0, 2)])));
    assert_eq!(scan("-5"), Ok((vec![Token::Int(-5)], vec![sp(0, 2)])));
    assert_eq!(scan("+7"), Ok((vec![Token::Int(7)], vec![sp(0, 2)])));
    assert_eq!(
        scan("9223372036854775807"),
        Ok((vec![Token::Int(i64::MAX)], vec![sp(0, 19)]))
    );
    assert_eq!(
        scan("-9223372036854775808"),
        Ok((vec![Token::Int(i64::MIN)], vec![sp(0, 20)]))
    );
    assert_eq!(scan("9223372036854775808"), Err(LexError { offset: 0 }));
}

#[test]
fn lone_signs_are_punctuation() {
    assert_eq!(
        scan("+ -"),
        Ok((vec![Token::Plus, Token::Minus], vec![sp(0, 1), sp(2, 3)]))
    );
}

#[test]
fn digits_followed_by_letters_fail_after_the_number() {
    assert_eq!(scan("10abc"), Err(LexError { offset: 2 }));
}

#[test]
fn block_comment_is_one_token() {
    assert_eq!(
        scan("/* c */ hex"),
        Ok((vec![Token::BlockComment, Token::Hex], vec![sp(0, 7), sp(8, 11)]))
    );
}

#[test]
fn unterminated_block_comment_is_punctuation() {
    assert_eq!(scan("/* x"), Err(LexError { offset: 3 }));
}

#[test]
fn line_comment_runs_to_end_of_text() {
    assert_eq!(
        scan("hex // note"),
        Ok((vec![Token::Hex, Token::LineComment], vec![sp(0, 3), sp(4, 11)]))
    );
}

#[test]
fn unknown_punctuation_fails() {
    assert_eq!(scan("hex ="), Err(LexError { offset: 4 }));
}

#[test]
fn empty_and_blank_text_scan_to_nothing() {
    assert_eq!(scan(""), Ok((vec![], vec![])));
    assert_eq!(scan(" \t\r\n"), Ok((vec![], vec![])));
}
