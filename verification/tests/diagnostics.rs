use rcc::diagnostics::{
    lex_report, lexeme_hint, parse_report, render_tokens, semantic_report, str_contains,
};
use rcc::lexical_analyzer::{tokenize, LexError};
use rcc::semantic_analyzer::SemanticError;
use rcc::syntatic_analyzer::ParseError;

#[test]
fn contains_finds_inner_and_edge_occurrences() {
    assert!(str_contains("unclosed block comment at end", "block"));
    assert!(str_contains("abc", "abc"));
    assert!(str_contains("abc", ""));
    assert!(str_contains("xxabc", "abc"));
    assert!(!str_contains("ab", "abc"));
    assert!(!str_contains("abd", "abc"));
    assert!(!str_contains("", "a"));
}

#[test]
fn lexeme_hint_for_unclosed_comment() {
    assert_eq!(
        lexeme_hint("unclosed block comment"),
        Some("close the comment with '*/'".to_string())
    );
}

#[test]
fn lexeme_hint_none_when_message_already_hints() {
    assert_eq!(
        lexeme_hint("unclosed block comment. Did you mean '*/'?"),
        None
    );
    assert_eq!(lexeme_hint("invalid character '#'"), None);
}

#[test]
fn token_listing_is_aligned() {
    let lex = tokenize("x = 42;", false);
    let text = render_tokens(&lex.tokens);
    let expected = "tokens:\n".to_string()
        + "   line  col    class         lexeme          \n"
        + "      1  1      ID            x               \n"
        + "      1  3      DELIMITER     =               \n"
        + "      1  5      NUMBER        42              \n"
        + "      1  7      DELIMITER     ;               \n"
        + "      1  8      EOF           <eof>           \n";
    assert_eq!(text, expected);
}

#[test]
fn lexical_report_with_and_without_hints() {
    let errors = vec![
        LexError { line: 3, column: 7, msg: "unclosed block comment".to_string() },
        LexError { line: 10, column: 1, msg: "invalid character '#'".to_string() },
    ];
    assert_eq!(
        lex_report(&errors, false),
        "2 lexical error(s) found:\n  lexical error (line 3, column 7): unclosed block comment\n  lexical error (line 10, column 1): invalid character '#'\n"
    );
    assert_eq!(
        lex_report(&errors, true),
        "2 lexical error(s) found:\n  lexical error (line 3, column 7): unclosed block comment\n    suggestion: close the comment with '*/'\n  lexical error (line 10, column 1): invalid character '#'\n"
    );
}

#[test]
fn syntax_report_shows_hint_only_when_asked() {
    let err = ParseError {
        line: 4,
        column: 12,
        msg: "expected ';', got '}'".to_string(),
        suggestion: Some("insert ';'".to_string()),
    };
    assert_eq!(
        parse_report(&err, false),
        "syntactic error (line 4, column 12): expected ';', got '}'\n"
    );
    assert_eq!(
        parse_report(&err, true),
        "syntactic error (line 4, column 12): expected ';', got '}'\n  suggestion: insert ';'\n"
    );
}

#[test]
fn semantic_report_lists_every_error() {
    let errors = vec![
        SemanticError { line: 2, column: 5, msg: "undeclared variable 'y'".to_string() },
        SemanticError { line: 8, column: 1, msg: "class 'A' is empty".to_string() },
    ];
    assert_eq!(
        semantic_report(&errors),
        "\n2 semantic error(s) found:\n  semantic error (line 2, column 5): undeclared variable 'y'\n  semantic error (line 8, column 1): class 'A' is empty\n"
    );
}
