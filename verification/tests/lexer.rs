use lead_build::lexer::{lex, Tok};

fn kinds(src: &str) -> Vec<Tok> {
    lex(src).unwrap().into_iter().map(|t| t.tok).collect()
}

#[test]
fn lexer_reads_names_as_far_as_they_go_and_knows_keywords() {
    assert_eq!(kinds("abc"), vec![Tok::Ident("abc".to_string())]);
    assert_eq!(kinds("let letx in"), vec![Tok::Let, Tok::Ident("letx".to_string()), Tok::In]);
    assert_eq!(kinds("a_1 42"), vec![Tok::Ident("a_1".to_string()), Tok::Number("42".to_string())]);
}

#[test]
fn lexer_reads_the_longest_operator() {
    assert_eq!(kinds("a==b"), vec![Tok::Ident("a".to_string()), Tok::BinOpEq, Tok::Ident("b".to_string())]);
    assert_eq!(kinds("++ + // / ... . -> =>"), vec![
        Tok::BinOpListConcat, Tok::BinOpAdd, Tok::BinOpUpdate, Tok::BinOpDiv, Tok::TripleDots, Tok::Dot,
        Tok::BinOpLogImpl, Tok::RDoubleArrow,
    ]);
}

#[test]
fn lexer_skips_comments_and_reads_strings() {
    assert_eq!(kinds("1 # note\n2"), vec![Tok::Number("1".to_string()), Tok::Number("2".to_string())]);
    assert_eq!(kinds("\"a${x}b\""), vec![
        Tok::StringQuote, Tok::StringChunk("a".to_string()), Tok::StringEmbedStart, Tok::Ident("x".to_string()),
        Tok::StringEmbedEnd, Tok::StringChunk("b".to_string()), Tok::StringQuote,
    ]);
    let spans: Vec<(usize, usize)> = lex(" ab  cd").unwrap().iter().map(|t| (t.start, t.end)).collect();
    assert_eq!(spans, vec![(1, 3), (5, 7)]);
}

#[test]
fn lexer_errors_name_the_character_and_place() {
    let e = lex("a & b").unwrap_err();
    assert_eq!(e.message, "unrecognized token \"&\"");
    assert_eq!((e.start, e.end), (2, 3));
    let e = lex("\"abc").unwrap_err();
    assert_eq!(e.message, "unterminated string literal");
    assert_eq!((e.start, e.end), (4, 4));
    let e = lex("\"a$\"").unwrap_err();
    assert_eq!(e.message, "unrecognized token in string \"$\"");
}
