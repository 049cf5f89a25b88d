use rust_cesk::parser::lexer::lexer::{lex, try_lex};
use rust_cesk::parser::lexer::token::{TokenLexeme, TokenTag};

#[test]
fn tokens_carry_rows_columns_and_byte_spans() {
    let toks = lex("int x;\n  y");
    let tags: Vec<TokenTag> = toks.iter().map(|t| t.kind()).collect();
    assert_eq!(tags, vec![TokenTag::INT, TokenTag::NAME, TokenTag::SEMICOLON, TokenTag::NAME]);
    let rows: Vec<u32> = toks.iter().map(|t| t.row()).collect();
    assert_eq!(rows, vec![0, 0, 0, 1]);
    let cols: Vec<u32> = toks.iter().map(|t| t.column()).collect();
    assert_eq!(cols, vec![0, 4, 5, 2]);
    let spans: Vec<(usize, usize)> = toks.iter().map(|t| (t.start(), t.end())).collect();
    assert_eq!(spans, vec![(0, 3), (4, 5), (5, 6), (9, 10)]);
    assert_eq!(toks[1].lexeme(), Some(&TokenLexeme::Name("x".to_string())));
    assert_eq!(toks[0].lexeme(), None);
}

#[test]
fn spans_count_bytes_of_multibyte_characters() {
    let toks = lex("é x");
    assert_eq!(toks.len(), 2);
    assert_eq!(toks[0].kind(), TokenTag::UNKNOWN);
    assert_eq!(toks[0].lexeme(), Some(&TokenLexeme::Unknown('é')));
    assert_eq!((toks[0].start(), toks[0].end()), (0, 2));
    assert_eq!((toks[1].start(), toks[1].end()), (3, 4));
    assert_eq!(toks[1].column(), 3);
}

#[test]
fn spans_are_ordered_and_inside_the_text() {
    let src = "int main() { return 1 + 22; } // done\r\nbool b;";
    let toks = lex(src);
    for t in toks.iter() {
        assert!(t.start() < t.end() && t.end() <= src.len());
    }
    for w in toks.windows(2) {
        assert!(w[0].end() <= w[1].start());
    }
    assert_eq!(toks.last().unwrap().row(), 1);
}

#[test]
fn comments_and_operators() {
    let toks = lex("a <= b // c d\n!= & ==");
    let tags: Vec<TokenTag> = toks.iter().map(|t| t.kind()).collect();
    assert_eq!(
        tags,
        vec![
            TokenTag::NAME,
            TokenTag::LEQ,
            TokenTag::NAME,
            TokenTag::NOTEQ,
            TokenTag::UNKNOWN,
            TokenTag::EQEQ
        ]
    );
}

#[test]
fn integer_literals_and_keywords() {
    let toks = lex("42 while mainly main true");
    assert_eq!(toks[0].lexeme(), Some(&TokenLexeme::Int(42)));
    assert_eq!(toks[1].kind(), TokenTag::WHILE);
    assert_eq!(toks[2].kind(), TokenTag::NAME);
    assert_eq!(toks[3].kind(), TokenTag::MAIN);
    assert_eq!(toks[4].kind(), TokenTag::TRUE);
}

#[test]
fn a_literal_too_large_is_no_text_of_tokens() {
    assert!(try_lex("99999999999999999999").is_none());
    assert!(try_lex("9223372036854775807").is_some());
    assert!(try_lex("9223372036854775808").is_none());
}

#[test]
fn tokens_cover_exactly_the_shown_characters() {
    let src = "ab = 1; // c d\n  x";
    let toks = lex(src);
    let covered = |b: usize| toks.iter().any(|t| t.start() <= b && b < t.end());
    for (b, ch) in src.char_indices() {
        let in_comment = b >= 8 && b < 14;
        let shown = ch != ' ' && ch != '\n' && !in_comment;
        assert_eq!(covered(b), shown, "byte {}", b);
    }
}
