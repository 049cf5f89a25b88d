use vstd::prelude::*;

verus! {

#[derive(PartialEq, Eq, Clone, Copy, Debug, Structural)]
pub enum TokenTag {
    //literals and identifiers
    INTLIT,
    NAME,
    UNKNOWN,
    EOF,
    //punctuation / delimiters
    SEMICOLON,
    COMMA,
    LCURLY,
    RCURLY,
    LPAREN,
    RPAREN,
    LSQUARE,
    RSQUARE,
    //operators
    EQ,
    EQEQ,
    NOTEQ,
    GEQ,
    LEQ,
    GT,
    LT,
    AND,
    OR,
    NOT,
    PLUS,
    MINUS,
    TIMES,
    DIVIDE,
    MOD,
    //type keywords
    BOOL,
    INT,
    UNIT,
    TRUE,
    FALSE,
    //keywords
    CONTINUE,
    IF,
    ELSE,
    WHILE,
    FOR,
    BREAK,
    RETURN,
    MAIN,
}

/// Byte offsets of a token in the source text.
#[derive(Debug, Clone, Copy, PartialEq, Eq, Structural)]
pub struct TokenSpan {
    pub start: usize,
    pub end: usize,
}

#[derive(Debug, Clone, Copy, PartialEq, Eq, Structural)]
pub struct TokenLocation {
    pub row: u32,
    pub column: u32,
}

#[derive(Debug, Clone, PartialEq, Eq)]
pub enum TokenLexeme {
    Int(i64),
    Name(String),
    Unknown(char),
}

/// The content of a lexeme, names as character sequences.
pub enum LexemeV {
    Int(i64),
    Name(Seq<char>),
    Unknown(char),
}

impl View for TokenLexeme {
    type V = LexemeV;

    open spec fn view(&self) -> LexemeV {
        match self {
            TokenLexeme::Int(n) => LexemeV::Int(*n),
            TokenLexeme::Name(s) => LexemeV::Name(s@),
            TokenLexeme::Unknown(c) => LexemeV::Unknown(*c),
        }
    }
}

pub open spec fn opt_lexeme_view(l: Option<TokenLexeme>) -> Option<LexemeV> {
    match l {
        Some(x) => Some(x@),
        None => None,
    }
}

/// The content of a token.
pub struct TokenV {
    pub tag: TokenTag,
    pub span: TokenSpan,
    pub location: TokenLocation,
    pub lexeme: Option<LexemeV>,
}

#[derive(Debug, Clone, PartialEq, Eq)]
pub struct Token {
    tag: TokenTag,
    span: TokenSpan,
    location: TokenLocation,
    lexeme: Option<TokenLexeme>,
}

impl View for Token {
    type V = TokenV;

    closed spec fn view(&self) -> TokenV {
        TokenV {
            tag: self.tag,
            span: self.span,
            location: self.location,
            lexeme: opt_lexeme_view(self.lexeme),
        }
    }
}

impl Token {
    pub fn new(
        tag: TokenTag,
        start: usize,
        end: usize,
        row: u32,
        column: u32,
        lexeme: Option<TokenLexeme>,
    ) -> (r: Self)
        ensures
            r@ == (TokenV {
                tag,
                span: TokenSpan { start, end },
                location: TokenLocation { row, column },
                lexeme: opt_lexeme_view(lexeme),
            }),
    {
        Self {
            tag,
            span: TokenSpan { start, end },
            location: TokenLocation { row, column },
            lexeme,
        }
    }

    pub fn kind(&self) -> (r: TokenTag)
        ensures
            r == self@.tag,
    {
        self.tag
    }

    pub fn location(&self) -> (r: TokenLocation)
        ensures
            r == self@.location,
    {
        self.location
    }

    pub fn row(&self) -> (r: u32)
        ensures
            r == self@.location.row,
    {
        self.location.row
    }

    pub fn column(&self) -> (r: u32)
        ensures
            r == self@.location.column,
    {
        self.location.column
    }

    pub fn span(&self) -> (r: TokenSpan)
        ensures
            r == self@.span,
    {
        self.span
    }

    pub fn start(&self) -> (r: usize)
        ensures
            r == self@.span.start,
    {
        self.span.start
    }

    pub fn end(&self) -> (r: usize)
        ensures
            r == self@.span.end,
    {
        self.span.end
    }

    pub fn lexeme(&self) -> (r: Option<&TokenLexeme>)
        ensures
            match r {
                Some(l) => self@.lexeme == Some(l@),
                None => self@.lexeme is None,
            },
    {
        match &self.lexeme {
            Some(l) => Some(l),
            None => None,
        }
    }
}

} // verus!
