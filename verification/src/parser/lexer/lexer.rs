use super::token::{opt_lexeme_view, LexemeV, Token, TokenLexeme, TokenLocation, TokenSpan, TokenTag, TokenV};
use vstd::prelude::*;

verus! {

// ---------------------------------------------------------------------------
// Characters
// ---------------------------------------------------------------------------
pub open spec fn code(c: char) -> u32 {
    c as u32
}

pub open spec fn is_digit(c: char) -> bool {
    48 <= code(c) <= 57
}

pub open spec fn is_ident_start(c: char) -> bool {
    (65 <= code(c) <= 90) || (97 <= code(c) <= 122) || code(c) == 95
}

pub open spec fn is_ident_char(c: char) -> bool {
    is_ident_start(c) || is_digit(c)
}

pub open spec fn is_blank(c: char) -> bool {
    c == ' ' || c == '\t'
}

pub open spec fn is_line_end(c: char) -> bool {
    c == '\n' || c == '\r'
}

/// The character classes whose runs make up a single lexeme.
pub enum CharClass {
    IdentChar,
    Digit,
    Blank,
    NotLineEnd,
}

pub open spec fn in_class(k: CharClass, c: char) -> bool {
    match k {
        CharClass::IdentChar => is_ident_char(c),
        CharClass::Digit => is_digit(c),
        CharClass::Blank => is_blank(c),
        CharClass::NotLineEnd => !is_line_end(c),
    }
}

/// The first index at or after `k` whose character is not in the class `cl`.
pub open spec fn scan_while(s: Seq<char>, k: int, cl: CharClass) -> int
    decreases s.len() - k,
{
    if 0 <= k < s.len() && in_class(cl, s[k]) {
        scan_while(s, k + 1, cl)
    } else {
        k
    }
}

/// The number of bytes of the UTF-8 encoding of a character.
pub open spec fn utf8_len(c: char) -> nat {
    if code(c) < 0x80 {
        1
    } else if code(c) < 0x800 {
        2
    } else if code(c) < 0x10000 {
        3
    } else {
        4
    }
}

/// The number of bytes of the UTF-8 encoding of a text.
pub open spec fn seq_bytes(s: Seq<char>) -> nat
    decreases s.len(),
{
    if s.len() == 0 {
        0
    } else {
        seq_bytes(s.drop_last()) + utf8_len(s.last())
    }
}

/// The byte offset of the character at index `i`.
pub open spec fn byte_pos(s: Seq<char>, i: int) -> nat {
    seq_bytes(s.take(i))
}

/// The value of a run of decimal digits.
pub open spec fn digits_value(w: Seq<char>) -> int
    decreases w.len(),
{
    if w.len() == 0 {
        0
    } else {
        digits_value(w.drop_last()) * 10 + (code(w.last()) - 48)
    }
}

pub open spec fn keyword_tag(w: Seq<char>) -> TokenTag {
    if w == seq!['b', 'o', 'o', 'l'] {
        TokenTag::BOOL
    } else if w == seq!['i', 'n', 't'] {
        TokenTag::INT
    } else if w == seq!['u', 'n', 'i', 't'] {
        TokenTag::UNIT
    } else if w == seq!['t', 'r', 'u', 'e'] {
        TokenTag::TRUE
    } else if w == seq!['f', 'a', 'l', 's', 'e'] {
        TokenTag::FALSE
    } else if w == seq!['c', 'o', 'n', 't', 'i', 'n', 'u', 'e'] {
        TokenTag::CONTINUE
    } else if w == seq!['i', 'f'] {
        TokenTag::IF
    } else if w == seq!['e', 'l', 's', 'e'] {
        TokenTag::ELSE
    } else if w == seq!['w', 'h', 'i', 'l', 'e'] {
        TokenTag::WHILE
    } else if w == seq!['f', 'o', 'r'] {
        TokenTag::FOR
    } else if w == seq!['b', 'r', 'e', 'a', 'k'] {
        TokenTag::BREAK
    } else if w == seq!['r', 'e', 't', 'u', 'r', 'n'] {
        TokenTag::RETURN
    } else if w == seq!['m', 'a', 'i', 'n'] {
        TokenTag::MAIN
    } else {
        TokenTag::NAME
    }
}

/// The operators spelled with two characters.
pub open spec fn punct2(a: char, b: char) -> Option<TokenTag> {
    if a == '=' && b == '=' {
        Some(TokenTag::EQEQ)
    } else if a == '!' && b == '=' {
        Some(TokenTag::NOTEQ)
    } else if a == '>' && b == '=' {
        Some(TokenTag::GEQ)
    } else if a == '<' && b == '=' {
        Some(TokenTag::LEQ)
    } else if a == '&' && b == '&' {
        Some(TokenTag::AND)
    } else if a == '|' && b == '|' {
        Some(TokenTag::OR)
    } else {
        None
    }
}

/// The punctuation and operators spelled with one character.
pub open spec fn punct1(a: char) -> Option<TokenTag> {
    if a == ';' {
        Some(TokenTag::SEMICOLON)
    } else if a == ',' {
        Some(TokenTag::COMMA)
    } else if a == '{' {
        Some(TokenTag::LCURLY)
    } else if a == '}' {
        Some(TokenTag::RCURLY)
    } else if a == '(' {
        Some(TokenTag::LPAREN)
    } else if a == ')' {
        Some(TokenTag::RPAREN)
    } else if a == '[' {
        Some(TokenTag::LSQUARE)
    } else if a == ']' {
        Some(TokenTag::RSQUARE)
    } else if a == '=' {
        Some(TokenTag::EQ)
    } else if a == '>' {
        Some(TokenTag::GT)
    } else if a == '<' {
        Some(TokenTag::LT)
    } else if a == '!' {
        Some(TokenTag::NOT)
    } else if a == '+' {
        Some(TokenTag::PLUS)
    } else if a == '-' {
        Some(TokenTag::MINUS)
    } else if a == '*' {
        Some(TokenTag::TIMES)
    } else if a == '/' {
        Some(TokenTag::DIVIDE)
    } else if a == '%' {
        Some(TokenTag::MOD)
    } else {
        None
    }
}

/// Each operator spelling lexes to a tag of its own: two different two-character spellings
/// never share a tag, nor do two different one-character ones, and no tag of a
/// two-character spelling is that of a one-character one.
pub proof fn law_punctuation_tags_distinct(a: char, b: char, c: char, d: char)
    ensures
        punct2(a, b) is Some && punct2(a, b) == punct2(c, d) ==> a == c && b == d,
        punct1(a) is Some && punct1(a) == punct1(c) ==> a == c,
        punct2(a, b) is Some ==> punct2(a, b) != punct1(c),
{
}

/// What the lexeme starting at a position amounts to.
pub enum Lexed {
    /// Text that produces no token: blanks and comments.
    Skip,
    /// A line break: no token, and the next line begins.
    Newline,
    /// A token with its tag and lexeme.
    Emit(TokenTag, Option<LexemeV>),
    /// An integer literal too large for `i64`.
    Overflow,
}

/// The longest lexeme starting at index `i` (`0 <= i < s.len()`), and the index where it ends.
pub open spec fn scan_token(s: Seq<char>, i: int) -> (Lexed, int) {
    let c = s[i];
    if is_ident_start(c) {
        let j = scan_while(s, i + 1, CharClass::IdentChar);
        let w = s.subrange(i, j);
        let tag = keyword_tag(w);
        (
            Lexed::Emit(
                tag,
                if tag == TokenTag::NAME {
                    Some(LexemeV::Name(w))
                } else {
                    None
                },
            ),
            j,
        )
    } else if is_digit(c) {
        let j = scan_while(s, i + 1, CharClass::Digit);
        let v = digits_value(s.subrange(i, j));
        if v <= i64::MAX {
            (Lexed::Emit(TokenTag::INTLIT, Some(LexemeV::Int(v as i64))), j)
        } else {
            (Lexed::Overflow, j)
        }
    } else if c == '/' && i + 1 < s.len() && s[i + 1] == '/' {
        (Lexed::Skip, scan_while(s, i + 2, CharClass::NotLineEnd))
    } else if c == '\r' && i + 1 < s.len() && s[i + 1] == '\n' {
        (Lexed::Newline, i + 2)
    } else if is_line_end(c) {
        (Lexed::Newline, i + 1)
    } else if is_blank(c) {
        (Lexed::Skip, scan_while(s, i + 1, CharClass::Blank))
    } else if i + 1 < s.len() && punct2(c, s[i + 1]) is Some {
        (Lexed::Emit(punct2(c, s[i + 1]).unwrap(), None), i + 2)
    } else if punct1(c) is Some {
        (Lexed::Emit(punct1(c).unwrap(), None), i + 1)
    } else {
        (Lexed::Emit(TokenTag::UNKNOWN, Some(LexemeV::Unknown(c))), i + 1)
    }
}

/// The tokens of the text from index `i` on, on line `row`, the current line starting at
/// byte `ls`; `None` where an integer literal does not fit in `i64`.
pub open spec fn lex_from(s: Seq<char>, i: int, row: int, ls: int) -> Option<Seq<TokenV>>
    decreases s.len() - i,
{
    if i < 0 || i >= s.len() {
        Some(Seq::empty())
    } else {
        let (kind, j) = scan_token(s, i);
        if j <= i || j > s.len() {
            None
        } else {
            let b = byte_pos(s, i);
            let nb = byte_pos(s, j);
            match kind {
                Lexed::Skip => lex_from(s, j, row, ls),
                Lexed::Newline => lex_from(s, j, row + 1, nb as int),
                Lexed::Overflow => None,
                Lexed::Emit(tag, lx) => match lex_from(s, j, row, ls) {
                    Some(rest) => Some(
                        seq![
                            TokenV {
                                tag,
                                span: TokenSpan { start: b as usize, end: nb as usize },
                                location: TokenLocation {
                                    row: row as u32,
                                    column: (b - ls) as u32,
                                },
                                lexeme: lx,
                            },
                        ] + rest,
                    ),
                    None => None,
                },
            }
        }
    }
}

/// The tokens of a text, or `None` where an integer literal does not fit in `i64`.
pub open spec fn lex_spec(s: Seq<char>) -> Option<Seq<TokenV>> {
    lex_from(s, 0, 0, 0)
}

/// A text that is one punctuation or operator character lexes to the one token of its tag.
pub proof fn lemma_lex_punct1(s: Seq<char>)
    requires
        s.len() == 1,
        punct1(s[0]) is Some,
    ensures
        lex_spec(s) matches Some(ts) && ts.len() == 1 && ts[0].tag == punct1(s[0]).unwrap(),
{
    let c = s[0];
    assert(!is_ident_start(c) && !is_digit(c) && !is_line_end(c) && !is_blank(c));
    assert(scan_token(s, 0) == (Lexed::Emit(punct1(c).unwrap(), None), 1int));
    assert(lex_from(s, 1, 0, 0) == Some(Seq::<TokenV>::empty()));
}

/// A text that is one two-character operator lexes to the one token of its tag.
pub proof fn lemma_lex_punct2(s: Seq<char>)
    requires
        s.len() == 2,
        punct2(s[0], s[1]) is Some,
    ensures
        lex_spec(s) matches Some(ts) && ts.len() == 1 && ts[0].tag == punct2(s[0], s[1]).unwrap(),
{
    let c = s[0];
    assert(!is_ident_start(c) && !is_digit(c) && !is_line_end(c) && !is_blank(c));
    assert(c != '/');
    assert(scan_token(s, 0) == (Lexed::Emit(punct2(c, s[1]).unwrap(), None), 2int));
    assert(lex_from(s, 2, 0, 0) == Some(Seq::<TokenV>::empty()));
}

pub open spec fn tokens_view(v: Seq<Token>) -> Seq<TokenV> {
    v.map_values(|t: Token| t@)
}

pub open spec fn prepend(p: Seq<TokenV>, r: Option<Seq<TokenV>>) -> Option<Seq<TokenV>> {
    match r {
        Some(x) => Some(p + x),
        None => None,
    }
}

// ---------------------------------------------------------------------------
// Lemmas
// ---------------------------------------------------------------------------
proof fn lemma_scan_while(s: Seq<char>, k: int, cl: CharClass)
    requires
        0 <= k <= s.len(),
    ensures
        k <= scan_while(s, k, cl) <= s.len(),
        forall|m: int| k <= m < scan_while(s, k, cl) ==> in_class(cl, #[trigger] s[m]),
        scan_while(s, k, cl) < s.len() ==> !in_class(cl, s[scan_while(s, k, cl)]),
    decreases s.len() - k,
{
    if k < s.len() && in_class(cl, s[k]) {
        lemma_scan_while(s, k + 1, cl);
    }
}

proof fn lemma_byte_pos_step(s: Seq<char>, k: int)
    requires
        0 <= k < s.len(),
    ensures
        byte_pos(s, k + 1) == byte_pos(s, k) + utf8_len(s[k]),
{
    assert(s.take(k + 1).drop_last() =~= s.take(k));
}

proof fn lemma_byte_pos_mono(s: Seq<char>, k: int, m: int)
    requires
        0 <= k <= m <= s.len(),
    ensures
        byte_pos(s, k) <= byte_pos(s, m),
    decreases m - k,
{
    if k < m {
        lemma_byte_pos_step(s, m - 1);
        lemma_byte_pos_mono(s, k, m - 1);
    }
}

proof fn lemma_byte_pos_total(s: Seq<char>)
    ensures
        byte_pos(s, s.len() as int) == seq_bytes(s),
{
    assert(s.take(s.len() as int) =~= s);
}

proof fn lemma_byte_pos_strict(s: Seq<char>, k: int, m: int)
    requires
        0 <= k < m <= s.len(),
    ensures
        byte_pos(s, k) < byte_pos(s, m),
{
    lemma_byte_pos_step(s, k);
    lemma_byte_pos_mono(s, k + 1, m);
}

/// Each token of `t` covers a nonempty byte range inside `lo .. hi`, and each one ends
/// before the next one starts.
pub open spec fn spans_ordered(t: Seq<TokenV>, lo: nat, hi: nat) -> bool {
    &&& forall|k: int|
        0 <= k < t.len() ==> lo <= #[trigger] t[k].span.start < t[k].span.end <= hi
    &&& forall|k: int, m: int|
        0 <= k < m < t.len() ==> #[trigger] t[k].span.end <= #[trigger] t[m].span.start
}

proof fn lemma_lex_from_spans(s: Seq<char>, i: int, row: int, ls: int)
    requires
        0 <= i <= s.len(),
        lex_from(s, i, row, ls) is Some,
        seq_bytes(s) <= usize::MAX,
    ensures
        spans_ordered(lex_from(s, i, row, ls)->Some_0, byte_pos(s, i), seq_bytes(s)),
    decreases s.len() - i,
{
    lemma_byte_pos_total(s);
    if i < s.len() {
        let (kind, j) = scan_token(s, i);
        lemma_byte_pos_strict(s, i, j);
        lemma_byte_pos_mono(s, j, s.len() as int);
        let b = byte_pos(s, i);
        let nb = byte_pos(s, j);
        match kind {
            Lexed::Skip => {
                lemma_lex_from_spans(s, j, row, ls);
            },
            Lexed::Newline => {
                lemma_lex_from_spans(s, j, row + 1, nb as int);
            },
            Lexed::Overflow => {},
            Lexed::Emit(tag, lx) => {
                lemma_lex_from_spans(s, j, row, ls);
                let rest = lex_from(s, j, row, ls)->Some_0;
                let t = lex_from(s, i, row, ls)->Some_0;
                assert(t[0].span.start == b && t[0].span.end == nb);
                assert forall|k: int| 0 <= k < t.len() implies b <= #[trigger] t[k].span.start
                    < t[k].span.end <= seq_bytes(s) by {
                    if k > 0 {
                        assert(t[k] == rest[k - 1]);
                    }
                }
                assert forall|k: int, m: int| 0 <= k < m < t.len() implies #[trigger] t[k].span.end
                    <= #[trigger] t[m].span.start by {
                    assert(t[m] == rest[m - 1]);
                    if k > 0 {
                        assert(t[k] == rest[k - 1]);
                    }
                }
            },
        }
    }
}

/// Two characters starting a comment at index `j`.
pub open spec fn starts_comment(s: Seq<char>, j: int) -> bool {
    0 <= j && j + 1 < s.len() && s[j] == '/' && s[j + 1] == '/'
}

/// The character at index `m` lies in a comment: a `//` at or before it, with no line
/// break from there up to it.
pub open spec fn in_comment(s: Seq<char>, m: int) -> bool {
    exists|j: int|
        0 <= j <= m && #[trigger] starts_comment(s, j) && forall|k: int|
            j <= k <= m ==> !is_line_end(#[trigger] s[k])
}

/// The byte offset `b` lies inside the span of one of the tokens `t`.
pub open spec fn covered(t: Seq<TokenV>, b: nat) -> bool {
    exists|k: int| 0 <= k < t.len() && #[trigger] t[k].span.start <= b < t[k].span.end
}

/// Every comment that starts before index `i` has ended by it: a line break follows it no
/// later than `i`.
spec fn comments_closed(s: Seq<char>, i: int) -> bool {
    i >= s.len() || forall|j: int|
        0 <= j < i && #[trigger] starts_comment(s, j) ==> exists|k: int|
            j <= k <= i && k < s.len() && is_line_end(#[trigger] s[k])
}

/// A character that is not blank, no line break and not in a comment.
pub open spec fn shown(s: Seq<char>, m: int) -> bool {
    !is_blank(s[m]) && !is_line_end(s[m]) && !in_comment(s, m)
}

proof fn lemma_plain_chars(c: char)
    ensures
        is_ident_char(c) ==> c != '/' && !is_blank(c) && !is_line_end(c),
        c == '=' || c == '!' || c == '<' || c == '>' || c == '&' || c == '|' ==> c != '/'
            && !is_blank(c) && !is_line_end(c),
        punct1(c) is Some ==> !is_blank(c) && !is_line_end(c),
        is_line_end(c) || is_blank(c) ==> c != '/',
{
}

/// What the characters of the lexeme from `i` to `j` are: those of a token are no blanks,
/// no line breaks and start no comment; those skipped are blanks or a comment up to a line
/// break; a line break is line-break characters.
proof fn lemma_lexeme_chars(s: Seq<char>, i: int)
    requires
        0 <= i < s.len(),
        i < scan_token(s, i).1 <= s.len(),
    ensures
        ({
            let (kind, j) = scan_token(s, i);
            &&& (kind is Emit || kind is Overflow) ==> forall|m: int|
                i <= m < j ==> !is_blank(#[trigger] s[m]) && !is_line_end(s[m]) && !starts_comment(
                    s,
                    m,
                )
            &&& kind is Newline ==> forall|m: int| i <= m < j ==> is_line_end(#[trigger] s[m])
            &&& kind is Skip ==> (forall|m: int| i <= m < j ==> is_blank(#[trigger] s[m])) || (
            starts_comment(s, i) && (forall|m: int| i <= m < j ==> !is_line_end(#[trigger] s[m]))
                && (j < s.len() ==> is_line_end(s[j])))
        }),
{
    let c = s[i];
    lemma_plain_chars(c);
    if is_ident_start(c) {
        lemma_scan_while(s, i + 1, CharClass::IdentChar);
        assert forall|m: int| i <= m < scan_token(s, i).1 implies !is_blank(#[trigger] s[m])
            && !is_line_end(s[m]) && !starts_comment(s, m) by {
            lemma_plain_chars(s[m]);
        }
    } else if is_digit(c) {
        lemma_scan_while(s, i + 1, CharClass::Digit);
        assert forall|m: int| i <= m < scan_token(s, i).1 implies !is_blank(#[trigger] s[m])
            && !is_line_end(s[m]) && !starts_comment(s, m) by {
            lemma_plain_chars(s[m]);
        }
    } else if c == '/' && i + 1 < s.len() && s[i + 1] == '/' {
        lemma_scan_while(s, i + 2, CharClass::NotLineEnd);
    } else if c == '\r' && i + 1 < s.len() && s[i + 1] == '\n' {
    } else if is_line_end(c) {
    } else if is_blank(c) {
        lemma_scan_while(s, i + 1, CharClass::Blank);
    } else if i + 1 < s.len() && punct2(c, s[i + 1]) is Some {
        lemma_plain_chars(s[i + 1]);
    } else {
    }
}

/// Within the lexemes from index `i` on, a byte is covered by a token exactly when its
/// character is shown: no blank, no line break, not in a comment.
proof fn lemma_lex_cover(s: Seq<char>, i: int, row: int, ls: int)
    requires
        0 <= i <= s.len(),
        lex_from(s, i, row, ls) is Some,
        seq_bytes(s) <= usize::MAX,
        comments_closed(s, i),
    ensures
        forall|m: int|
            i <= m < s.len() ==> (covered(lex_from(s, i, row, ls)->Some_0, #[trigger] byte_pos(s, m))
                <==> shown(s, m)),
    decreases s.len() - i,
{
    if i < s.len() {
        let (kind, j) = scan_token(s, i);
        let t = lex_from(s, i, row, ls)->Some_0;
        lemma_lexeme_chars(s, i);
        let (row2, ls2) = match kind {
            Lexed::Newline => (row + 1, byte_pos(s, j) as int),
            _ => (row, ls),
        };
        let rest = lex_from(s, j, row2, ls2)->Some_0;
        assert(lex_from(s, j, row2, ls2) is Some);
        lemma_lex_from_spans(s, j, row2, ls2);
        lemma_byte_pos_strict(s, i, j);
        lemma_byte_pos_total(s);
        lemma_byte_pos_mono(s, j, s.len() as int);
        if kind is Emit {
            assert(t[0].span.start == byte_pos(s, i) && t[0].span.end == byte_pos(s, j));
        }
        // comments that start before j have ended by j
        assert(comments_closed(s, j)) by {
            if j < s.len() {
                assert forall|q: int| 0 <= q < j && #[trigger] starts_comment(s, q) implies exists|k: int|
                    q <= k <= j && k < s.len() && is_line_end(#[trigger] s[k]) by {
                    if q < i {
                        let k = choose|k: int| q <= k <= i && k < s.len() && is_line_end(#[trigger] s[k]);
                        assert(q <= k <= j);
                    } else {
                        assert(s[q] == '/');
                        if !(kind is Skip) || !starts_comment(s, i) {
                            lemma_plain_chars(s[q]);
                        }
                        assert(is_line_end(s[j]));
                    }
                }
            }
        }
        lemma_lex_cover(s, j, row2, ls2);
        assert forall|m: int| i <= m < s.len() implies (covered(t, #[trigger] byte_pos(s, m))
            <==> shown(s, m)) by {
            lemma_byte_pos_mono(s, m, s.len() as int);
            if m < j {
                lemma_byte_pos_mono(s, i, m);
                lemma_byte_pos_strict(s, m, j);
                // no token of the rest covers a byte before j
                assert(!covered(rest, byte_pos(s, m))) by {
                    if covered(rest, byte_pos(s, m)) {
                        let k = choose|k: int| 0 <= k < rest.len() && #[trigger] rest[k].span.start
                            <= byte_pos(s, m) < rest[k].span.end;
                        assert(rest[k].span.start >= byte_pos(s, j));
                    }
                }
                if kind is Emit {
                    assert(t == seq![t[0]] + rest);
                    assert(t[0].span.start <= byte_pos(s, m) < t[0].span.end);
                    assert(covered(t, byte_pos(s, m)));
                    // not in a comment
                    if in_comment(s, m) {
                        let q = choose|q: int| 0 <= q <= m && #[trigger] starts_comment(s, q) && forall|
                            k: int,
                        | q <= k <= m ==> !is_line_end(#[trigger] s[k]);
                        if q < i {
                            let k = choose|k: int| q <= k <= i && k < s.len() && is_line_end(#[trigger] s[k]);
                            assert(!is_line_end(s[k]));
                        } else {
                            assert(!starts_comment(s, q));
                        }
                    }
                } else {
                    assert(t == rest);
                    if kind is Skip && starts_comment(s, i) {
                        assert(in_comment(s, m)) by {
                            assert(starts_comment(s, i));
                            assert forall|k: int| i <= k <= m implies !is_line_end(#[trigger] s[k]) by {}
                        }
                    }
                }
            } else {
                lemma_byte_pos_mono(s, j, m);
                if kind is Emit {
                    assert(t == seq![t[0]] + rest);
                    assert(t[0].span.end == byte_pos(s, j));
                    if covered(t, byte_pos(s, m)) {
                        let k = choose|k: int| 0 <= k < t.len() && #[trigger] t[k].span.start
                            <= byte_pos(s, m) < t[k].span.end;
                        assert(k > 0);
                        assert(rest[k - 1] == t[k]);
                        assert(covered(rest, byte_pos(s, m)));
                    }
                    if covered(rest, byte_pos(s, m)) {
                        let k = choose|k: int| 0 <= k < rest.len() && #[trigger] rest[k].span.start
                            <= byte_pos(s, m) < rest[k].span.end;
                        assert(t[k + 1] == rest[k]);
                    }
                } else {
                    assert(t == rest);
                }
            }
        }
    }
}

/// The tokens of a text cover exactly its shown characters: the byte of a character lies
/// inside the span of a token exactly when the character is no blank, no line break, and
/// not in a comment.
pub proof fn law_lex_covers_shown_text(s: Seq<char>, m: int)
    requires
        lex_spec(s) is Some,
        seq_bytes(s) <= usize::MAX,
        0 <= m < s.len(),
    ensures
        covered(lex_spec(s)->Some_0, byte_pos(s, m)) <==> shown(s, m),
{
    lemma_lex_cover(s, 0, 0, 0);
}

/// The tokens of a text cover nonempty, non-overlapping byte ranges of it, in the order of
/// the text.
pub proof fn law_lex_spans(s: Seq<char>)
    requires
        lex_spec(s) is Some,
        seq_bytes(s) <= usize::MAX,
    ensures
        spans_ordered(lex_spec(s)->Some_0, 0, seq_bytes(s)),
{
    lemma_lex_from_spans(s, 0, 0, 0);
    assert(s.take(0) =~= Seq::<char>::empty());
}

proof fn lemma_digits_step(w: Seq<char>, k: int)
    requires
        0 <= k < w.len(),
    ensures
        digits_value(w.take(k + 1)) == digits_value(w.take(k)) * 10 + (code(w[k]) - 48),
{
    assert(w.take(k + 1).drop_last() =~= w.take(k));
}

proof fn lemma_digits_mono(w: Seq<char>, k: int, m: int)
    requires
        0 <= k <= m <= w.len(),
        forall|q: int| 0 <= q < w.len() ==> is_digit(#[trigger] w[q]),
    ensures
        digits_value(w.take(k)) <= digits_value(w.take(m)),
        0 <= digits_value(w.take(k)),
    decreases m - k,
{
    if k < m {
        lemma_digits_step(w, m - 1);
        lemma_digits_mono(w, k, m - 1);
    } else {
        lemma_digits_nonneg(w, k);
    }
}

proof fn lemma_digits_nonneg(w: Seq<char>, k: int)
    requires
        0 <= k <= w.len(),
        forall|q: int| 0 <= q < w.len() ==> is_digit(#[trigger] w[q]),
    ensures
        0 <= digits_value(w.take(k)),
    decreases k,
{
    if k > 0 {
        lemma_digits_step(w, k - 1);
        lemma_digits_nonneg(w, k - 1);
    }
}

// ---------------------------------------------------------------------------
// Executable lexer
// ---------------------------------------------------------------------------
fn is_digit_exec(c: char) -> (r: bool)
    ensures
        r == is_digit(c),
{
    let u = c as u32;
    48 <= u && u <= 57
}

fn is_ident_start_exec(c: char) -> (r: bool)
    ensures
        r == is_ident_start(c),
{
    let u = c as u32;
    (65 <= u && u <= 90) || (97 <= u && u <= 122) || u == 95
}

fn in_class_exec(k: &CharClass, c: char) -> (r: bool)
    ensures
        r == in_class(*k, c),
{
    match k {
        CharClass::IdentChar => is_ident_start_exec(c) || is_digit_exec(c),
        CharClass::Digit => is_digit_exec(c),
        CharClass::Blank => c == ' ' || c == '\t',
        CharClass::NotLineEnd => !(c == '\n' || c == '\r'),
    }
}

fn scan_while_exec(s: &Vec<char>, k: usize, cl: CharClass) -> (r: usize)
    requires
        k <= s.len(),
    ensures
        r == scan_while(s@, k as int, cl),
        k <= r <= s.len(),
{
    proof {
        lemma_scan_while(s@, k as int, cl);
    }
    let mut m = k;
    while m < s.len() && in_class_exec(&cl, s[m])
        invariant
            k <= m <= s.len(),
            scan_while(s@, m as int, cl) == scan_while(s@, k as int, cl),
        decreases s.len() - m,
    {
        m = m + 1;
    }
    m
}

fn utf8_len_exec(c: char) -> (r: usize)
    ensures
        r == utf8_len(c),
{
    let u = c as u32;
    if u < 0x80 {
        1
    } else if u < 0x800 {
        2
    } else if u < 0x10000 {
        3
    } else {
        4
    }
}

/// Advances the byte offset `b` of index `i` to that of index `j`.
fn advance_bytes(s: &Vec<char>, i: usize, j: usize, b: usize) -> (r: usize)
    requires
        i <= j <= s.len(),
        b == byte_pos(s@, i as int),
        seq_bytes(s@) <= usize::MAX,
    ensures
        r == byte_pos(s@, j as int),
{
    let mut k = i;
    let mut nb = b;
    while k < j
        invariant
            i <= k <= j <= s.len(),
            nb == byte_pos(s@, k as int),
            seq_bytes(s@) <= usize::MAX,
        decreases j - k,
    {
        proof {
            lemma_byte_pos_step(s@, k as int);
            lemma_byte_pos_mono(s@, k + 1, s@.len() as int);
            lemma_byte_pos_total(s@);
        }
        nb = nb + utf8_len_exec(s[k]);
        k = k + 1;
    }
    nb
}

/// The value of the digit run `s[i..j]`, or `None` where it does not fit in `i64`.
fn digits_exec(s: &Vec<char>, i: usize, j: usize) -> (r: Option<i64>)
    requires
        i <= j <= s.len(),
        forall|q: int| i <= q < j ==> is_digit(#[trigger] s@[q]),
    ensures
        match r {
            Some(v) => v == digits_value(s@.subrange(i as int, j as int)),
            None => digits_value(s@.subrange(i as int, j as int)) > i64::MAX,
        },
{
    let ghost w = s@.subrange(i as int, j as int);
    assert(forall|q: int| 0 <= q < w.len() ==> is_digit(#[trigger] w[q])) by {
        assert forall|q: int| 0 <= q < w.len() implies is_digit(#[trigger] w[q]) by {
            assert(w[q] == s@[i + q]);
        }
    }
    let mut v: i64 = 0;
    let mut k = i;
    assert(w.take(0) =~= Seq::<char>::empty());
    while k < j
        invariant
            i <= k <= j <= s.len(),
            w == s@.subrange(i as int, j as int),
            forall|q: int| 0 <= q < w.len() ==> is_digit(#[trigger] w[q]),
            v == digits_value(w.take(k - i)),
        decreases j - k,
    {
        proof {
            lemma_digits_step(w, k - i);
            lemma_digits_nonneg(w, k - i);
            assert(w[k - i] == s@[k as int]);
        }
        let d = (s[k] as u32 - 48) as i64;
        match v.checked_mul(10) {
            Some(t) => match t.checked_add(d) {
                Some(u) => {
                    v = u;
                },
                None => {
                    proof {
                        lemma_digits_mono(w, k - i + 1, w.len() as int);
                        assert(w.take(w.len() as int) =~= w);
                    }
                    return None;
                },
            },
            None => {
                proof {
                    lemma_digits_mono(w, k - i + 1, w.len() as int);
                    assert(w.take(w.len() as int) =~= w);
                }
                return None;
            },
        }
        k = k + 1;
    }
    assert(w.take(j - i) =~= w);
    Some(v)
}

/// Whether `s[i..j]` spells the word `kw`.
fn word_is(s: &Vec<char>, i: usize, j: usize, kw: &Vec<char>) -> (r: bool)
    requires
        i <= j <= s.len(),
    ensures
        r == (s@.subrange(i as int, j as int) == kw@),
{
    if j - i != kw.len() {
        assert(s@.subrange(i as int, j as int).len() != kw@.len());
        return false;
    }
    let mut k: usize = 0;
    while k < kw.len()
        invariant
            i <= j <= s.len(),
            j - i == kw.len(),
            k <= kw.len(),
            forall|q: int| 0 <= q < k ==> s@[i + q] == kw@[q],
        decreases kw.len() - k,
    {
        if s[i + k] != kw[k] {
            assert(s@.subrange(i as int, j as int)[k as int] != kw@[k as int]);
            return false;
        }
        k = k + 1;
    }
    assert(s@.subrange(i as int, j as int) =~= kw@);
    true
}

/// The tag of the word `s[i..j]`: a keyword's own tag, else `NAME`.
fn keyword_or_identifier(s: &Vec<char>, i: usize, j: usize) -> (r: TokenTag)
    requires
        i <= j <= s.len(),
    ensures
        r == keyword_tag(s@.subrange(i as int, j as int)),
{
    let ghost w = s@.subrange(i as int, j as int);
    if word_is(s, i, j, &vec!['b', 'o', 'o', 'l']) {
        TokenTag::BOOL
    } else if word_is(s, i, j, &vec!['i', 'n', 't']) {
        TokenTag::INT
    } else if word_is(s, i, j, &vec!['u', 'n', 'i', 't']) {
        TokenTag::UNIT
    } else if word_is(s, i, j, &vec!['t', 'r', 'u', 'e']) {
        TokenTag::TRUE
    } else if word_is(s, i, j, &vec!['f', 'a', 'l', 's', 'e']) {
        TokenTag::FALSE
    } else if word_is(s, i, j, &vec!['c', 'o', 'n', 't', 'i', 'n', 'u', 'e']) {
        TokenTag::CONTINUE
    } else if word_is(s, i, j, &vec!['i', 'f']) {
        TokenTag::IF
    } else if word_is(s, i, j, &vec!['e', 'l', 's', 'e']) {
        TokenTag::ELSE
    } else if word_is(s, i, j, &vec!['w', 'h', 'i', 'l', 'e']) {
        TokenTag::WHILE
    } else if word_is(s, i, j, &vec!['f', 'o', 'r']) {
        TokenTag::FOR
    } else if word_is(s, i, j, &vec!['b', 'r', 'e', 'a', 'k']) {
        TokenTag::BREAK
    } else if word_is(s, i, j, &vec!['r', 'e', 't', 'u', 'r', 'n']) {
        TokenTag::RETURN
    } else if word_is(s, i, j, &vec!['m', 'a', 'i', 'n']) {
        TokenTag::MAIN
    } else {
        TokenTag::NAME
    }
}

fn punct2_exec(a: char, b: char) -> (r: Option<TokenTag>)
    ensures
        r == punct2(a, b),
{
    if a == '=' && b == '=' {
        Some(TokenTag::EQEQ)
    } else if a == '!' && b == '=' {
        Some(TokenTag::NOTEQ)
    } else if a == '>' && b == '=' {
        Some(TokenTag::GEQ)
    } else if a == '<' && b == '=' {
        Some(TokenTag::LEQ)
    } else if a == '&' && b == '&' {
        Some(TokenTag::AND)
    } else if a == '|' && b == '|' {
        Some(TokenTag::OR)
    } else {
        None
    }
}

/// The tag of a one-character punctuation or operator.
fn punctuation(a: char) -> (r: Option<TokenTag>)
    ensures
        r == punct1(a),
{
    if a == ';' {
        Some(TokenTag::SEMICOLON)
    } else if a == ',' {
        Some(TokenTag::COMMA)
    } else if a == '{' {
        Some(TokenTag::LCURLY)
    } else if a == '}' {
        Some(TokenTag::RCURLY)
    } else if a == '(' {
        Some(TokenTag::LPAREN)
    } else if a == ')' {
        Some(TokenTag::RPAREN)
    } else if a == '[' {
        Some(TokenTag::LSQUARE)
    } else if a == ']' {
        Some(TokenTag::RSQUARE)
    } else if a == '=' {
        Some(TokenTag::EQ)
    } else if a == '>' {
        Some(TokenTag::GT)
    } else if a == '<' {
        Some(TokenTag::LT)
    } else if a == '!' {
        Some(TokenTag::NOT)
    } else if a == '+' {
        Some(TokenTag::PLUS)
    } else if a == '-' {
        Some(TokenTag::MINUS)
    } else if a == '*' {
        Some(TokenTag::TIMES)
    } else if a == '/' {
        Some(TokenTag::DIVIDE)
    } else if a == '%' {
        Some(TokenTag::MOD)
    } else {
        None
    }
}

/// The characters of a text, in order.
fn text_chars(src: &str) -> (r: Vec<char>)
    ensures
        r@ == src@,
{
    let n = src.unicode_len();
    let mut out: Vec<char> = Vec::new();
    let mut k: usize = 0;
    while k < n
        invariant
            n == src@.len(),
            k <= n,
            out@ == src@.take(k as int),
        decreases n - k,
    {
        let c = src.get_char(k);
        out.push(c);
        k = k + 1;
        assert(out@ =~= src@.take(k as int));
    }
    assert(src@.take(n as int) =~= src@);
    out
}

/// A lexeme as the executable lexer finds it.
enum Scanned {
    Skip,
    Newline,
    Emit(TokenTag, Option<TokenLexeme>),
    Overflow,
}

spec fn scanned_matches(x: Scanned, y: Lexed) -> bool {
    match (x, y) {
        (Scanned::Skip, Lexed::Skip) => true,
        (Scanned::Newline, Lexed::Newline) => true,
        (Scanned::Overflow, Lexed::Overflow) => true,
        (Scanned::Emit(t, l), Lexed::Emit(t2, l2)) => t == t2 && opt_lexeme_view(l) == l2,
        _ => false,
    }
}

/// The lexeme found at index `i` of `s`: what it amounts to and where it ends.
fn scan_token_exec(src: &str, s: &Vec<char>, i: usize) -> (r: (Scanned, usize))
    requires
        s@ == src@,
        i < s.len(),
    ensures
        scanned_matches(r.0, scan_token(s@, i as int).0),
        r.1 == scan_token(s@, i as int).1,
        i < r.1 <= s.len(),
{
    let c = s[i];
    let n = s.len();
    if is_ident_start_exec(c) {
        let j = scan_while_exec(s, i + 1, CharClass::IdentChar);
        let tag = keyword_or_identifier(s, i, j);
        if tag == TokenTag::NAME {
            let name = src.substring_char(i, j).to_owned();
            (Scanned::Emit(tag, Some(TokenLexeme::Name(name))), j)
        } else {
            (Scanned::Emit(tag, None), j)
        }
    } else if is_digit_exec(c) {
        let j = scan_while_exec(s, i + 1, CharClass::Digit);
        proof {
            lemma_scan_while(s@, i + 1, CharClass::Digit);
        }
        match digits_exec(s, i, j) {
            Some(v) => (Scanned::Emit(TokenTag::INTLIT, Some(TokenLexeme::Int(v))), j),
            None => (Scanned::Overflow, j),
        }
    } else if c == '/' && i + 1 < n && s[i + 1] == '/' {
        (Scanned::Skip, scan_while_exec(s, i + 2, CharClass::NotLineEnd))
    } else if c == '\r' && i + 1 < n && s[i + 1] == '\n' {
        (Scanned::Newline, i + 2)
    } else if c == '\n' || c == '\r' {
        (Scanned::Newline, i + 1)
    } else if c == ' ' || c == '\t' {
        (Scanned::Skip, scan_while_exec(s, i + 1, CharClass::Blank))
    } else {
        let two = if i + 1 < n {
            punct2_exec(c, s[i + 1])
        } else {
            None
        };
        match two {
            Some(t) => (Scanned::Emit(t, None), i + 2),
            None => match punctuation(c) {
                Some(t) => (Scanned::Emit(t, None), i + 1),
                None => (Scanned::Emit(TokenTag::UNKNOWN, Some(TokenLexeme::Unknown(c))), i + 1),
            },
        }
    }
}

/// The tokens of `src`, or `None` exactly where an integer literal does not fit in `i64`.
pub fn try_lex(src: &str) -> (r: Option<Vec<Token>>)
    requires
        seq_bytes(src@) <= usize::MAX,
    ensures
        match r {
            Some(v) => lex_spec(src@) == Some(tokens_view(v@)),
            None => lex_spec(src@) is None,
        },
{
    let s = text_chars(src);
    let n = s.len();
    let mut out: Vec<Token> = Vec::new();
    let mut i: usize = 0;
    let mut b: usize = 0;
    let mut row: usize = 0;
    let mut ls: usize = 0;
    proof {
        assert(s@.take(0) =~= Seq::<char>::empty());
        assert(tokens_view(out@) =~= Seq::<TokenV>::empty());
        assert(prepend(tokens_view(out@), lex_from(s@, 0, 0, 0)) =~= lex_from(s@, 0, 0, 0));
    }
    while i < n
        invariant
            n == s.len(),
            s@ == src@,
            seq_bytes(s@) <= usize::MAX,
            i <= n,
            b == byte_pos(s@, i as int),
            ls <= b,
            row <= i,
            lex_spec(s@) == prepend(tokens_view(out@), lex_from(s@, i as int, row as int, ls as int)),
        decreases n - i,
    {
        let (kind, j) = scan_token_exec(src, &s, i);
        let nb = advance_bytes(&s, i, j, b);
        proof {
            lemma_byte_pos_mono(s@, i as int, j as int);
        }
        match kind {
            Scanned::Skip => {},
            Scanned::Newline => {
                row = row + 1;
                ls = nb;
            },
            Scanned::Overflow => {
                return None;
            },
            Scanned::Emit(tag, lexeme) => {
                let t = Token::new(tag, b, nb, row as u32, (b - ls) as u32, lexeme);
                let ghost old_out = out@;
                out.push(t);
                proof {
                    assert(tokens_view(out@) =~= tokens_view(old_out) + seq![t@]);
                    let rest = lex_from(s@, j as int, row as int, ls as int);
                    if rest is Some {
                        assert(tokens_view(out@) + rest.unwrap() =~= tokens_view(old_out) + (
                        seq![t@] + rest.unwrap()));
                    }
                }
            },
        }
        i = j;
        b = nb;
    }
    proof {
        assert(tokens_view(out@) + Seq::<TokenV>::empty() =~= tokens_view(out@));
    }
    Some(out)
}

/// Whether every integer literal of `src` fits in `i64`, so that `lex` succeeds.
pub open spec fn lexable(src: Seq<char>) -> bool {
    lex_spec(src) is Some
}

/// The tokens of `src`.
pub fn lex(src: &str) -> (r: Vec<Token>)
    requires
        seq_bytes(src@) <= usize::MAX,
        lexable(src@),
    ensures
        lex_spec(src@) == Some(tokens_view(r@)),
{
    match try_lex(src) {
        Some(v) => v,
        None => Vec::new(),
    }
}

} // verus!
