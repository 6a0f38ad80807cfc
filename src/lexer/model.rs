//! The lexer as a mathematical function of the source characters.

use vstd::prelude::*;

use super::{LexError, LexType, TokType};

verus! {

/// What a token carries, as plain values.
pub enum TokenKind {
    Ident(Seq<char>),
    Int(int),
    /// The whole part and the digits after the point.
    Float(int, Seq<u8>),
    Str(Seq<char>),
    /// A token without payload.
    Plain(TokType),
}

/// A token with its 1-based position.
pub struct TokenView {
    pub kind: TokenKind,
    pub line: nat,
    pub column: nat,
}

pub open spec fn token_views(v: Seq<LexType>) -> Seq<TokenView> {
    v.map_values(|t: LexType| t@)
}

// ---------------------------------------------------------------------------
// Positions
/// The position after reading `c` from position `p`: a newline starts the
/// next line at column 1, any other character moves one column on.
pub open spec fn advance(p: (nat, nat), c: char) -> (nat, nat) {
    if c == '\n' {
        (p.0 + 1, 1)
    } else {
        (p.0, p.1 + 1)
    }
}

/// The (line, column) of the character at index `i` of `s`
/// (for `i == s.len()`, the position just past the end).
pub open spec fn pos_at(s: Seq<char>, i: int) -> (nat, nat)
    decreases i,
{
    if i <= 0 {
        (1, 1)
    } else {
        advance(pos_at(s, i - 1), s[i - 1])
    }
}

/// The number of newline characters in `s`.
pub open spec fn newlines(s: Seq<char>) -> nat
    decreases s.len(),
{
    if s.len() == 0 {
        0
    } else {
        newlines(s.drop_last()) + if s.last() == '\n' {
            1nat
        } else {
            0nat
        }
    }
}

// ---------------------------------------------------------------------------
// Character classes
pub open spec fn is_digit(c: char) -> bool {
    '0' <= c <= '9'
}

pub open spec fn digit_value(c: char) -> nat {
    (c as int - '0' as int) as nat
}

pub open spec fn is_ident_start(c: char) -> bool {
    ('a' <= c <= 'z') || ('A' <= c <= 'Z') || c == '_' || c == '$'
}

pub open spec fn is_ident_char(c: char) -> bool {
    ('a' <= c <= 'z') || ('A' <= c <= 'Z') || ('0' <= c <= '9') || c == '_'
}

pub open spec fn is_blank(c: char) -> bool {
    c == ' ' || c == '\t' || c == '\r' || c == '\n'
}

/// The number a string of decimal digits denotes.
pub open spec fn digits_value(w: Seq<char>) -> nat
    decreases w.len(),
{
    if w.len() == 0 {
        0
    } else {
        digits_value(w.drop_last()) * 10 + digit_value(w.last())
    }
}

/// The value of each digit of `w`.
pub open spec fn digit_values(w: Seq<char>) -> Seq<u8> {
    w.map_values(|c: char| digit_value(c) as u8)
}

// ---------------------------------------------------------------------------
// Extents
/// The end of the run of digits that starts at `i`.
pub open spec fn digits_end(s: Seq<char>, i: int) -> int
    decreases s.len() - i,
{
    if 0 <= i < s.len() && is_digit(s[i]) {
        digits_end(s, i + 1)
    } else {
        i
    }
}

/// The end of the run of identifier characters that starts at `i`.
pub open spec fn ident_end(s: Seq<char>, i: int) -> int
    decreases s.len() - i,
{
    if 0 <= i < s.len() && is_ident_char(s[i]) {
        ident_end(s, i + 1)
    } else {
        i
    }
}

/// The index of the first `q` at or after `i`, or `s.len()` if there is none.
pub open spec fn find_char(s: Seq<char>, i: int, q: char) -> int
    decreases s.len() - i,
{
    if 0 <= i < s.len() && s[i] != q {
        find_char(s, i + 1, q)
    } else if i < s.len() {
        i
    } else {
        s.len() as int
    }
}

/// The index of the first `*/` at or after `i`, or `s.len()` if there is none.
pub open spec fn comment_close(s: Seq<char>, i: int) -> int
    decreases s.len() - i,
{
    if 0 <= i && i + 1 < s.len() {
        if s[i] == '*' && s[i + 1] == '/' {
            i
        } else {
            comment_close(s, i + 1)
        }
    } else {
        s.len() as int
    }
}

// ---------------------------------------------------------------------------
// Token tables
/// The token that a character makes on its own.
pub open spec fn single_token(c: char) -> Option<TokType> {
    if c == '(' {
        Some(TokType::LParen)
    } else if c == ')' {
        Some(TokType::RParen)
    } else if c == '{' {
        Some(TokType::LBrace)
    } else if c == '}' {
        Some(TokType::RBrace)
    } else if c == '[' {
        Some(TokType::LBracket)
    } else if c == ']' {
        Some(TokType::RBracket)
    } else if c == ';' {
        Some(TokType::Semicolon)
    } else if c == '=' {
        Some(TokType::Assign)
    } else if c == '<' {
        Some(TokType::Lt)
    } else if c == '>' {
        Some(TokType::Gt)
    } else if c == '-' {
        Some(TokType::Minus)
    } else if c == '~' {
        Some(TokType::Tilde)
    } else if c == '!' {
        Some(TokType::Exclamation)
    } else if c == '+' {
        Some(TokType::Plus)
    } else if c == '*' {
        Some(TokType::Multi)
    } else if c == '%' {
        Some(TokType::Mod)
    } else if c == '/' {
        Some(TokType::Splash)
    } else if c == '&' {
        Some(TokType::SingleAnd)
    } else if c == '|' {
        Some(TokType::InclusiveOr)
    } else if c == '?' {
        Some(TokType::QuestionMark)
    } else if c == ':' {
        Some(TokType::Colon)
    } else if c == ',' {
        Some(TokType::Comma)
    } else if c == '#' {
        Some(TokType::Highlight)
    } else if c == '.' {
        Some(TokType::Dot)
    } else {
        None
    }
}

/// The operator that the two characters `c d` make together.
pub open spec fn double_token(c: char, d: char) -> Option<TokType> {
    if c == '=' && d == '=' {
        Some(TokType::EqOp)
    } else if c == '<' && d == '=' {
        Some(TokType::LeOp)
    } else if c == '<' && d == '<' {
        Some(TokType::LeftOp)
    } else if c == '>' && d == '=' {
        Some(TokType::GeOp)
    } else if c == '>' && d == '>' {
        Some(TokType::RightOp)
    } else if c == '-' && d == '-' {
        Some(TokType::DecOp)
    } else if c == '-' && d == '=' {
        Some(TokType::SubAssign)
    } else if c == '!' && d == '=' {
        Some(TokType::NeOp)
    } else if c == '+' && d == '+' {
        Some(TokType::IncOp)
    } else if c == '+' && d == '=' {
        Some(TokType::AddAssign)
    } else if c == '*' && d == '=' {
        Some(TokType::MulAssign)
    } else if c == '%' && d == '=' {
        Some(TokType::ModAssign)
    } else if c == '/' && d == '=' {
        Some(TokType::DivAssign)
    } else if c == '&' && d == '&' {
        Some(TokType::AndOp)
    } else if c == '&' && d == '=' {
        Some(TokType::AndAssign)
    } else if c == '|' && d == '|' {
        Some(TokType::OrOp)
    } else if c == '|' && d == '=' {
        Some(TokType::OrAssign)
    } else {
        None
    }
}

/// The token for a word: a keyword, or else an identifier.
pub open spec fn word_token(w: Seq<char>) -> TokenKind {
    if w == seq!['m', 'o', 'd', 'u', 'l', 'e'] {
        TokenKind::Plain(TokType::Module)
    } else if w == seq!['i', 'f'] {
        TokenKind::Plain(TokType::IF)
    } else if w == seq!['e', 'l', 's', 'e'] {
        TokenKind::Plain(TokType::ELSE)
    } else {
        TokenKind::Ident(w)
    }
}

// ---------------------------------------------------------------------------
// One step
/// What the lexer does at one index: skip text, emit a token, or fail.
/// The index is where scanning resumes.
pub enum Scan {
    Skip(int),
    Emit(TokenKind, int),
    Fail(LexError),
}

/// The error for the character at index `i`, which begins no token.
pub open spec fn unexpected_at(s: Seq<char>, i: int) -> LexError {
    LexError::UnexpectedCharacter {
        ch: s[i],
        line: pos_at(s, i).0 as usize,
        column: pos_at(s, i).1 as usize,
    }
}

/// One step of the lexer at index `i` (`0 <= i < s.len()`): the longest
/// token that starts there wins.
pub open spec fn scan(s: Seq<char>, i: int) -> Scan {
    let c = s[i];
    let line = pos_at(s, i).0 as usize;
    let column = pos_at(s, i).1 as usize;
    if is_blank(c) {
        Scan::Skip(i + 1)
    } else if c == '"' || c == '\'' {
        let j = find_char(s, i + 1, c);
        if j < s.len() {
            Scan::Emit(TokenKind::Str(s.subrange(i + 1, j)), j + 1)
        } else {
            Scan::Fail(LexError::UnterminatedString { line, column })
        }
    } else if is_digit(c) {
        let j = digits_end(s, i);
        let v = digits_value(s.subrange(i, j));
        if v > i64::MAX {
            Scan::Fail(LexError::IntegerTooLarge { line, column })
        } else if j + 1 < s.len() && s[j] == '.' && is_digit(s[j + 1]) {
            let k = digits_end(s, j + 1);
            Scan::Emit(TokenKind::Float(v as int, digit_values(s.subrange(j + 1, k))), k)
        } else {
            Scan::Emit(TokenKind::Int(v as int), j)
        }
    } else if is_ident_start(c) {
        let j = ident_end(s, i + 1);
        Scan::Emit(word_token(s.subrange(i, j)), j)
    } else if c == '/' && i + 1 < s.len() && s[i + 1] == '/' {
        Scan::Skip(find_char(s, i + 2, '\n'))
    } else if c == '/' && i + 1 < s.len() && s[i + 1] == '*' {
        let k = comment_close(s, i + 2);
        if k < s.len() {
            Scan::Skip(k + 2)
        } else {
            Scan::Fail(LexError::UnterminatedComment { line, column })
        }
    } else if i + 1 < s.len() && double_token(c, s[i + 1]) is Some {
        Scan::Emit(TokenKind::Plain(double_token(c, s[i + 1])->Some_0), i + 2)
    } else if single_token(c) is Some {
        Scan::Emit(TokenKind::Plain(single_token(c)->Some_0), i + 1)
    } else {
        Scan::Fail(unexpected_at(s, i))
    }
}

/// Where scanning resumes after a step that does not fail.
pub open spec fn scan_next(r: Scan) -> int {
    match r {
        Scan::Skip(j) => j,
        Scan::Emit(_, j) => j,
        Scan::Fail(_) => 0,
    }
}

/// The tokens of `s` from index `i` on, ending with the end-of-stream
/// token at the position past the last character; or the first error.
pub open spec fn lex_from(s: Seq<char>, i: int) -> Result<Seq<TokenView>, LexError>
    decreases s.len() - i,
{
    if i < 0 || i >= s.len() {
        Ok(seq![TokenView { kind: TokenKind::Plain(TokType::EOF), line: pos_at(s, s.len() as int).0, column: pos_at(s, s.len() as int).1 }])
    } else {
        proof {
            lemma_scan_advances(s, i);
        }
        match scan(s, i) {
            Scan::Skip(j) => lex_from(s, j),
            Scan::Emit(k, j) => match lex_from(s, j) {
                Ok(rest) => Ok(
                    seq![TokenView { kind: k, line: pos_at(s, i).0, column: pos_at(s, i).1 }]
                        + rest,
                ),
                Err(e) => Err(e),
            },
            Scan::Fail(e) => Err(e),
        }
    }
}

/// The tokens of a whole source text.
pub open spec fn lex_spec(s: Seq<char>) -> Result<Seq<TokenView>, LexError> {
    lex_from(s, 0)
}

// ---------------------------------------------------------------------------
// Lemmas on extents
pub proof fn lemma_digits_end(s: Seq<char>, i: int)
    requires
        0 <= i <= s.len(),
    ensures
        i <= digits_end(s, i) <= s.len(),
        forall|k: int| i <= k < digits_end(s, i) ==> is_digit(#[trigger] s[k]),
        digits_end(s, i) < s.len() ==> !is_digit(s[digits_end(s, i)]),
    decreases s.len() - i,
{
    if i < s.len() && is_digit(s[i]) {
        lemma_digits_end(s, i + 1);
    }
}

pub proof fn lemma_ident_end(s: Seq<char>, i: int)
    requires
        0 <= i <= s.len(),
    ensures
        i <= ident_end(s, i) <= s.len(),
        forall|k: int| i <= k < ident_end(s, i) ==> is_ident_char(#[trigger] s[k]),
        ident_end(s, i) < s.len() ==> !is_ident_char(s[ident_end(s, i)]),
    decreases s.len() - i,
{
    if i < s.len() && is_ident_char(s[i]) {
        lemma_ident_end(s, i + 1);
    }
}

pub proof fn lemma_find_char(s: Seq<char>, i: int, q: char)
    requires
        0 <= i <= s.len(),
    ensures
        i <= find_char(s, i, q) <= s.len(),
        forall|k: int| i <= k < find_char(s, i, q) ==> #[trigger] s[k] != q,
        find_char(s, i, q) < s.len() ==> s[find_char(s, i, q)] == q,
    decreases s.len() - i,
{
    if i < s.len() && s[i] != q {
        lemma_find_char(s, i + 1, q);
    }
}

pub proof fn lemma_comment_close(s: Seq<char>, i: int)
    requires
        0 <= i <= s.len(),
    ensures
        i <= comment_close(s, i) <= s.len(),
        comment_close(s, i) < s.len() ==> comment_close(s, i) + 1 < s.len() && s[comment_close(
            s,
            i,
        )] == '*' && s[comment_close(s, i) + 1] == '/',
        forall|k: int|
            i <= k < comment_close(s, i) && k + 1 < s.len() ==> !(#[trigger] s[k] == '*' && s[k
                + 1] == '/'),
    decreases s.len() - i,
{
    if i + 1 < s.len() && !(s[i] == '*' && s[i + 1] == '/') {
        lemma_comment_close(s, i + 1);
    }
}

/// Every step that does not fail moves forward and stays within the text.
pub proof fn lemma_scan_advances(s: Seq<char>, i: int)
    requires
        0 <= i < s.len(),
    ensures
        !(scan(s, i) is Fail) ==> i < scan_next(scan(s, i)) <= s.len(),
{
    let c = s[i];
    lemma_find_char(s, i + 1, c);
    lemma_digits_end(s, i);
    if i + 1 < s.len() {
        lemma_digits_end(s, i + 1);
        lemma_find_char(s, i + 2, '\n');
    }
    if i + 2 <= s.len() {
        lemma_comment_close(s, i + 2);
    }
    lemma_ident_end(s, i + 1);
    let j = digits_end(s, i);
    if j + 1 < s.len() && s[j] == '.' && is_digit(s[j + 1]) {
        lemma_digits_end(s, j + 1);
    }
}

} // verus!
