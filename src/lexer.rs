//! Tokens and the lexer.
//!
//! Lines and columns are 1-based; every token records the position of its
//! first character. A newline moves to column 1 of the next line; every
//! other character, inside comments and string literals too, moves one column on.
//!
//! Where the language leaves a case open, the lexer fails rather than guess:
//! a string literal or block comment that is still open at the end of the
//! input, and an integer constant above `i64::MAX`, are errors positioned at
//! their first character. A point makes a float constant only when a digit
//! follows it (`20.` is an integer constant and a dot).

use vstd::prelude::*;

pub mod model;
mod scan;
pub mod theorems;

use crate::text::{decimal, push_char, push_decimal, push_str};
use model::{lex_from, lex_spec, pos_at, scan, token_views, Scan, TokenKind, TokenView};
use scan::{
    comment_close_of, digits_end_of, digits_of, double_token_of, find_char_of, ident_end_of,
    is_digit_char, is_ident_start_char, number_value, single_token_of, string_of, word_token_of,
};

verus! {

/// A token together with the 1-based line and column of its first character.
#[derive(Debug, PartialEq, Clone)]
pub struct LexType {
    pub token: TokType,
    pub line: usize,
    pub collum: usize,
}

impl View for LexType {
    type V = TokenView;

    open spec fn view(&self) -> TokenView {
        TokenView { kind: self.token@, line: self.line as nat, column: self.collum as nat }
    }
}

impl LexType {
    pub fn new(token: TokType, line: usize, collum: usize) -> (r: Self)
        ensures
            r.token == token,
            r.line == line,
            r.collum == collum,
    {
        Self { token, line, collum }
    }
}

/// A decimal fraction written `whole.digits`: its value is
/// `whole + fraction[0] / 10 + fraction[1] / 100 + ...`, held exactly.
#[derive(Debug, PartialEq, Clone)]
pub struct Decimal {
    pub whole: i64,
    pub fraction: Vec<u8>,
}

impl Decimal {
    /// A copy of the decimal.
    pub(crate) fn copied(&self) -> (r: Decimal)
        ensures
            r.whole == self.whole,
            r.fraction@ == self.fraction@,
    {
        let mut fraction: Vec<u8> = Vec::new();
        let mut k: usize = 0;
        while k < self.fraction.len()
            invariant
                k <= self.fraction@.len(),
                fraction@ =~= self.fraction@.take(k as int),
            decreases self.fraction@.len() - k,
        {
            fraction.push(self.fraction[k]);
            k = k + 1;
        }
        proof {
            assert(self.fraction@.take(k as int) =~= self.fraction@);
        }
        Decimal { whole: self.whole, fraction }
    }
}

impl LexType {
    /// A copy of the token with its position.
    pub(crate) fn copied(&self) -> (r: LexType)
        ensures
            r@ == self@,
    {
        LexType { token: self.token.copied(), line: self.line, collum: self.collum }
    }
}

/// The kind of a token; identifiers, constants and string literals carry their payload.
#[derive(Debug, PartialEq, Clone)]
pub enum TokType {
    LBrace,
    RBrace,
    LParen,
    RParen,
    LBracket,
    RBracket,
    Semicolon,
    Assign,
    Lt,
    Gt,
    Minus,
    Tilde,
    Exclamation,
    Plus,
    Multi,
    Splash,
    Colon,
    QuestionMark,
    Comma,
    Dot,
    SingleAnd,
    InclusiveOr,
    ExclusiveOr,
    Mod,
    Highlight,
    IDENTIFIER(String),
    IConstant(i64),
    FConstant(Decimal),
    StringLiteral(String),
    Module,
    IncOp,
    DecOp,
    LeftOp,
    RightOp,
    LeOp,
    GeOp,
    EqOp,
    NeOp,
    AndOp,
    OrOp,
    MulAssign,
    DivAssign,
    ModAssign,
    AddAssign,
    SubAssign,
    LeftAssign,
    RightAssign,
    AndAssign,
    XorAssign,
    OrAssign,
    EOF,
    IF,
    ELSE,
}

impl View for TokType {
    type V = TokenKind;

    open spec fn view(&self) -> TokenKind {
        match self {
            TokType::IDENTIFIER(s) => TokenKind::Ident(s@),
            TokType::IConstant(v) => TokenKind::Int(*v as int),
            TokType::FConstant(d) => TokenKind::Float(d.whole as int, d.fraction@),
            TokType::StringLiteral(s) => TokenKind::Str(s@),
            _ => TokenKind::Plain(*self),
        }
    }
}

/// Why lexing stopped, with the line and column where the offending text begins.
#[derive(Debug, PartialEq, Eq, Clone, Copy)]
pub enum LexError {
    /// A character that begins no token.
    UnexpectedCharacter { ch: char, line: usize, column: usize },
    /// A string literal without its closing quote.
    UnterminatedString { line: usize, column: usize },
    /// A block comment without its closing `*/`.
    UnterminatedComment { line: usize, column: usize },
    /// An integer constant above `i64::MAX`.
    IntegerTooLarge { line: usize, column: usize },
}

/// `text` followed by ` at <line>:<column>`.
pub open spec fn positioned(text: Seq<char>, line: usize, column: usize) -> Seq<char> {
    text + " at "@ + decimal(line as nat) + seq![':'] + decimal(column as nat)
}

impl LexError {
    /// The diagnostic text of the error.
    pub open spec fn text(self) -> Seq<char> {
        match self {
            LexError::UnexpectedCharacter { ch, line, column } => positioned(
                "unexpected Character "@.push(ch),
                line,
                column,
            ),
            LexError::UnterminatedString { line, column } => positioned(
                "unterminated string literal"@,
                line,
                column,
            ),
            LexError::UnterminatedComment { line, column } => positioned(
                "unterminated block comment"@,
                line,
                column,
            ),
            LexError::IntegerTooLarge { line, column } => positioned(
                "integer constant too large"@,
                line,
                column,
            ),
        }
    }

    /// Renders the error as `<what> at <line>:<column>`.
    pub fn message(&self) -> (r: String)
        ensures
            r@ == self.text(),
    {
        let mut s = String::new();
        let (line, column) = match *self {
            LexError::UnexpectedCharacter { ch, line, column } => {
                push_str(&mut s, "unexpected Character ");
                push_char(&mut s, ch);
                (line, column)
            },
            LexError::UnterminatedString { line, column } => {
                push_str(&mut s, "unterminated string literal");
                (line, column)
            },
            LexError::UnterminatedComment { line, column } => {
                push_str(&mut s, "unterminated block comment");
                (line, column)
            },
            LexError::IntegerTooLarge { line, column } => {
                push_str(&mut s, "integer constant too large");
                (line, column)
            },
        };
        push_str(&mut s, " at ");
        push_decimal(&mut s, line);
        push_char(&mut s, ':');
        push_decimal(&mut s, column);
        proof {
            assert(s@ =~= self.text());
        }
        s
    }
}

impl TokType {
    /// A copy of the token kind, payload included.
    pub(crate) fn copied(&self) -> (r: TokType)
        ensures
            r@ == self@,
    {
        match self {
            TokType::LBrace => TokType::LBrace,
            TokType::RBrace => TokType::RBrace,
            TokType::LParen => TokType::LParen,
            TokType::RParen => TokType::RParen,
            TokType::LBracket => TokType::LBracket,
            TokType::RBracket => TokType::RBracket,
            TokType::Semicolon => TokType::Semicolon,
            TokType::Assign => TokType::Assign,
            TokType::Lt => TokType::Lt,
            TokType::Gt => TokType::Gt,
            TokType::Minus => TokType::Minus,
            TokType::Tilde => TokType::Tilde,
            TokType::Exclamation => TokType::Exclamation,
            TokType::Plus => TokType::Plus,
            TokType::Multi => TokType::Multi,
            TokType::Splash => TokType::Splash,
            TokType::Colon => TokType::Colon,
            TokType::QuestionMark => TokType::QuestionMark,
            TokType::Comma => TokType::Comma,
            TokType::Dot => TokType::Dot,
            TokType::SingleAnd => TokType::SingleAnd,
            TokType::InclusiveOr => TokType::InclusiveOr,
            TokType::ExclusiveOr => TokType::ExclusiveOr,
            TokType::Mod => TokType::Mod,
            TokType::Highlight => TokType::Highlight,
            TokType::IDENTIFIER(s) => TokType::IDENTIFIER(s.clone()),
            TokType::IConstant(v) => TokType::IConstant(*v),
            TokType::FConstant(d) => TokType::FConstant(d.copied()),
            TokType::StringLiteral(s) => TokType::StringLiteral(s.clone()),
            TokType::Module => TokType::Module,
            TokType::IncOp => TokType::IncOp,
            TokType::DecOp => TokType::DecOp,
            TokType::LeftOp => TokType::LeftOp,
            TokType::RightOp => TokType::RightOp,
            TokType::LeOp => TokType::LeOp,
            TokType::GeOp => TokType::GeOp,
            TokType::EqOp => TokType::EqOp,
            TokType::NeOp => TokType::NeOp,
            TokType::AndOp => TokType::AndOp,
            TokType::OrOp => TokType::OrOp,
            TokType::MulAssign => TokType::MulAssign,
            TokType::DivAssign => TokType::DivAssign,
            TokType::ModAssign => TokType::ModAssign,
            TokType::AddAssign => TokType::AddAssign,
            TokType::SubAssign => TokType::SubAssign,
            TokType::LeftAssign => TokType::LeftAssign,
            TokType::RightAssign => TokType::RightAssign,
            TokType::AndAssign => TokType::AndAssign,
            TokType::XorAssign => TokType::XorAssign,
            TokType::OrAssign => TokType::OrAssign,
            TokType::EOF => TokType::EOF,
            TokType::IF => TokType::IF,
            TokType::ELSE => TokType::ELSE,
        }
    }

    /// Splits `input` into tokens, ending with `EOF` at the position just
    /// past the last character; on the first text that begins no token,
    /// the message of that error.
    pub fn lex(input: &str) -> (r: Result<Vec<LexType>, String>)
        requires
            input@.len() < usize::MAX,
        ensures
            match r {
                Ok(v) => lex_spec(input@) == Ok::<Seq<TokenView>, LexError>(token_views(v@)),
                Err(m) => lex_spec(input@) is Err && m@ == lex_spec(input@)->Err_0.text(),
            },
    {
        let chars = chars_of(input);
        match tokens_of(&chars) {
            Ok(v) => Ok(v),
            Err(e) => Err(e.message()),
        }
    }
}

/// One lexer step as computed: see `model::Scan`.
enum Step {
    Skip(usize),
    Emit(TokType, usize),
    Fail(LexError),
}

impl Step {
    spec fn view(self) -> Scan {
        match self {
            Step::Skip(j) => Scan::Skip(j as int),
            Step::Emit(t, j) => Scan::Emit(t@, j as int),
            Step::Fail(e) => Scan::Fail(e),
        }
    }
}

/// `ts` put in front of the tokens of `r`, if it has any.
spec fn prefixed(
    ts: Seq<TokenView>,
    r: Result<Seq<TokenView>, LexError>,
) -> Result<Seq<TokenView>, LexError> {
    match r {
        Ok(rest) => Ok(ts + rest),
        Err(e) => Err(e),
    }
}

proof fn lemma_pos_bounds(s: Seq<char>, i: int)
    requires
        0 <= i <= s.len(),
    ensures
        1 <= pos_at(s, i).0 <= i + 1,
        1 <= pos_at(s, i).1 <= i + 1,
    decreases i,
{
    if i > 0 {
        lemma_pos_bounds(s, i - 1);
    }
}

/// The position of index `j`, computed on from that of index `i`.
fn advance_to(chars: &Vec<char>, i: usize, j: usize, line: usize, col: usize) -> (r: (usize, usize))
    requires
        i <= j <= chars@.len() < usize::MAX,
        line == pos_at(chars@, i as int).0,
        col == pos_at(chars@, i as int).1,
    ensures
        r.0 == pos_at(chars@, j as int).0,
        r.1 == pos_at(chars@, j as int).1,
{
    let mut k = i;
    let mut line = line;
    let mut col = col;
    while k < j
        invariant
            i <= k <= j <= chars@.len() < usize::MAX,
            line == pos_at(chars@, k as int).0,
            col == pos_at(chars@, k as int).1,
        decreases j - k,
    {
        proof {
            lemma_pos_bounds(chars@, k as int);
        }
        if chars[k] == '\n' {
            line = line + 1;
            col = 1;
        } else {
            col = col + 1;
        }
        k = k + 1;
    }
    (line, col)
}

/// The lexer step at index `i`, whose position is `(line, col)`.
fn scan_at(chars: &Vec<char>, i: usize, line: usize, col: usize) -> (r: Step)
    requires
        i < chars@.len() < usize::MAX,
        line == pos_at(chars@, i as int).0,
        col == pos_at(chars@, i as int).1,
    ensures
        r@ == scan(chars@, i as int),
{
    let ghost s = chars@;
    let n = chars.len();
    let c = chars[i];
    proof {
        model::lemma_scan_advances(s, i as int);
        model::lemma_find_char(s, i + 1, c);
        model::lemma_digits_end(s, i as int);
        model::lemma_ident_end(s, i + 1);
    }
    if c == ' ' || c == '\t' || c == '\r' || c == '\n' {
        return Step::Skip(i + 1);
    }
    if c == '"' || c == '\'' {
        let j = find_char_of(chars, i + 1, c);
        if j < n {
            return Step::Emit(TokType::StringLiteral(string_of(chars, i + 1, j)), j + 1);
        } else {
            return Step::Fail(LexError::UnterminatedString { line, column: col });
        }
    }
    if is_digit_char(c) {
        let j = digits_end_of(chars, i);
        match number_value(chars, i, j) {
            None => {
                return Step::Fail(LexError::IntegerTooLarge { line, column: col });
            },
            Some(v) => {
                if j + 1 < n && chars[j] == '.' && is_digit_char(chars[j + 1]) {
                    let k = digits_end_of(chars, j + 1);
                    proof {
                        model::lemma_digits_end(s, j + 1);
                    }
                    let fraction = digits_of(chars, j + 1, k);
                    return Step::Emit(TokType::FConstant(Decimal { whole: v, fraction }), k);
                } else {
                    return Step::Emit(TokType::IConstant(v), j);
                }
            },
        }
    }
    if is_ident_start_char(c) {
        let j = ident_end_of(chars, i + 1);
        return Step::Emit(word_token_of(chars, i, j), j);
    }
    if c == '/' && i + 1 < n && chars[i + 1] == '/' {
        return Step::Skip(find_char_of(chars, i + 2, '\n'));
    }
    if c == '/' && i + 1 < n && chars[i + 1] == '*' {
        let k = comment_close_of(chars, i + 2);
        proof {
            model::lemma_comment_close(s, i + 2);
        }
        if k < n {
            return Step::Skip(k + 2);
        } else {
            return Step::Fail(LexError::UnterminatedComment { line, column: col });
        }
    }
    if i + 1 < n {
        match double_token_of(c, chars[i + 1]) {
            Some(t) => {
                return Step::Emit(t, i + 2);
            },
            None => {},
        }
    }
    match single_token_of(c) {
        Some(t) => Step::Emit(t, i + 1),
        None => Step::Fail(LexError::UnexpectedCharacter { ch: c, line, column: col }),
    }
}

/// The tokens of `chars`, or the first error.
fn tokens_of(chars: &Vec<char>) -> (r: Result<Vec<LexType>, LexError>)
    requires
        chars@.len() < usize::MAX,
    ensures
        r matches Ok(v) ==> lex_spec(chars@) == Ok::<Seq<TokenView>, LexError>(token_views(v@)),
        r matches Err(e) ==> lex_spec(chars@) == Err::<Seq<TokenView>, LexError>(e),
{
    let ghost s = chars@;
    let n = chars.len();
    let mut out: Vec<LexType> = Vec::new();
    let mut i: usize = 0;
    let mut line: usize = 1;
    let mut col: usize = 1;
    while i < n
        invariant
            i <= n == s.len() < usize::MAX,
            s == chars@,
            line == pos_at(s, i as int).0,
            col == pos_at(s, i as int).1,
            prefixed(token_views(out@), lex_from(s, i as int)) == lex_from(s, 0),
        decreases n - i,
    {
        let step = scan_at(chars, i, line, col);
        proof {
            model::lemma_scan_advances(s, i as int);
        }
        match step {
            Step::Skip(j) => {
                let (l, c) = advance_to(chars, i, j, line, col);
                line = l;
                col = c;
                i = j;
            },
            Step::Emit(t, j) => {
                let ghost before = out@;
                let ghost tok = TokenView { kind: t@, line: line as nat, column: col as nat };
                out.push(LexType::new(t, line, col));
                proof {
                    assert(token_views(out@) =~= token_views(before).push(tok));
                    match lex_from(s, j as int) {
                        Ok(rest) => {
                            assert(token_views(before) + (seq![tok] + rest) =~= token_views(
                                out@,
                            ) + rest);
                        },
                        Err(_) => {},
                    }
                }
                let (l, c) = advance_to(chars, i, j, line, col);
                line = l;
                col = c;
                i = j;
            },
            Step::Fail(e) => {
                return Err(e);
            },
        }
    }
    let ghost before = out@;
    out.push(LexType::new(TokType::EOF, line, col));
    proof {
        assert(token_views(out@) =~= token_views(before) + lex_from(s, i as int)->Ok_0);
    }
    Ok(out)
}

/// The characters of `input`, in order.
fn chars_of(input: &str) -> (r: Vec<char>)
    ensures
        r@ == input@,
{
    let mut out: Vec<char> = Vec::new();
    for c in it: input.chars()
        invariant
            out@ == it.seq().take(it.index() as int),
    {
        out.push(c);
    }
    out
}

} // verus!
