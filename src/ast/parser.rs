//! Recursive-descent parser from tokens to a block of call statements.

use vstd::prelude::*;

use super::{is_arg, is_block, is_call, ArgModel, AstNode, CallModel, Expr};
use crate::lexer::model::{token_views, TokenKind, TokenView};
use crate::lexer::{Decimal, LexType, TokType};

verus! {

/// `ParseError` is an enum which represents errors encountered while parsing
#[derive(Debug)]
pub enum ParseError {
    /// When it expected a certain kind of token, but got another as part of something
    Expected(Vec<TokType>, LexType, &'static str),
    /// When it expected a certain expression, but got another
    ExpectedExpr(&'static str, Expr),
    /// When it didn't expect this keyword
    UnexpectedKeyword(LexType),
    /// When there is an abrupt end to the parsing
    AbruptEnd,
}

/// A parse error as plain values.
pub enum ParseFailure {
    Expected(Seq<TokenKind>, TokenView, Seq<char>),
    ExpectedExpr(Seq<char>),
    UnexpectedKeyword(TokenView),
    AbruptEnd,
}

pub open spec fn kinds(v: Seq<TokType>) -> Seq<TokenKind> {
    v.map_values(|k: TokType| k@)
}

impl View for ParseError {
    type V = ParseFailure;

    open spec fn view(&self) -> ParseFailure {
        match self {
            ParseError::Expected(set, t, label) => ParseFailure::Expected(kinds(set@), t@, label@),
            ParseError::ExpectedExpr(label, _) => ParseFailure::ExpectedExpr(label@),
            ParseError::UnexpectedKeyword(t) => ParseFailure::UnexpectedKeyword(t@),
            ParseError::AbruptEnd => ParseFailure::AbruptEnd,
        }
    }
}

// ---------------------------------------------------------------------------
// The grammar as a function of the token views
/// What may start an argument or close the argument list.
pub open spec fn argument_kinds() -> Seq<TokenKind> {
    seq![
        TokenKind::Int(0),
        TokenKind::Float(0, seq![]),
        TokenKind::Ident(seq![]),
        TokenKind::Plain(TokType::Comma),
        TokenKind::Plain(TokType::RParen),
    ]
}

/// What an override's value may be.
pub open spec fn value_kinds() -> Seq<TokenKind> {
    seq![TokenKind::Int(0), TokenKind::Float(0, seq![]), TokenKind::Ident(seq![])]
}

/// `a` put in front of the arguments of `r`, if it has any.
pub open spec fn with_arg(
    a: ArgModel,
    r: Result<(Seq<ArgModel>, int), ParseFailure>,
) -> Result<(Seq<ArgModel>, int), ParseFailure> {
    match r {
        Ok((rest, j)) => Ok((seq![a] + rest, j)),
        Err(e) => Err(e),
    }
}

/// The arguments of a call from index `i` (just after its `(`) through the
/// closing `)` and `;`, and the index after the `;`.
pub open spec fn parse_args(ts: Seq<TokenView>, i: int) -> Result<
    (Seq<ArgModel>, int),
    ParseFailure,
>
    decreases ts.len() - i,
{
    if i < 0 || i >= ts.len() {
        Err(ParseFailure::AbruptEnd)
    } else {
        match ts[i].kind {
            TokenKind::Plain(TokType::RParen) => {
                if i + 1 >= ts.len() {
                    Err(ParseFailure::AbruptEnd)
                } else if ts[i + 1].kind == TokenKind::Plain(TokType::Semicolon) {
                    Ok((seq![], i + 2))
                } else {
                    Err(
                        ParseFailure::Expected(
                            seq![TokenKind::Plain(TokType::Semicolon)],
                            ts[i + 1],
                            "function call"@,
                        ),
                    )
                }
            },
            TokenKind::Int(v) => with_arg(
                ArgModel::Positional(TokenKind::Int(v)),
                parse_args(ts, i + 1),
            ),
            TokenKind::Float(w, f) => with_arg(
                ArgModel::Positional(TokenKind::Float(w, f)),
                parse_args(ts, i + 1),
            ),
            TokenKind::Ident(name) => {
                if i + 1 >= ts.len() {
                    Err(ParseFailure::AbruptEnd)
                } else if ts[i + 1].kind != TokenKind::Plain(TokType::Assign) {
                    Err(
                        ParseFailure::Expected(
                            seq![TokenKind::Plain(TokType::Assign)],
                            ts[i + 1],
                            "override"@,
                        ),
                    )
                } else if i + 2 >= ts.len() {
                    Err(ParseFailure::AbruptEnd)
                } else {
                    match ts[i + 2].kind {
                        TokenKind::Int(v) => with_arg(
                            ArgModel::Named(name, TokenKind::Int(v)),
                            parse_args(ts, i + 3),
                        ),
                        TokenKind::Float(w, f) => with_arg(
                            ArgModel::Named(name, TokenKind::Float(w, f)),
                            parse_args(ts, i + 3),
                        ),
                        _ => Err(ParseFailure::Expected(value_kinds(), ts[i + 2], "override"@)),
                    }
                }
            },
            TokenKind::Plain(TokType::Comma) => parse_args(ts, i + 1),
            _ => Err(ParseFailure::Expected(argument_kinds(), ts[i], "function call"@)),
        }
    }
}

/// One top-level statement from index `i`: an identifier, `(`, the
/// arguments, `)` and `;`; and the index after it.
pub open spec fn parse_statement(ts: Seq<TokenView>, i: int) -> Result<
    (CallModel, int),
    ParseFailure,
> {
    if i < 0 || i >= ts.len() {
        Err(ParseFailure::AbruptEnd)
    } else {
        match ts[i].kind {
            TokenKind::Ident(name) => {
                if i + 1 >= ts.len() {
                    Err(ParseFailure::AbruptEnd)
                } else if ts[i + 1].kind == TokenKind::Plain(TokType::LParen) {
                    match parse_args(ts, i + 2) {
                        Ok((args, j)) => Ok((CallModel { callee: name, args }, j)),
                        Err(e) => Err(e),
                    }
                } else {
                    Err(
                        ParseFailure::Expected(
                            seq![TokenKind::Plain(TokType::LParen)],
                            ts[i + 1],
                            "function call"@,
                        ),
                    )
                }
            },
            TokenKind::Plain(TokType::Module) => Err(ParseFailure::UnexpectedKeyword(ts[i])),
            TokenKind::Plain(TokType::IF) => Err(ParseFailure::UnexpectedKeyword(ts[i])),
            TokenKind::Plain(TokType::ELSE) => Err(ParseFailure::UnexpectedKeyword(ts[i])),
            TokenKind::Plain(TokType::EOF) => Err(ParseFailure::AbruptEnd),
            _ => Err(
                ParseFailure::Expected(seq![TokenKind::Ident(seq![])], ts[i], "statement"@),
            ),
        }
    }
}

/// The statements from index `i` up to the end-of-stream token, which must be
/// the last token, or up to the end of a sequence that has none.
pub open spec fn parse_block(ts: Seq<TokenView>, i: int) -> Result<Seq<CallModel>, ParseFailure>
    decreases ts.len() - i,
{
    if i < 0 || i >= ts.len() {
        Ok(seq![])
    } else if ts[i].kind == TokenKind::Plain(TokType::EOF) {
        if i + 1 == ts.len() {
            Ok(seq![])
        } else {
            Err(ParseFailure::AbruptEnd)
        }
    } else {
        proof {
            lemma_statement_advances(ts, i);
        }
        match parse_statement(ts, i) {
            Ok((c, j)) => match parse_block(ts, j) {
                Ok(rest) => Ok(seq![c] + rest),
                Err(e) => Err(e),
            },
            Err(e) => Err(e),
        }
    }
}

/// What `parse_all` makes of the tokens `ts` with the cursor at `pos`:
/// a cursor already at or past the end has nothing left to parse.
pub open spec fn parse_all_spec(ts: Seq<TokenView>, pos: int) -> Result<Seq<CallModel>, ParseFailure> {
    if pos >= ts.len() {
        Err(ParseFailure::AbruptEnd)
    } else {
        parse_block(ts, pos)
    }
}

/// The calls `done` put in front of the calls of `r`, if it has any.
pub open spec fn with_calls(
    done: Seq<CallModel>,
    r: Result<Seq<CallModel>, ParseFailure>,
) -> Result<Seq<CallModel>, ParseFailure> {
    match r {
        Ok(rest) => Ok(done + rest),
        Err(e) => Err(e),
    }
}

/// The arguments `done` put in front of the arguments of `r`, if it has any.
pub open spec fn with_args(
    done: Seq<ArgModel>,
    r: Result<(Seq<ArgModel>, int), ParseFailure>,
) -> Result<(Seq<ArgModel>, int), ParseFailure> {
    match r {
        Ok((rest, j)) => Ok((done + rest, j)),
        Err(e) => Err(e),
    }
}

pub proof fn lemma_args_advance(ts: Seq<TokenView>, i: int)
    ensures
        parse_args(ts, i) matches Ok((_, j)) ==> i < j <= ts.len(),
    decreases ts.len() - i,
{
    if 0 <= i < ts.len() {
        lemma_args_advance(ts, i + 1);
        if i + 3 <= ts.len() {
            lemma_args_advance(ts, i + 3);
        }
    }
}

pub proof fn lemma_statement_advances(ts: Seq<TokenView>, i: int)
    ensures
        parse_statement(ts, i) matches Ok((_, j)) ==> i < j <= ts.len(),
{
    lemma_args_advance(ts, i + 2);
}

// ---------------------------------------------------------------------------
// The parser
/// A cursor over a token sequence.
#[derive(Debug)]
pub struct Parser {
    /// The tokens being input
    tokens: Vec<LexType>,
    /// The current position within the tokens
    pos: usize,
}

fn one_kind(k: TokType) -> (r: Vec<TokType>)
    ensures
        kinds(r@) == seq![k@],
{
    let mut v: Vec<TokType> = Vec::new();
    v.push(k);
    proof {
        assert(kinds(v@) =~= seq![k@]);
    }
    v
}

fn zero_float() -> (r: TokType)
    ensures
        r@ == TokenKind::Float(0, seq![]),
{
    let fraction: Vec<u8> = Vec::new();
    proof {
        assert(fraction@ =~= seq![]);
    }
    TokType::FConstant(Decimal { whole: 0, fraction })
}

fn empty_identifier() -> (r: TokType)
    ensures
        r@ == TokenKind::Ident(seq![]),
{
    TokType::IDENTIFIER(String::new())
}

fn value_set() -> (r: Vec<TokType>)
    ensures
        kinds(r@) == value_kinds(),
{
    let mut v: Vec<TokType> = Vec::new();
    v.push(TokType::IConstant(0));
    v.push(zero_float());
    v.push(empty_identifier());
    proof {
        assert(kinds(v@) =~= value_kinds());
    }
    v
}

fn argument_set() -> (r: Vec<TokType>)
    ensures
        kinds(r@) == argument_kinds(),
{
    let mut v: Vec<TokType> = Vec::new();
    v.push(TokType::IConstant(0));
    v.push(zero_float());
    v.push(empty_identifier());
    v.push(TokType::Comma);
    v.push(TokType::RParen);
    proof {
        assert(kinds(v@) =~= argument_kinds());
    }
    v
}

impl Parser {
    /// The tokens, as plain values.
    pub closed spec fn tokens(&self) -> Seq<TokenView> {
        token_views(self.tokens@)
    }

    /// The index of the next token to read.
    pub closed spec fn pos(&self) -> int {
        self.pos as int
    }

    /// Create a new parser, using `tokens` as input
    pub fn new(tokens: Vec<LexType>) -> (r: Self)
        ensures
            r.tokens() == token_views(tokens@),
            r.pos() == 0,
    {
        Self { tokens, pos: 0 }
    }

    /// Parse all statements up to the end-of-stream token into a block.
    pub fn parse_all(&mut self) -> (r: Result<Expr, ParseError>)
        ensures
            final(self).tokens() == old(self).tokens(),
            old(self).pos() >= old(self).tokens().len() ==> r matches Err(ParseError::AbruptEnd),
            match r {
                Ok(e) => parse_all_spec(old(self).tokens(), old(self).pos()) matches Ok(calls)
                    && is_block(e, calls) && final(self).pos() == old(self).tokens().len(),
                Err(err) => parse_all_spec(old(self).tokens(), old(self).pos()) matches Err(f)
                    && err@ == f,
            },
    {
        let ghost ts = self.tokens();
        let ghost start = self.pos as int;
        let n = self.tokens.len();
        if self.pos >= n {
            return Err(ParseError::AbruptEnd);
        }
        let mut exprs: Vec<Expr> = Vec::new();
        let ghost mut calls: Seq<CallModel> = seq![];
        while self.pos < n
            invariant
                ts == self.tokens(),
                ts == old(self).tokens(),
                start == old(self).pos(),
                n == self.tokens@.len(),
                0 <= start < n,
                start <= self.pos <= n,
                exprs@.len() == calls.len(),
                forall|k: int| 0 <= k < calls.len() ==> is_call(#[trigger] exprs@[k], calls[k]),
                with_calls(calls, parse_block(ts, self.pos as int)) == parse_block(ts, start),
            decreases n - self.pos,
        {
            let i = self.pos;
            if let TokType::EOF = &self.tokens[i].token {
                if i + 1 == n {
                    self.pos = n;
                    proof {
                        assert(calls + seq![] =~= calls);
                    }
                } else {
                    return Err(ParseError::AbruptEnd);
                }
            } else {
                proof {
                    lemma_statement_advances(ts, i as int);
                }
                match self.parse() {
                    Ok(call) => {
                        let ghost c = parse_statement(ts, i as int)->Ok_0.0;
                        exprs.push(call);
                        proof {
                            match parse_block(ts, self.pos as int) {
                                Ok(rest) => {
                                    assert(calls + (seq![c] + rest) =~= calls.push(c) + rest);
                                },
                                Err(_) => {},
                            }
                            calls = calls.push(c);
                        }
                    },
                    Err(e) => {
                        return Err(e);
                    },
                }
            }
        }
        proof {
            assert(calls + seq![] =~= calls);
        }
        Ok(Expr::new(AstNode::Block(exprs)))
    }

    /// Parse one statement: a call `name(arguments);`.
    pub fn parse(&mut self) -> (r: Result<Expr, ParseError>)
        ensures
            final(self).tokens() == old(self).tokens(),
            match r {
                Ok(e) => parse_statement(old(self).tokens(), old(self).pos()) matches Ok((c, j))
                    && is_call(e, c) && final(self).pos() == j,
                Err(err) => parse_statement(old(self).tokens(), old(self).pos()) matches Err(f)
                    && err@ == f,
            },
    {
        let n = self.tokens.len();
        let i = self.pos;
        if i >= n {
            return Err(ParseError::AbruptEnd);
        }
        match &self.tokens[i].token {
            TokType::IDENTIFIER(name) => {
                let name = name.clone();
                if i + 1 >= n {
                    return Err(ParseError::AbruptEnd);
                }
                if let TokType::LParen = &self.tokens[i + 1].token {
                    self.pos = i + 2;
                    self.parse_function(name)
                } else {
                    Err(
                        ParseError::Expected(
                            one_kind(TokType::LParen),
                            self.tokens[i + 1].copied(),
                            "function call",
                        ),
                    )
                }
            },
            TokType::Module | TokType::IF | TokType::ELSE => Err(
                ParseError::UnexpectedKeyword(self.tokens[i].copied()),
            ),
            TokType::EOF => Err(ParseError::AbruptEnd),
            _ => Err(
                ParseError::Expected(
                    one_kind(empty_identifier()),
                    self.tokens[i].copied(),
                    "statement",
                ),
            ),
        }
    }

    /// Parse the arguments of a call of `name`, through the closing `)` and `;`.
    fn parse_function(&mut self, name: String) -> (r: Result<Expr, ParseError>)
        ensures
            final(self).tokens() == old(self).tokens(),
            match r {
                Ok(e) => parse_args(old(self).tokens(), old(self).pos()) matches Ok((args, j))
                    && is_call(e, CallModel { callee: name@, args }) && final(self).pos() == j,
                Err(err) => parse_args(old(self).tokens(), old(self).pos()) matches Err(f) && err@
                    == f,
            },
    {
        let ghost ts = self.tokens();
        let ghost start = self.pos as int;
        let n = self.tokens.len();
        let mut arguments: Vec<Expr> = Vec::new();
        let ghost mut done: Seq<ArgModel> = seq![];
        loop
            invariant
                ts == self.tokens(),
                ts == old(self).tokens(),
                start == old(self).pos(),
                n == self.tokens@.len(),
                start <= self.pos,
                arguments@.len() == done.len(),
                forall|k: int| 0 <= k < done.len() ==> is_arg(#[trigger] arguments@[k], done[k]),
                with_args(done, parse_args(ts, self.pos as int)) == parse_args(ts, start),
            decreases n - self.pos,
        {
            let i = self.pos;
            if i >= n {
                return Err(ParseError::AbruptEnd);
            }
            let ghost before = done;
            match &self.tokens[i].token {
                TokType::RParen => {
                    if i + 1 >= n {
                        return Err(ParseError::AbruptEnd);
                    }
                    if let TokType::Semicolon = &self.tokens[i + 1].token {
                        self.pos = i + 2;
                        proof {
                            assert(done + seq![] =~= done);
                        }
                        let callee = Expr::new(AstNode::SConstant(name));
                        return Ok(Expr::new(AstNode::FunctionCall(Box::new(callee), arguments)));
                    } else {
                        return Err(
                            ParseError::Expected(
                                one_kind(TokType::Semicolon),
                                self.tokens[i + 1].copied(),
                                "function call",
                            ),
                        );
                    }
                },
                TokType::IConstant(v) => {
                    let v = *v;
                    arguments.push(Expr::new(AstNode::IConstant(v)));
                    proof {
                        done = done.push(ArgModel::Positional(TokenKind::Int(v as int)));
                    }
                    self.pos = i + 1;
                },
                TokType::FConstant(d) => {
                    let d = d.copied();
                    proof {
                        done = done.push(
                            ArgModel::Positional(TokenKind::Float(d.whole as int, d.fraction@)),
                        );
                    }
                    arguments.push(Expr::new(AstNode::FConstant(d)));
                    self.pos = i + 1;
                },
                TokType::IDENTIFIER(key) => {
                    let key = key.clone();
                    if i + 1 >= n {
                        return Err(ParseError::AbruptEnd);
                    }
                    if let TokType::Assign = &self.tokens[i + 1].token {
                    } else {
                        return Err(
                            ParseError::Expected(
                                one_kind(TokType::Assign),
                                self.tokens[i + 1].copied(),
                                "override",
                            ),
                        );
                    }
                    if i + 2 >= n {
                        return Err(ParseError::AbruptEnd);
                    }
                    let value = match &self.tokens[i + 2].token {
                        TokType::IConstant(v) => {
                            proof {
                                done = done.push(
                                    ArgModel::Named(key@, TokenKind::Int(*v as int)),
                                );
                            }
                            AstNode::IConstant(*v)
                        },
                        TokType::FConstant(d) => {
                            let d = d.copied();
                            proof {
                                done = done.push(
                                    ArgModel::Named(
                                        key@,
                                        TokenKind::Float(d.whole as int, d.fraction@),
                                    ),
                                );
                            }
                            AstNode::FConstant(d)
                        },
                        _ => {
                            return Err(
                                ParseError::Expected(
                                    value_set(),
                                    self.tokens[i + 2].copied(),
                                    "override",
                                ),
                            );
                        },
                    };
                    let key_node = Expr::new(AstNode::SConstant(key));
                    arguments.push(
                        Expr::new(AstNode::Override(Box::new(key_node), Box::new(Expr::new(value)))),
                    );
                    self.pos = i + 3;
                },
                TokType::Comma => {
                    self.pos = i + 1;
                },
                _ => {
                    return Err(
                        ParseError::Expected(
                            argument_set(),
                            self.tokens[i].copied(),
                            "function call",
                        ),
                    );
                },
            }
            proof {
                if done.len() > before.len() {
                    let a = done.last();
                    assert(done =~= before.push(a));
                    match parse_args(ts, self.pos as int) {
                        Ok((rest, j)) => {
                            assert(before + (seq![a] + rest) =~= done + rest);
                        },
                        Err(_) => {},
                    }
                }
            }
        }
    }
}

} // verus!
