use openscad::lexer::{Decimal, LexError, LexType, TokType};

fn ident(s: &str) -> TokType {
    TokType::IDENTIFIER(s.to_string())
}

fn kinds(tokens: &[LexType]) -> Vec<TokType> {
    tokens.iter().map(|t| t.token.clone()).collect()
}

#[test]
fn lex() {
    let scad = r#"// scad basic lexing file
Lex(20);

module Lex(size=20, $fn=100) {
    sphere(d=size);
}
echo(version=version());
"#;
    let scad = TokType::lex(scad).unwrap();

    assert_eq!(scad.len(), 35);
    assert_eq!(
        scad[0],
        LexType::new(TokType::IDENTIFIER("Lex".to_string()), 2, 1)
    );
    // Every token records the position of its first character.
    assert_eq!(scad[1], LexType::new(TokType::LParen, 2, 4));
    assert_eq!(scad[2], LexType::new(TokType::IConstant(20), 2, 5));
    assert_eq!(scad[3], LexType::new(TokType::RParen, 2, 7));
    assert_eq!(scad[4], LexType::new(TokType::Semicolon, 2, 8));

    assert_eq!(scad[5], LexType::new(TokType::Module, 4, 1));

    assert_eq!(scad[34], LexType::new(TokType::EOF, 8, 1));
}

#[test]
fn lex_fail() {
    let scad = r#"// scad basic lexing file
Lex(20);

module Lex(size=20, §fn=100) {
    sphere(d=size);
}
echo(version=version());
"#;
    let scad = TokType::lex(scad);

    assert_eq!(scad, Err("unexpected Character § at 4:21".to_string()));
}

#[test]
fn digits_make_one_integer() {
    let toks = TokType::lex("12345").unwrap();
    assert_eq!(
        toks,
        vec![
            LexType::new(TokType::IConstant(12345), 1, 1),
            LexType::new(TokType::EOF, 1, 6),
        ]
    );
    let toks = TokType::lex("0").unwrap();
    assert_eq!(toks[0].token, TokType::IConstant(0));
    assert_eq!(toks.len(), 2);
}

#[test]
fn largest_integer_and_overflow() {
    let toks = TokType::lex("9223372036854775807").unwrap();
    assert_eq!(toks[0].token, TokType::IConstant(i64::MAX));
    assert_eq!(
        TokType::lex("x 9223372036854775808"),
        Err("integer constant too large at 1:3".to_string())
    );
}

#[test]
fn float_constant() {
    let toks = TokType::lex("3.14").unwrap();
    assert_eq!(toks.len(), 2);
    let d = match &toks[0].token {
        TokType::FConstant(d) => d.clone(),
        other => panic!("not a float: {:?}", other),
    };
    assert_eq!(d, Decimal { whole: 3, fraction: vec![1, 4] });
    let mut value = d.whole as f64;
    let mut scale = 10.0;
    for digit in &d.fraction {
        value += *digit as f64 / scale;
        scale *= 10.0;
    }
    assert!((value - 3.14).abs() < 1e-12);
    assert_eq!(toks[1], LexType::new(TokType::EOF, 1, 5));
}

#[test]
fn point_without_digits_is_a_dot() {
    let toks = TokType::lex("20.x").unwrap();
    assert_eq!(
        kinds(&toks),
        vec![TokType::IConstant(20), TokType::Dot, ident("x"), TokType::EOF]
    );
    assert_eq!(toks[1].collum, 3);
}

#[test]
fn lines_and_columns_after_newlines() {
    let toks = TokType::lex("a\n  b\n\nc").unwrap();
    assert_eq!(toks[0], LexType::new(ident("a"), 1, 1));
    assert_eq!(toks[1], LexType::new(ident("b"), 2, 3));
    assert_eq!(toks[2], LexType::new(ident("c"), 4, 1));
    assert_eq!(toks[3], LexType::new(TokType::EOF, 4, 2));
    let toks = TokType::lex("x\n\n\n").unwrap();
    assert_eq!(toks.last().unwrap(), &LexType::new(TokType::EOF, 4, 1));
}

#[test]
fn empty_source_is_only_eof() {
    assert_eq!(TokType::lex("").unwrap(), vec![LexType::new(TokType::EOF, 1, 1)]);
}

#[test]
fn call_statement_tokens() {
    let toks = TokType::lex("Lex(20);").unwrap();
    assert_eq!(
        kinds(&toks),
        vec![
            ident("Lex"),
            TokType::LParen,
            TokType::IConstant(20),
            TokType::RParen,
            TokType::Semicolon,
            TokType::EOF,
        ]
    );
}

#[test]
fn module_header_tokens() {
    let toks = TokType::lex("module Lex(size=20, $fn=100) { sphere(d=size); }").unwrap();
    assert_eq!(
        kinds(&toks),
        vec![
            TokType::Module,
            ident("Lex"),
            TokType::LParen,
            ident("size"),
            TokType::Assign,
            TokType::IConstant(20),
            TokType::Comma,
            ident("$fn"),
            TokType::Assign,
            TokType::IConstant(100),
            TokType::RParen,
            TokType::LBrace,
            ident("sphere"),
            TokType::LParen,
            ident("d"),
            TokType::Assign,
            ident("size"),
            TokType::RParen,
            TokType::Semicolon,
            TokType::RBrace,
            TokType::EOF,
        ]
    );
}

#[test]
fn keywords() {
    let toks = TokType::lex("if else module iff elsewhere").unwrap();
    assert_eq!(
        kinds(&toks),
        vec![
            TokType::IF,
            TokType::ELSE,
            TokType::Module,
            ident("iff"),
            ident("elsewhere"),
            TokType::EOF,
        ]
    );
}

#[test]
fn longest_operator_wins() {
    let toks = TokType::lex("<= << < == = && &= & || |= | ++ += + -- -= - != ! *= * %= % /= / >= >> >").unwrap();
    assert_eq!(
        kinds(&toks),
        vec![
            TokType::LeOp,
            TokType::LeftOp,
            TokType::Lt,
            TokType::EqOp,
            TokType::Assign,
            TokType::AndOp,
            TokType::AndAssign,
            TokType::SingleAnd,
            TokType::OrOp,
            TokType::OrAssign,
            TokType::InclusiveOr,
            TokType::IncOp,
            TokType::AddAssign,
            TokType::Plus,
            TokType::DecOp,
            TokType::SubAssign,
            TokType::Minus,
            TokType::NeOp,
            TokType::Exclamation,
            TokType::MulAssign,
            TokType::Multi,
            TokType::ModAssign,
            TokType::Mod,
            TokType::DivAssign,
            TokType::Splash,
            TokType::GeOp,
            TokType::RightOp,
            TokType::Gt,
            TokType::EOF,
        ]
    );
    assert_eq!(toks[1].collum, 4);
    let toks = TokType::lex("a<=b").unwrap();
    assert_eq!(
        kinds(&toks),
        vec![ident("a"), TokType::LeOp, ident("b"), TokType::EOF]
    );
    assert_eq!(toks[2].collum, 4);
}

#[test]
fn single_character_tokens() {
    let toks = TokType::lex("(){}[];~?:,#.").unwrap();
    assert_eq!(
        kinds(&toks),
        vec![
            TokType::LParen,
            TokType::RParen,
            TokType::LBrace,
            TokType::RBrace,
            TokType::LBracket,
            TokType::RBracket,
            TokType::Semicolon,
            TokType::Tilde,
            TokType::QuestionMark,
            TokType::Colon,
            TokType::Comma,
            TokType::Highlight,
            TokType::Dot,
            TokType::EOF,
        ]
    );
    for (k, t) in toks.iter().enumerate() {
        assert_eq!(t.line, 1);
        assert_eq!(t.collum, k + 1);
    }
}

#[test]
fn comments_are_skipped_but_counted() {
    let toks = TokType::lex("a // note\nb /* one\ntwo */ c").unwrap();
    assert_eq!(toks[0], LexType::new(ident("a"), 1, 1));
    assert_eq!(toks[1], LexType::new(ident("b"), 2, 1));
    assert_eq!(toks[2], LexType::new(ident("c"), 3, 8));
    assert_eq!(toks[3], LexType::new(TokType::EOF, 3, 9));
    let toks = TokType::lex("x /**/ y // trailing").unwrap();
    assert_eq!(kinds(&toks), vec![ident("x"), ident("y"), TokType::EOF]);
}

#[test]
fn string_literals() {
    let toks = TokType::lex("\"ab\ncd\" x 'q\"r'").unwrap();
    assert_eq!(
        toks[0],
        LexType::new(TokType::StringLiteral("ab\ncd".to_string()), 1, 1)
    );
    assert_eq!(toks[1], LexType::new(ident("x"), 2, 5));
    assert_eq!(
        toks[2],
        LexType::new(TokType::StringLiteral("q\"r".to_string()), 2, 7)
    );
    let toks = TokType::lex("''").unwrap();
    assert_eq!(toks[0].token, TokType::StringLiteral(String::new()));
}

#[test]
fn unterminated_string_and_comment() {
    assert_eq!(
        TokType::lex("a \"open"),
        Err("unterminated string literal at 1:3".to_string())
    );
    assert_eq!(
        TokType::lex("a\n  /* open *"),
        Err("unterminated block comment at 2:3".to_string())
    );
}

#[test]
fn unexpected_characters() {
    assert_eq!(
        TokType::lex("x = 1;\n  y ^ 2"),
        Err("unexpected Character ^ at 2:5".to_string())
    );
    // Inside a string or a comment the character is text.
    assert!(TokType::lex("'§' // §\n/* § */").is_ok());
}

#[test]
fn error_messages() {
    let e = LexError::UnexpectedCharacter { ch: '@', line: 12, column: 305 };
    assert_eq!(e.message(), "unexpected Character @ at 12:305");
    let e = LexError::UnterminatedString { line: 1, column: 9 };
    assert_eq!(e.message(), "unterminated string literal at 1:9");
    let e = LexError::UnterminatedComment { line: 10, column: 1 };
    assert_eq!(e.message(), "unterminated block comment at 10:1");
    let e = LexError::IntegerTooLarge { line: 7, column: 40 };
    assert_eq!(e.message(), "integer constant too large at 7:40");
}

#[test]
fn positions_never_go_back() {
    let toks = TokType::lex("a(1,\n  b=2.5); /* c\n */ 'x\ny' z").unwrap();
    for pair in toks.windows(2) {
        let (a, b) = (&pair[0], &pair[1]);
        assert!(a.line < b.line || (a.line == b.line && a.collum <= b.collum));
    }
    assert_eq!(toks.last().unwrap().token, TokType::EOF);
}
