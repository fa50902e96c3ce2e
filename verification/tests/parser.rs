use compiler::ast::{BinOp, Expr, Ident, Program, Stmt};
use compiler::parser::comments::strip_comments;
use compiler::parser::lexer::lex;
use compiler::parser::reader::parse;
use compiler::parser::token::{ParseError, Token};

fn strip(text: &str) -> String {
    String::from_utf8(strip_comments(text.as_bytes())).unwrap()
}

fn tokens(text: &str) -> Result<Vec<Token>, ParseError> {
    match lex(text.as_bytes()) {
        Ok((tokens, _)) => Ok(tokens),
        Err(e) => Err(e),
    }
}

fn program(text: &str) -> Result<Vec<Stmt>, ParseError> {
    match parse(text.as_bytes()) {
        Ok((Program { items }, _)) => Ok(items),
        Err(e) => Err(e),
    }
}

fn name(id: usize) -> Ident {
    Ident { id }
}

fn binary(op: BinOp, left: Expr, right: Expr) -> Expr {
    Expr::Binary(op, Box::new(left), Box::new(right))
}

#[test]
fn comments_are_taken_out_and_lines_stay() {
    assert_eq!(strip("let x; // a comment\nlet y;"), "let x; \nlet y;");
    assert_eq!(strip("// only a comment"), "");
    assert_eq!(strip("a / b"), "a / b");
    assert_eq!(strip("a //"), "a ");
    assert_eq!(strip("//\n//\nx"), "\n\nx");
    assert_eq!(strip(""), "");
    assert_eq!(strip("x /"), "x /");
}

#[test]
fn lexer_splits_words_numbers_and_punctuation() {
    assert_eq!(
        tokens("let arr[10] = x1 == y_2;"),
        Ok(vec![
            Token::Let,
            Token::Name(name(0)),
            Token::LeftBracket,
            Token::Num(10),
            Token::RightBracket,
            Token::Assign,
            Token::Name(name(1)),
            Token::Equal,
            Token::Name(name(2)),
            Token::Semicolon,
        ])
    );
    assert_eq!(
        tokens("fn if else while break continue return out const"),
        Ok(vec![
            Token::Fn,
            Token::If,
            Token::Else,
            Token::While,
            Token::Break,
            Token::Continue,
            Token::Return,
            Token::Out,
            Token::Const,
        ])
    );
    assert_eq!(
        tokens("(){},+-*<"),
        Ok(vec![
            Token::LeftParen,
            Token::RightParen,
            Token::LeftBrace,
            Token::RightBrace,
            Token::Comma,
            Token::Plus,
            Token::Minus,
            Token::Star,
            Token::Less,
        ])
    );
    assert_eq!(tokens(" \t\r\n"), Ok(vec![]));
}

#[test]
fn lexer_interns_each_name_once() {
    let (tokens, env) = lex("a b a lets b".as_bytes()).unwrap();
    assert_eq!(
        tokens,
        vec![
            Token::Name(name(0)),
            Token::Name(name(1)),
            Token::Name(name(0)),
            Token::Name(name(2)),
            Token::Name(name(1)),
        ]
    );
    assert_eq!(env.len(), 3);
    assert_eq!(env.resolve_name(name(0)), "a");
    assert_eq!(env.resolve_name(name(1)), "b");
    assert_eq!(env.resolve_name(name(2)), "lets");
}

#[test]
fn lexer_reads_numbers_up_to_the_largest() {
    assert_eq!(tokens("0 007 9223372036854775807"), Ok(vec![
        Token::Num(0),
        Token::Num(7),
        Token::Num(i64::MAX),
    ]));
    assert_eq!(tokens("12ab"), Ok(vec![Token::Num(12), Token::Name(name(0))]));
}

#[test]
fn lexer_errors() {
    assert_eq!(tokens("x = 9223372036854775808;"), Err(ParseError::NumberTooLarge { at: 4 }));
    assert_eq!(
        tokens("99999999999999999999999999"),
        Err(ParseError::NumberTooLarge { at: 0 })
    );
    assert_eq!(tokens("let x = 1 $ 2;"), Err(ParseError::UnexpectedByte { at: 10 }));
    assert_eq!(tokens("a / b"), Err(ParseError::UnexpectedByte { at: 2 }));
    assert_eq!(tokens("\u{e9}"), Err(ParseError::UnexpectedByte { at: 0 }));
}

#[test]
fn parser_reads_declarations() {
    assert_eq!(
        program("let x; let y = 1; let a[3]; const N = 2;"),
        Ok(vec![
            Stmt::Let(name(0), None),
            Stmt::Let(name(1), Some(Expr::Num(1))),
            Stmt::LetArray(name(2), Expr::Num(3)),
            Stmt::Const(name(3), Expr::Num(2)),
        ])
    );
    assert_eq!(
        program("fn f() {} fn g(a) { return; } fn h(a, b) { return a; }"),
        Ok(vec![
            Stmt::Func(name(0), vec![], vec![]),
            Stmt::Func(name(1), vec![name(2)], vec![Stmt::Return(None)]),
            Stmt::Func(
                name(3),
                vec![name(2), name(4)],
                vec![Stmt::Return(Some(Expr::Var(name(2))))]
            ),
        ])
    );
}

#[test]
fn parser_reads_statements() {
    assert_eq!(
        program("x = 1; a[2] = 3; f(); out x; { break; continue; }"),
        Ok(vec![
            Stmt::Assign(name(0), Expr::Num(1)),
            Stmt::AssignIndex(name(1), Expr::Num(2), Expr::Num(3)),
            Stmt::Eval(Expr::Call(name(2), vec![])),
            Stmt::Output(Expr::Var(name(0))),
            Stmt::Block(vec![Stmt::Break, Stmt::Continue]),
        ])
    );
    assert_eq!(
        program("if x { out 1; } if x { } else { out 2; } while x < 3 { x = x + 1; }"),
        Ok(vec![
            Stmt::If(Expr::Var(name(0)), vec![Stmt::Output(Expr::Num(1))], vec![]),
            Stmt::If(Expr::Var(name(0)), vec![], vec![Stmt::Output(Expr::Num(2))]),
            Stmt::While(
                binary(BinOp::Less, Expr::Var(name(0)), Expr::Num(3)),
                vec![Stmt::Assign(
                    name(0),
                    binary(BinOp::Add, Expr::Var(name(0)), Expr::Num(1))
                )]
            ),
        ])
    );
    assert_eq!(program(""), Ok(vec![]));
}

#[test]
fn parser_knows_precedence_and_associativity() {
    assert_eq!(
        program("out 1 + 2 * 3 - 4;"),
        Ok(vec![Stmt::Output(binary(
            BinOp::Sub,
            binary(BinOp::Add, Expr::Num(1), binary(BinOp::Mul, Expr::Num(2), Expr::Num(3))),
            Expr::Num(4)
        ))])
    );
    assert_eq!(
        program("out (1 + 2) * 3 == 9;"),
        Ok(vec![Stmt::Output(binary(
            BinOp::Equal,
            binary(BinOp::Mul, binary(BinOp::Add, Expr::Num(1), Expr::Num(2)), Expr::Num(3)),
            Expr::Num(9)
        ))])
    );
    assert_eq!(
        program("out -x * 2;"),
        Ok(vec![Stmt::Output(binary(
            BinOp::Mul,
            binary(BinOp::Sub, Expr::Num(0), Expr::Var(name(0))),
            Expr::Num(2)
        ))])
    );
    assert_eq!(
        program("out f(1, a[i], g());"),
        Ok(vec![Stmt::Output(Expr::Call(
            name(0),
            vec![
                Expr::Num(1),
                Expr::Index(name(1), Box::new(Expr::Var(name(2)))),
                Expr::Call(name(3), vec![]),
            ]
        ))])
    );
}

#[test]
fn parser_errors() {
    assert_eq!(program("let x"), Err(ParseError::UnexpectedEnd));
    assert_eq!(program("let 5;"), Err(ParseError::UnexpectedToken { index: 1 }));
    assert_eq!(program("x + ;"), Err(ParseError::UnexpectedToken { index: 2 }));
    assert_eq!(program("1 = 2;"), Err(ParseError::UnexpectedToken { index: 1 }));
    assert_eq!(program("{ out 1;"), Err(ParseError::UnexpectedEnd));
    assert_eq!(program("}"), Err(ParseError::UnexpectedToken { index: 0 }));
    assert_eq!(program("out 1 < 2 < 3;"), Err(ParseError::UnexpectedToken { index: 4 }));
    assert_eq!(program("fn f(a,) {}"), Err(ParseError::UnexpectedToken { index: 5 }));
    assert_eq!(program("if x out 1;"), Err(ParseError::UnexpectedToken { index: 2 }));
    assert_eq!(program("let x = $;"), Err(ParseError::UnexpectedByte { at: 8 }));
}

#[test]
fn parse_error_messages() {
    assert_eq!(
        ParseError::UnexpectedByte { at: 120 }.render(),
        "Unexpected character at byte 120"
    );
    assert_eq!(ParseError::NumberTooLarge { at: 0 }.render(), "Number too large at byte 0");
    assert_eq!(
        ParseError::UnexpectedToken { index: 7 }.render(),
        "Unexpected token, number 7"
    );
    assert_eq!(ParseError::UnexpectedEnd.render(), "Unexpected end of input");
    assert_eq!(
        ParseError::UnexpectedByte { at: usize::MAX }.render(),
        format!("Unexpected character at byte {}", usize::MAX)
    );
}
