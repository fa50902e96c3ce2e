//! The parser: from tokens to a syntax tree, by recursive descent.
//!
//! Each function here reads what the function of the same part in
//! [`super::grammar`] describes, and says so in its contract.

use vstd::prelude::*;
use crate::ast::{BinOp, Expr, Ident, Program, Stmt};
use crate::env::Environment;
use crate::shape::{
    expr_shape, exprs_shape, program_shape, stmt_shape, stmts_shape, ExprShape, StmtShape,
};
use super::grammar::{
    args, args_rest, atom, block, block_rest, const_stmt, expr, expr_semicolon, let_stmt, params,
    params_rest, parsed, peek, plain_stmt, program_rest, stmt, sum, sum_rest, term, term_rest,
    unexpected, Parsed, Reading,
};
use super::lexer::lex;
use super::token::{ParseError, Token};

verus! {

/// Whether `r` is what `model` says was read from `pos` on: the expression
/// of that shape up to the same token, or the same error.
pub open spec fn reads_expr(
    r: Result<(Expr, usize), ParseError>,
    model: Result<Parsed<ExprShape>, ParseError>,
    tokens: Seq<Token>,
    pos: int,
) -> bool {
    match r {
        Ok((e, next)) => model == Ok::<Parsed<ExprShape>, ParseError>(
            Parsed { value: expr_shape(e), next: next as int },
        ) && pos < next <= tokens.len(),
        Err(x) => model == Err::<Parsed<ExprShape>, ParseError>(x),
    }
}

/// Whether `r` is what `model` says was read from `pos` on: the statement
/// of that shape up to the same token, or the same error.
pub open spec fn reads_stmt(
    r: Result<(Stmt, usize), ParseError>,
    model: Result<Parsed<StmtShape>, ParseError>,
    tokens: Seq<Token>,
    pos: int,
) -> bool {
    match r {
        Ok((s, next)) => model == Ok::<Parsed<StmtShape>, ParseError>(
            Parsed { value: stmt_shape(s), next: next as int },
        ) && pos < next <= tokens.len(),
        Err(x) => model == Err::<Parsed<StmtShape>, ParseError>(x),
    }
}

/// Whether `r` is what `model` says was read from `pos` on: the statements
/// of those shapes up to the same token, or the same error.
pub open spec fn reads_block(
    r: Result<(Vec<Stmt>, usize), ParseError>,
    model: Result<Parsed<Seq<StmtShape>>, ParseError>,
    tokens: Seq<Token>,
    pos: int,
) -> bool {
    match r {
        Ok((b, next)) => model == Ok::<Parsed<Seq<StmtShape>>, ParseError>(
            Parsed { value: stmts_shape(b@), next: next as int },
        ) && pos < next <= tokens.len(),
        Err(x) => model == Err::<Parsed<Seq<StmtShape>>, ParseError>(x),
    }
}

/// The token with the number `pos`, if there is one.
fn peek_at(tokens: &Vec<Token>, pos: usize) -> (r: Option<Token>)
    ensures
        r == peek(tokens@, pos as int),
        r is Some ==> pos < tokens@.len() <= usize::MAX,
{
    if pos < tokens.len() {
        Some(tokens[pos])
    } else {
        None
    }
}

/// The error for what stands at `pos` and cannot stand there.
fn unexpected_at(tokens: &Vec<Token>, pos: usize) -> (e: ParseError)
    ensures
        e == unexpected(tokens@, pos as int),
{
    if pos < tokens.len() {
        ParseError::UnexpectedToken { index: pos }
    } else {
        ParseError::UnexpectedEnd
    }
}

/// Reads `token` at `pos` and gives the number of the token after it.
fn expect(tokens: &Vec<Token>, pos: usize, token: Token) -> (r: Result<usize, ParseError>)
    ensures
        match r {
            Ok(next) => peek(tokens@, pos as int) == Some(token) && next == pos + 1 && next
                <= tokens@.len() <= usize::MAX,
            Err(e) => peek(tokens@, pos as int) != Some(token) && e == unexpected(
                tokens@,
                pos as int,
            ),
        },
{
    if pos < tokens.len() && tokens[pos] == token {
        Ok(pos + 1)
    } else {
        Err(unexpected_at(tokens, pos))
    }
}

/// Reads a number, a name with what belongs to it, or an expression in
/// parentheses.
fn parse_atom(tokens: &Vec<Token>, pos: usize) -> (r: Result<(Expr, usize), ParseError>)
    ensures
        reads_expr(r, atom(tokens@, pos as int), tokens@, pos as int),
    decreases tokens@.len() - pos, 1int,
{
    match peek_at(tokens, pos) {
        Some(Token::Num(n)) => Ok((Expr::Num(n), pos + 1)),
        Some(Token::Minus) => {
            let (a, next) = match parse_atom(tokens, pos + 1) {
                Ok(read) => read,
                Err(e) => {
                    return Err(e);
                },
            };
            assert(expr_shape(Expr::Num(0)) == ExprShape::Num(0));
            Ok((Expr::Binary(BinOp::Sub, Box::new(Expr::Num(0)), Box::new(a)), next))
        },
        Some(Token::LeftParen) => {
            let (e, next) = match parse_expr(tokens, pos + 1) {
                Ok(read) => read,
                Err(e) => {
                    return Err(e);
                },
            };
            match expect(tokens, next, Token::RightParen) {
                Ok(next) => Ok((e, next)),
                Err(e) => Err(e),
            }
        },
        Some(Token::Name(name)) => match peek_at(tokens, pos + 1) {
            Some(Token::LeftBracket) => {
                let (index, next) = match parse_expr(tokens, pos + 2) {
                    Ok(read) => read,
                    Err(e) => {
                        return Err(e);
                    },
                };
                match expect(tokens, next, Token::RightBracket) {
                    Ok(next) => Ok((Expr::Index(name, Box::new(index)), next)),
                    Err(e) => Err(e),
                }
            },
            Some(Token::LeftParen) => {
                let (list, next) = match parse_args(tokens, pos + 2) {
                    Ok(read) => read,
                    Err(e) => {
                        return Err(e);
                    },
                };
                Ok((Expr::Call(name, list), next))
            },
            _ => Ok((Expr::Var(name), pos + 1)),
        },
        _ => Err(unexpected_at(tokens, pos)),
    }
}

/// Reads the arguments of a call and the `)` after them.
fn parse_args(tokens: &Vec<Token>, pos: usize) -> (r: Result<(Vec<Expr>, usize), ParseError>)
    ensures
        match r {
            Ok((list, next)) => args(tokens@, pos as int) == Ok::<
                Parsed<Seq<ExprShape>>,
                ParseError,
            >(Parsed { value: exprs_shape(list@), next: next as int }) && pos < next
                <= tokens@.len(),
            Err(x) => args(tokens@, pos as int) == Err::<Parsed<Seq<ExprShape>>, ParseError>(x),
        },
    decreases tokens@.len() - pos, 6int,
{
    let mut list: Vec<Expr> = Vec::new();
    match peek_at(tokens, pos) {
        Some(Token::RightParen) => {
            return Ok((list, pos + 1));
        },
        _ => {},
    }
    let mut at = pos;
    loop
        invariant
            pos <= at,
            at == pos || at <= tokens@.len(),
            args_rest(tokens@, at as int, exprs_shape(list@)) == args(tokens@, pos as int),
        decreases tokens@.len() - at,
    {
        let ghost before = list@;
        let (e, next) = match parse_expr(tokens, at) {
            Ok(read) => read,
            Err(e) => {
                return Err(e);
            },
        };
        list.push(e);
        proof {
            assert(list@.drop_last() =~= before);
        }
        match peek_at(tokens, next) {
            Some(Token::Comma) => {
                at = next + 1;
            },
            Some(Token::RightParen) => {
                return Ok((list, next + 1));
            },
            _ => {
                return Err(unexpected_at(tokens, next));
            },
        }
    }
}

/// Reads a product.
fn parse_term(tokens: &Vec<Token>, pos: usize) -> (r: Result<(Expr, usize), ParseError>)
    ensures
        reads_expr(r, term(tokens@, pos as int), tokens@, pos as int),
    decreases tokens@.len() - pos, 2int,
{
    let (first, next) = match parse_atom(tokens, pos) {
        Ok(read) => read,
        Err(e) => {
            return Err(e);
        },
    };
    let mut left = first;
    let mut at = next;
    loop
        invariant
            pos < at <= tokens@.len(),
            term_rest(tokens@, at as int, expr_shape(left)) == term(tokens@, pos as int),
        decreases tokens@.len() - at,
    {
        match peek_at(tokens, at) {
            Some(Token::Star) => {},
            _ => {
                return Ok((left, at));
            },
        }
        let (right, next) = match parse_atom(tokens, at + 1) {
            Ok(read) => read,
            Err(e) => {
                return Err(e);
            },
        };
        left = Expr::Binary(BinOp::Mul, Box::new(left), Box::new(right));
        at = next;
    }
}

/// Reads a sum or a difference.
fn parse_sum(tokens: &Vec<Token>, pos: usize) -> (r: Result<(Expr, usize), ParseError>)
    ensures
        reads_expr(r, sum(tokens@, pos as int), tokens@, pos as int),
    decreases tokens@.len() - pos, 3int,
{
    let (first, next) = match parse_term(tokens, pos) {
        Ok(read) => read,
        Err(e) => {
            return Err(e);
        },
    };
    let mut left = first;
    let mut at = next;
    loop
        invariant
            pos < at <= tokens@.len(),
            sum_rest(tokens@, at as int, expr_shape(left)) == sum(tokens@, pos as int),
        decreases tokens@.len() - at,
    {
        let op = match peek_at(tokens, at) {
            Some(Token::Plus) => BinOp::Add,
            Some(Token::Minus) => BinOp::Sub,
            _ => {
                return Ok((left, at));
            },
        };
        let (right, next) = match parse_term(tokens, at + 1) {
            Ok(read) => read,
            Err(e) => {
                return Err(e);
            },
        };
        left = Expr::Binary(op, Box::new(left), Box::new(right));
        at = next;
    }
}

/// Reads an expression.
fn parse_expr(tokens: &Vec<Token>, pos: usize) -> (r: Result<(Expr, usize), ParseError>)
    ensures
        reads_expr(r, expr(tokens@, pos as int), tokens@, pos as int),
    decreases tokens@.len() - pos, 4int,
{
    let (left, next) = match parse_sum(tokens, pos) {
        Ok(read) => read,
        Err(e) => {
            return Err(e);
        },
    };
    let op = match peek_at(tokens, next) {
        Some(Token::Less) => BinOp::Less,
        Some(Token::Equal) => BinOp::Equal,
        _ => {
            return Ok((left, next));
        },
    };
    let (right, next) = match parse_sum(tokens, next + 1) {
        Ok(read) => read,
        Err(e) => {
            return Err(e);
        },
    };
    Ok((Expr::Binary(op, Box::new(left), Box::new(right)), next))
}

/// Reads an expression and the `;` after it.
fn parse_expr_semicolon(tokens: &Vec<Token>, pos: usize) -> (r: Result<(Expr, usize), ParseError>)
    ensures
        reads_expr(r, expr_semicolon(tokens@, pos as int), tokens@, pos as int),
{
    let (e, next) = match parse_expr(tokens, pos) {
        Ok(read) => read,
        Err(e) => {
            return Err(e);
        },
    };
    match expect(tokens, next, Token::Semicolon) {
        Ok(next) => Ok((e, next)),
        Err(e) => Err(e),
    }
}

/// Reads the parameters of a function and the `)` after them.
fn parse_params(tokens: &Vec<Token>, pos: usize) -> (r: Result<(Vec<Ident>, usize), ParseError>)
    ensures
        match r {
            Ok((list, next)) => params(tokens@, pos as int) == Ok::<
                Parsed<Seq<Ident>>,
                ParseError,
            >(Parsed { value: list@, next: next as int }) && pos < next <= tokens@.len(),
            Err(x) => params(tokens@, pos as int) == Err::<Parsed<Seq<Ident>>, ParseError>(x),
        },
{
    let mut list: Vec<Ident> = Vec::new();
    match peek_at(tokens, pos) {
        Some(Token::RightParen) => {
            return Ok((list, pos + 1));
        },
        _ => {},
    }
    let mut at = pos;
    loop
        invariant
            pos <= at,
            params_rest(tokens@, at as int, list@) == params(tokens@, pos as int),
        decreases tokens@.len() - at,
    {
        let name = match peek_at(tokens, at) {
            Some(Token::Name(name)) => name,
            _ => {
                return Err(unexpected_at(tokens, at));
            },
        };
        list.push(name);
        match peek_at(tokens, at + 1) {
            Some(Token::Comma) => {
                at = at + 2;
            },
            Some(Token::RightParen) => {
                return Ok((list, at + 2));
            },
            _ => {
                return Err(unexpected_at(tokens, at + 1));
            },
        }
    }
}

/// Reads what follows `let`.
fn parse_let(tokens: &Vec<Token>, pos: usize) -> (r: Result<(Stmt, usize), ParseError>)
    ensures
        reads_stmt(r, let_stmt(tokens@, pos as int), tokens@, pos as int),
{
    let name = match peek_at(tokens, pos) {
        Some(Token::Name(name)) => name,
        _ => {
            return Err(unexpected_at(tokens, pos));
        },
    };
    match peek_at(tokens, pos + 1) {
        Some(Token::Semicolon) => Ok((Stmt::Let(name, None), pos + 2)),
        Some(Token::Assign) => match parse_expr_semicolon(tokens, pos + 2) {
            Ok((e, next)) => Ok((Stmt::Let(name, Some(e)), next)),
            Err(e) => Err(e),
        },
        Some(Token::LeftBracket) => {
            let (length, next) = match parse_expr(tokens, pos + 2) {
                Ok(read) => read,
                Err(e) => {
                    return Err(e);
                },
            };
            let next = match expect(tokens, next, Token::RightBracket) {
                Ok(next) => next,
                Err(e) => {
                    return Err(e);
                },
            };
            match expect(tokens, next, Token::Semicolon) {
                Ok(next) => Ok((Stmt::LetArray(name, length), next)),
                Err(e) => Err(e),
            }
        },
        _ => Err(unexpected_at(tokens, pos + 1)),
    }
}

/// Reads what follows `const`.
fn parse_const(tokens: &Vec<Token>, pos: usize) -> (r: Result<(Stmt, usize), ParseError>)
    ensures
        reads_stmt(r, const_stmt(tokens@, pos as int), tokens@, pos as int),
{
    let name = match peek_at(tokens, pos) {
        Some(Token::Name(name)) => name,
        _ => {
            return Err(unexpected_at(tokens, pos));
        },
    };
    match expect(tokens, pos + 1, Token::Assign) {
        Ok(_) => {},
        Err(e) => {
            return Err(e);
        },
    }
    match parse_expr_semicolon(tokens, pos + 2) {
        Ok((e, next)) => Ok((Stmt::Const(name, e), next)),
        Err(e) => Err(e),
    }
}

/// Reads an assignment or an expression that stands as a statement.
fn parse_plain(tokens: &Vec<Token>, pos: usize) -> (r: Result<(Stmt, usize), ParseError>)
    ensures
        reads_stmt(r, plain_stmt(tokens@, pos as int), tokens@, pos as int),
{
    let (e, next) = match parse_expr(tokens, pos) {
        Ok(read) => read,
        Err(e) => {
            return Err(e);
        },
    };
    match peek_at(tokens, next) {
        Some(Token::Semicolon) => Ok((Stmt::Eval(e), next + 1)),
        Some(Token::Assign) => match e {
            Expr::Var(name) => match parse_expr_semicolon(tokens, next + 1) {
                Ok((v, next)) => Ok((Stmt::Assign(name, v), next)),
                Err(e) => Err(e),
            },
            Expr::Index(name, index) => match parse_expr_semicolon(tokens, next + 1) {
                Ok((v, next)) => Ok((Stmt::AssignIndex(name, *index, v), next)),
                Err(e) => Err(e),
            },
            _ => Err(unexpected_at(tokens, next)),
        },
        _ => Err(unexpected_at(tokens, next)),
    }
}

/// Reads what follows `fn`.
fn parse_func(tokens: &Vec<Token>, pos: usize) -> (r: Result<(Stmt, usize), ParseError>)
    requires
        pos >= 1,
        peek(tokens@, pos - 1) == Some(Token::Fn),
    ensures
        reads_stmt(r, stmt(tokens@, pos - 1), tokens@, pos - 1),
    decreases tokens@.len() - pos, 0int,
{
    let name = match peek_at(tokens, pos) {
        Some(Token::Name(name)) => name,
        _ => {
            return Err(unexpected_at(tokens, pos));
        },
    };
    match expect(tokens, pos + 1, Token::LeftParen) {
        Ok(_) => {},
        Err(e) => {
            return Err(e);
        },
    }
    let (list, next) = match parse_params(tokens, pos + 2) {
        Ok(read) => read,
        Err(e) => {
            return Err(e);
        },
    };
    match parse_block(tokens, next) {
        Ok((body, next)) => Ok((Stmt::Func(name, list, body), next)),
        Err(e) => Err(e),
    }
}

/// Reads what follows `if`.
fn parse_if(tokens: &Vec<Token>, pos: usize) -> (r: Result<(Stmt, usize), ParseError>)
    requires
        pos >= 1,
        peek(tokens@, pos - 1) == Some(Token::If),
    ensures
        reads_stmt(r, stmt(tokens@, pos - 1), tokens@, pos - 1),
    decreases tokens@.len() - pos, 0int,
{
    let (cond, next) = match parse_expr(tokens, pos) {
        Ok(read) => read,
        Err(e) => {
            return Err(e);
        },
    };
    let (then, next) = match parse_block(tokens, next) {
        Ok(read) => read,
        Err(e) => {
            return Err(e);
        },
    };
    match peek_at(tokens, next) {
        Some(Token::Else) => match parse_block(tokens, next + 1) {
            Ok((otherwise, next)) => Ok((Stmt::If(cond, then, otherwise), next)),
            Err(e) => Err(e),
        },
        _ => Ok((Stmt::If(cond, then, Vec::new()), next)),
    }
}

/// Reads what follows `while`.
fn parse_while(tokens: &Vec<Token>, pos: usize) -> (r: Result<(Stmt, usize), ParseError>)
    requires
        pos >= 1,
        peek(tokens@, pos - 1) == Some(Token::While),
    ensures
        reads_stmt(r, stmt(tokens@, pos - 1), tokens@, pos - 1),
    decreases tokens@.len() - pos, 0int,
{
    let (cond, next) = match parse_expr(tokens, pos) {
        Ok(read) => read,
        Err(e) => {
            return Err(e);
        },
    };
    match parse_block(tokens, next) {
        Ok((body, next)) => Ok((Stmt::While(cond, body), next)),
        Err(e) => Err(e),
    }
}

/// Reads a statement.
fn parse_stmt(tokens: &Vec<Token>, pos: usize) -> (r: Result<(Stmt, usize), ParseError>)
    ensures
        reads_stmt(r, stmt(tokens@, pos as int), tokens@, pos as int),
    decreases tokens@.len() - pos, 2int,
{
    match peek_at(tokens, pos) {
        Some(Token::Let) => parse_let(tokens, pos + 1),
        Some(Token::Const) => parse_const(tokens, pos + 1),
        Some(Token::Fn) => parse_func(tokens, pos + 1),
        Some(Token::If) => parse_if(tokens, pos + 1),
        Some(Token::While) => parse_while(tokens, pos + 1),
        Some(Token::LeftBrace) => match parse_block(tokens, pos) {
            Ok((body, next)) => Ok((Stmt::Block(body), next)),
            Err(e) => Err(e),
        },
        Some(Token::Break) => match expect(tokens, pos + 1, Token::Semicolon) {
            Ok(next) => Ok((Stmt::Break, next)),
            Err(e) => Err(e),
        },
        Some(Token::Continue) => match expect(tokens, pos + 1, Token::Semicolon) {
            Ok(next) => Ok((Stmt::Continue, next)),
            Err(e) => Err(e),
        },
        Some(Token::Return) => match peek_at(tokens, pos + 1) {
            Some(Token::Semicolon) => Ok((Stmt::Return(None), pos + 2)),
            _ => match parse_expr_semicolon(tokens, pos + 1) {
                Ok((e, next)) => Ok((Stmt::Return(Some(e)), next)),
                Err(e) => Err(e),
            },
        },
        Some(Token::Out) => match parse_expr_semicolon(tokens, pos + 1) {
            Ok((e, next)) => Ok((Stmt::Output(e), next)),
            Err(e) => Err(e),
        },
        _ => parse_plain(tokens, pos),
    }
}

/// Reads `{`, statements and `}`.
fn parse_block(tokens: &Vec<Token>, pos: usize) -> (r: Result<(Vec<Stmt>, usize), ParseError>)
    ensures
        reads_block(r, block(tokens@, pos as int), tokens@, pos as int),
    decreases tokens@.len() - pos, 1int,
{
    let mut at = match expect(tokens, pos, Token::LeftBrace) {
        Ok(next) => next,
        Err(e) => {
            return Err(e);
        },
    };
    let mut body: Vec<Stmt> = Vec::new();
    loop
        invariant
            pos < at <= tokens@.len(),
            block_rest(tokens@, at as int, stmts_shape(body@)) == block(tokens@, pos as int),
        decreases tokens@.len() - at,
    {
        match peek_at(tokens, at) {
            Some(Token::RightBrace) => {
                return Ok((body, at + 1));
            },
            _ => {},
        }
        let ghost before = body@;
        let (s, next) = match parse_stmt(tokens, at) {
            Ok(read) => read,
            Err(e) => {
                return Err(e);
            },
        };
        body.push(s);
        proof {
            assert(body@.drop_last() =~= before);
        }
        at = next;
    }
}

/// Reads a program from a text without comments, and with it the table of
/// the names in it.
pub fn parse(text: &[u8]) -> (r: Result<(Program, Environment), ParseError>)
    ensures
        match r {
            Ok((program, env)) => parsed(text@) == Ok::<Reading, ParseError>(
                Reading { program: program_shape(program), names: env@ },
            ) && env.wf(),
            Err(e) => parsed(text@) == Err::<Reading, ParseError>(e),
        },
{
    let (tokens, env) = match lex(text) {
        Ok(read) => read,
        Err(e) => {
            return Err(e);
        },
    };
    let mut items: Vec<Stmt> = Vec::new();
    let mut at: usize = 0;
    let ghost whole = program_rest(tokens@, 0, seq![]);
    while at < tokens.len()
        invariant
            at <= tokens@.len(),
            program_rest(tokens@, at as int, stmts_shape(items@)) == whole,
            parsed(text@) == match whole {
                Err(e) => Err::<Reading, ParseError>(e),
                Ok(program) => Ok(Reading { program, names: env@ }),
            },
            env.wf(),
        decreases tokens@.len() - at,
    {
        let ghost before = items@;
        let (s, next) = match parse_stmt(&tokens, at) {
            Ok(read) => read,
            Err(e) => {
                return Err(e);
            },
        };
        items.push(s);
        proof {
            assert(items@.drop_last() =~= before);
        }
        at = next;
    }
    Ok((Program { items }, env))
}

} // verus!
