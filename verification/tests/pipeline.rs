use sprite::ast::{BinOp, Expr, Stmt};
use sprite::interpreter::Interpreter;
use sprite::lexer::{Lexer, Sym, Token};
use sprite::parser::{parse, Parser};
use sprite::{eval, SpriteError, Value};

fn tokens(src: &str) -> Vec<Token> {
    match Lexer::new(src).tokenize() {
        Ok(t) => t,
        Err(e) => panic!("unexpected lexical error: {}", e.to_string()),
    }
}

fn nested(n: usize) -> String {
    let mut s = String::new();
    for _ in 0..n {
        s.push('(');
    }
    s.push('1');
    for _ in 0..n {
        s.push(')');
    }
    s
}

#[test]
fn lexer_reads_each_kind_of_token() {
    let t = tokens("let x_1 = 12.5 # note\n\"hi\" <= != ;");
    assert_eq!(t.len(), 9);
    assert!(matches!(t[0], Token::Sym(Sym::Let)));
    assert!(matches!(&t[1], Token::Ident(n) if n == "x_1"));
    assert!(matches!(t[2], Token::Sym(Sym::Eq)));
    assert!(matches!(t[3], Token::Number(b) if f64::from_bits(b) == 12.5));
    assert!(matches!(&t[4], Token::Str(s) if s == "hi"));
    assert!(matches!(t[5], Token::Sym(Sym::LtEq)));
    assert!(matches!(t[6], Token::Sym(Sym::NotEq)));
    assert!(matches!(t[7], Token::Sym(Sym::Semicolon)));
    assert!(matches!(t[8], Token::Eof));
}

#[test]
fn lexer_reports_bad_characters() {
    assert!(matches!(Lexer::new("1 $ 2").tokenize(), Err(SpriteError::Lex(m)) if m == "unexpected character '$'"));
    assert!(matches!(Lexer::new("\"no end").tokenize(), Err(SpriteError::Lex(m)) if m == "unterminated string"));
    assert!(matches!(tokens("").as_slice(), [Token::Eof]));
}

#[test]
fn parser_follows_precedence() {
    let prog = parse(tokens("1 + 2 * 3")).unwrap();
    assert_eq!(prog.len(), 1);
    match &prog[0] {
        Stmt::Expr(Expr::Binary(l, BinOp::Add, r)) => {
            assert!(matches!(**l, Expr::Number(_)));
            assert!(matches!(**r, Expr::Binary(_, BinOp::Mul, _)));
        },
        _ => panic!("expected an addition at the top"),
    }
}

#[test]
fn parser_builds_statements() {
    let mut p = Parser::new(tokens("let a = 1; fn f(x, y) { return x } while a { a = nil } if a { } else { }"));
    let prog = p.parse_program().unwrap();
    assert_eq!(prog.len(), 4);
    assert!(matches!(&prog[0], Stmt::Let(n, Expr::Number(_)) if n == "a"));
    assert!(matches!(&prog[1], Stmt::FnDecl(n, ps, _) if n == "f" && ps.len() == 2));
    assert!(matches!(&prog[2], Stmt::While(Expr::Ident(_), _)));
    assert!(matches!(&prog[3], Stmt::If(_, _, Some(_))));
}

#[test]
fn parser_error_messages() {
    let msg = |src: &str| match parse(tokens(src)) {
        Err(SpriteError::Parse(m)) => m,
        _ => panic!("expected a parse error for {}", src),
    };
    assert_eq!(msg("1 = 2"), "invalid assignment target");
    assert_eq!(msg("(1"), "expected ')' after expression, found Eof");
    assert_eq!(msg("f(1"), "expected ')' after arguments, found Eof");
    assert_eq!(msg("fn (x) {}"), "expected identifier, found LParen");
    assert_eq!(msg(")"), "unexpected token RParen");
    assert_eq!(msg("let x 1"), "expected '=' after let name, found Number(1.0)");
    assert_eq!(msg("fn f(x {}"), "expected ')' after parameters, found LBrace");
    assert_eq!(msg("{ 1"), "expected '}', found Eof");
}

#[test]
fn nesting_just_inside_the_bound_parses() {
    assert!(matches!(eval(&nested(65)), Ok(Value::Number(b)) if f64::from_bits(b) == 1.0));
}

#[test]
fn nesting_past_the_bound_is_a_parse_error() {
    for n in [66, 67, 200, 5000] {
        match eval(&nested(n)) {
            Err(SpriteError::Parse(m)) => assert_eq!(m, "expression nested too deeply"),
            _ => panic!("expected the depth error for {} parentheses", n),
        }
    }
}

fn braces(n: usize) -> String {
    let mut s = String::new();
    for _ in 0..n {
        s.push('{');
    }
    for _ in 0..n {
        s.push('}');
    }
    s
}

#[test]
fn block_nesting_bound_is_exact() {
    assert!(matches!(eval(&braces(100)), Ok(Value::Nil)));
    assert!(matches!(eval(&braces(101)), Err(SpriteError::Parse(m)) if m == "expression nested too deeply"));
}

#[test]
fn nested_blocks_count_toward_the_bound() {
    let mut s = String::new();
    for _ in 0..150 {
        s.push('{');
    }
    for _ in 0..150 {
        s.push('}');
    }
    assert!(matches!(eval(&s), Err(SpriteError::Parse(m)) if m == "expression nested too deeply"));
}

#[test]
fn interpreter_runs_parsed_programs() {
    let prog = parse(tokens("let n = 4 n * n")).unwrap();
    let mut it = Interpreter::new();
    assert!(matches!(it.eval_program(&prog), Ok(Value::Number(b)) if f64::from_bits(b) == 16.0));
    let again = parse(tokens("n + 1")).unwrap();
    assert!(matches!(it.eval_program(&again), Ok(Value::Number(b)) if f64::from_bits(b) == 5.0));
    let mut fresh = Interpreter::default();
    assert!(matches!(fresh.eval_program(&again), Err(SpriteError::Runtime(m)) if m == "undefined variable 'n'"));
}

#[test]
fn interpreter_keeps_print_lines() {
    let prog = parse(tokens("print(1 + 1, \"two\")")).unwrap();
    let mut it = Interpreter::new();
    it.eval_program(&prog).unwrap();
    assert_eq!(it.take_output(), vec!["2 two".to_string()]);
}

#[test]
fn parsing_stops_at_the_first_eof() {
    let toks = vec![Token::Number(1.0f64.to_bits()), Token::Eof, Token::Number(2.0f64.to_bits()), Token::Eof];
    let mut p = Parser::new(toks);
    let prog = p.parse_program().unwrap();
    assert_eq!(prog.len(), 1);
    assert!(matches!(&prog[0], Stmt::Expr(Expr::Number(b)) if f64::from_bits(*b) == 1.0));
    assert!(parse(Vec::new()).unwrap().is_empty());
}

#[test]
fn number_literals_always_read() {
    assert!(matches!(eval("0000000000000000000001.5000"), Ok(Value::Number(b)) if f64::from_bits(b) == 1.5));
    assert!(matches!(eval("123456789012345678901234567890"), Ok(Value::Number(b)) if f64::from_bits(b) == 123456789012345678901234567890.0));
    assert!(matches!(eval("1.2.3"), Err(SpriteError::Lex(m)) if m == "unexpected character '.'"));
}
