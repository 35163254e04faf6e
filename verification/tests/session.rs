use sprite::{eval, Session, SpriteError, Value};

fn number(v: Value) -> f64 {
    match v {
        Value::Number(n) => f64::from_bits(n),
        other => panic!("expected number, got {}", other.to_string()),
    }
}

#[test]
fn variables_persist_across_runs() {
    let mut s = Session::new();
    assert!(matches!(s.run("let x = 5").unwrap(), Value::Nil));
    assert_eq!(number(s.run("x + 1").unwrap()), 6.0);
    s.run("x = x * 2").unwrap();
    assert_eq!(number(s.run("x").unwrap()), 10.0);
}

#[test]
fn functions_persist_across_runs() {
    let mut s = Session::default();
    s.run("fn sq(n) { return n * n }").unwrap();
    assert_eq!(number(s.run("sq(12)").unwrap()), 144.0);
}

#[test]
fn unreadable_source_leaves_the_session_as_it_was() {
    let mut s = Session::new();
    s.run("let y = 1").unwrap();
    assert!(matches!(s.run("let = 2"), Err(SpriteError::Parse(_))));
    assert!(matches!(s.run("y = \"open"), Err(SpriteError::Lex(_))));
    assert_eq!(number(s.run("y").unwrap()), 1.0);
}

#[test]
fn runtime_errors_keep_earlier_effects() {
    let mut s = Session::new();
    let r = s.run("let z = 3 z = 4 z + nil");
    assert!(matches!(r, Err(SpriteError::Runtime(_))));
    assert_eq!(number(s.run("z").unwrap()), 4.0);
}

#[test]
fn eval_is_a_fresh_session() {
    for src in ["1 + 2", "let a = 1 a", "\"s\" + 1", "x", "1 +", "\"open"] {
        let a = eval(src);
        let b = Session::new().run(src);
        match (a, b) {
            (Ok(x), Ok(y)) => assert_eq!(x.to_string(), y.to_string()),
            (Err(x), Err(y)) => assert_eq!(x, y),
            _ => panic!("eval and a fresh session disagree on {}", src),
        }
    }
}

#[test]
fn each_eval_starts_afresh() {
    eval("let only_here = 1").unwrap();
    assert!(matches!(eval("only_here"), Err(SpriteError::Runtime(_))));
}

#[test]
fn failed_calls_release_their_depth() {
    let mut s = Session::new();
    s.run("fn f(n) { if n == 0 { return 1 / 0 } return f(n - 1) }").unwrap();
    for _ in 0..20 {
        assert!(matches!(s.run("f(100)"), Err(SpriteError::Runtime(m)) if m == "division by zero"));
    }
    assert_eq!(number(s.run("fn one() { return 1 } one()").unwrap()), 1.0);
}

#[test]
fn runaway_recursion_is_caught_and_the_session_stays_usable() {
    let mut s = Session::new();
    let r = s.run("fn r(n) { return r(n + 1) } r(0)");
    assert!(matches!(r, Err(SpriteError::Runtime(m)) if m == "stack overflow"));
    assert_eq!(number(s.run("fn one() { return 1 } one()").unwrap()), 1.0);
    assert!(matches!(s.run("r(0)"), Err(SpriteError::Runtime(m)) if m == "stack overflow"));
}

#[test]
fn eval_with_output_returns_printed_lines() {
    let (r, lines) = sprite::eval_with_output("print(1) print(\"a\", nil) 7");
    assert_eq!(number(r.unwrap()), 7.0);
    assert_eq!(lines, vec!["1".to_string(), "a nil".to_string()]);
    let (r, lines) = sprite::eval_with_output("print(2) nope");
    assert!(matches!(r, Err(SpriteError::Runtime(m)) if m == "undefined variable 'nope'"));
    assert_eq!(lines, vec!["2".to_string()]);
    let (r, lines) = sprite::eval_with_output("print(");
    assert!(matches!(r, Err(SpriteError::Parse(_))));
    assert!(lines.is_empty());
}
