use sprite::{eval, Session, SpriteError, Value};

fn num(src: &str) -> f64 {
    match eval(src).unwrap() {
        Value::Number(n) => f64::from_bits(n),
        other => panic!("expected number, got {}", other.to_string()),
    }
}

fn text(src: &str) -> String {
    eval(src).unwrap().to_string()
}

fn runtime_message(src: &str) -> String {
    match eval(src) {
        Err(SpriteError::Runtime(m)) => m,
        Err(other) => panic!("expected a runtime error, got {}", other.to_string()),
        Ok(v) => panic!("expected a runtime error, got {}", v.to_string()),
    }
}

#[test]
fn number_formatting_follows_shortest_round_trip() {
    assert_eq!(text("2 + 3 * 4"), "14");
    assert_eq!(text("7 / 2"), "3.5");
    assert_eq!(text("0.1 + 0.2"), "0.30000000000000004");
    assert_eq!(text("1 / 3"), "0.3333333333333333");
    assert_eq!(text("0.0000001"), "0.0000001");
    assert_eq!(text("100000000000 * 1000000000000"), "100000000000000000000000");
    assert_eq!(text("-0"), "-0");
    assert_eq!(text("0 - 2.5"), "-2.5");
}

#[test]
fn arithmetic_is_binary64() {
    assert_eq!(num("0.1 + 0.2"), 0.1 + 0.2);
    assert_eq!(num("7 % 3"), 1.0);
    assert_eq!(num("0 - 7 % 3"), -1.0);
    assert_eq!(num("(0 - 7) % 3"), -1.0);
    assert_eq!(num("2.5 * 4"), 10.0);
    assert_eq!(num("1 / 8"), 0.125);
}

#[test]
fn division_by_zero_is_a_runtime_error() {
    assert_eq!(runtime_message("1 / 0"), "division by zero");
    assert_eq!(runtime_message("5 % 0"), "division by zero");
    assert_eq!(runtime_message("1 / (0 - 0)"), "division by zero");
}

#[test]
fn values_of_different_types_are_unequal() {
    assert_eq!(text(r#"1 == "1""#), "false");
    assert_eq!(text("nil == false"), "false");
    assert_eq!(text(r#"1 != "1""#), "true");
    assert_eq!(text("nil == nil"), "true");
    assert_eq!(text(r#""ab" == "a" + "b""#), "true");
    assert_eq!(text("0 == 0 - 0"), "true");
}

#[test]
fn equality_is_symmetric() {
    for (a, b) in [("1", "2"), ("1", "1"), (r#""x""#, "1"), ("true", "true"), ("nil", "0")] {
        let ab = text(&format!("{} == {}", a, b));
        let ba = text(&format!("{} == {}", b, a));
        assert_eq!(ab, ba);
    }
}

#[test]
fn ordering_only_for_numbers_and_strings() {
    assert_eq!(text("1 < 2"), "true");
    assert_eq!(text(r#""apple" < "banana""#), "true");
    assert_eq!(text(r#""b" >= "a""#), "true");
    assert_eq!(
        runtime_message(r#"1 < "a""#),
        "type error: cannot apply '<' to number and string"
    );
    assert_eq!(
        runtime_message("true > false"),
        "type error: cannot apply '>' to bool and bool"
    );
    assert_eq!(
        runtime_message("nil <= 1"),
        "type error: cannot apply '<=' to nil and number"
    );
}

#[test]
fn comparisons_flip() {
    for (a, b) in [("1", "2"), ("2", "2"), (r#""ab""#, r#""b""#), (r#""b""#, r#""ab""#)] {
        assert_eq!(text(&format!("{} < {}", a, b)), text(&format!("{} > {}", b, a)));
        assert_eq!(text(&format!("{} <= {}", a, b)), text(&format!("{} >= {}", b, a)));
    }
}

#[test]
fn truthiness() {
    assert_eq!(text(r#"if 0 { "yes" } else { "no" }"#), "yes");
    assert_eq!(text(r#"if "" { "yes" } else { "no" }"#), "yes");
    assert_eq!(text(r#"if nil { "yes" } else { "no" }"#), "no");
    assert_eq!(text(r#"if false { "yes" } else { "no" }"#), "no");
    assert_eq!(text("not nil"), "true");
    assert_eq!(text("not 0"), "false");
}

#[test]
fn logic_short_circuits() {
    assert_eq!(text("false and missing"), "false");
    assert_eq!(text("true or missing"), "true");
    assert_eq!(text("nil or 3"), "3");
    assert_eq!(text("1 and 2"), "2");
    assert_eq!(runtime_message("true and missing"), "undefined variable 'missing'");
}

#[test]
fn runtime_error_messages() {
    assert_eq!(runtime_message("-true"), "cannot negate a bool");
    assert_eq!(runtime_message("y = 1"), "cannot assign to undefined variable 'y'");
    assert_eq!(runtime_message("3(1)"), "cannot call a number");
    assert_eq!(
        runtime_message("fn f(a, b) { return a } f(1)"),
        "function 'f' expects 2 argument(s), got 1"
    );
    assert_eq!(
        runtime_message(r#"true + 1"#),
        "type error: cannot apply '+' to bool and number"
    );
}

#[test]
fn string_concatenation_shows_values() {
    assert_eq!(text(r#""n=" + 1.5"#), "n=1.5");
    assert_eq!(text(r#"true + "!""#), "true!");
    assert_eq!(text(r#""" + nil"#), "nil");
    assert_eq!(text(r#"fn g() {} "f: " + g"#), "f: <fn g>");
}

#[test]
fn blocks_give_their_last_value() {
    assert_eq!(text("{ 1 2 3 }"), "3");
    assert_eq!(text("let a = 1"), "nil");
    assert_eq!(text("if false { 1 }"), "nil");
    assert_eq!(text("fn f() { 7 } f()"), "nil");
    assert_eq!(text("fn f() { return } f()"), "nil");
}

#[test]
fn block_scopes_shadow_and_restore() {
    let src = r#"
        let x = 1
        {
            let x = 2
            x = x + 10
        }
        x
    "#;
    assert_eq!(text(src), "1");
    let src = r#"
        let x = 1
        if true { x = 5 }
        x
    "#;
    assert_eq!(text(src), "5");
}

#[test]
fn closures_share_captured_variables() {
    let src = r#"
        fn counter() {
            let count = 0
            fn increment() {
                count = count + 1
                return count
            }
            return increment
        }
        let c = counter()
        c()
        c()
        c()
    "#;
    assert_eq!(num(src), 3.0);
    let src = r#"
        fn pair() {
            let n = 0
            fn bump() { n = n + 1 }
            fn read() { return n }
            bump()
            bump()
            return read
        }
        let r = pair()
        r()
    "#;
    assert_eq!(num(src), 2.0);
}

#[test]
fn functions_are_equal_only_to_themselves() {
    assert_eq!(text("fn f() {} let g = f g == f"), "true");
    assert_eq!(text("fn f() {} fn h() {} f == h"), "false");
}

#[test]
fn recursion_works_to_a_moderate_depth() {
    let src = r#"
        fn down(n) {
            if n == 0 { return 0 }
            return down(n - 1) + 1
        }
        down(60)
    "#;
    assert_eq!(num(src), 60.0);
}

#[test]
fn return_leaves_loops() {
    let src = r#"
        fn first_over(limit) {
            let i = 0
            while true {
                if i * i > limit { return i }
                i = i + 1
            }
        }
        first_over(50)
    "#;
    assert_eq!(num(src), 8.0);
}

#[test]
fn print_writes_lines_in_order() {
    let mut s = Session::new();
    let v = s.run(r#"print("a", 1, true) print() print(nil, 2.5)"#).unwrap();
    assert!(matches!(v, Value::Nil));
    let out = s.take_output();
    assert_eq!(out, vec!["a 1 true".to_string(), "".to_string(), "nil 2.5".to_string()]);
    assert!(s.take_output().is_empty());
}

#[test]
fn output_written_before_an_error_is_kept() {
    let mut s = Session::new();
    let r = s.run(r#"print("before") 1 / 0 print("after")"#);
    assert!(matches!(r, Err(SpriteError::Runtime(_))));
    assert_eq!(s.take_output(), vec!["before".to_string()]);
}

#[test]
fn errors_render_with_their_stage() {
    assert_eq!(eval("1 / 0").unwrap_err().to_string(), "runtime error: division by zero");
    assert_eq!(eval("\"abc").unwrap_err().to_string(), "lex error: unterminated string");
    assert_eq!(eval("@").unwrap_err().to_string(), "lex error: unexpected character '@'");
    assert_eq!(eval("!").unwrap_err().to_string(), "lex error: unexpected character '!'");
    assert_eq!(
        eval("let = 1").unwrap_err().to_string(),
        "parse error: expected identifier, found Eq"
    );
}
