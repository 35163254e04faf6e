use sprite::numtext::{debug_number, display_number};
use sprite::{eval, SpriteError};

fn mismatches(values: &[u64]) -> Vec<String> {
    let mut bad = Vec::new();
    for &b in values {
        let x = f64::from_bits(b);
        let shown = display_number(b);
        if shown != format!("{}", x) {
            bad.push(format!("display {:e}: {} vs {}", x, shown, x));
        }
        let quoted = debug_number(b);
        if quoted != format!("{:?}", x) {
            bad.push(format!("debug {:e}: {} vs {:?}", x, quoted, x));
        }
    }
    bad
}

fn check(values: &[u64]) {
    let bad = mismatches(values);
    assert!(bad.is_empty(), "{} mismatches, first: {:?}", bad.len(), &bad[..bad.len().min(5)]);
}

fn power_of_two_bits(k: i32) -> u64 {
    if k >= -1022 {
        ((k + 1023) as u64) << 52
    } else {
        1u64 << (k + 1074)
    }
}

fn around_powers(lo: i32, hi: i32) -> Vec<u64> {
    let mut v = Vec::new();
    for k in lo..=hi {
        let b = power_of_two_bits(k);
        v.push(b);
        v.push(b + 1);
        if b > 1 {
            v.push(b - 1);
        }
        v.push(b | (1u64 << 63));
    }
    v
}

#[test]
fn display_around_small_powers_of_two() {
    check(&around_powers(-60, 80));
}

#[test]
fn display_around_large_powers_of_two() {
    check(&around_powers(900, 1023));
}

#[test]
fn display_around_tiny_powers_of_two() {
    check(&around_powers(-1074, -1000));
}

#[test]
fn display_of_extreme_values() {
    let xs = [
        f64::MAX,
        f64::MIN,
        f64::MIN_POSITIVE,
        5e-324,
        2.2250738585072009e-308,
        1e23,
        9007199254740993.0,
        0.1,
        0.3,
        123456.789,
        1e16,
        1e15,
        1e-4,
        1e-5,
        f64::INFINITY,
        f64::NEG_INFINITY,
        f64::NAN,
        -0.0,
        0.0,
    ];
    let bits: Vec<u64> = xs.iter().map(|x| x.to_bits()).collect();
    check(&bits);
}

#[test]
fn display_of_scattered_values() {
    let mut state: u64 = 0x9E37_79B9_7F4A_7C15;
    let mut v = Vec::new();
    while v.len() < 400 {
        state = state.wrapping_mul(6364136223846793005).wrapping_add(1442695040888963407);
        let b = state >> 1;
        if f64::from_bits(b).is_finite() {
            v.push(b);
        }
    }
    check(&v);
}

fn found_str(src: &str) -> String {
    match eval(src) {
        Err(SpriteError::Parse(m)) => m,
        _ => panic!("expected a parse error"),
    }
}

#[test]
fn diagnostics_quote_strings_as_debug_does() {
    for s in ["plain", "it's", "tab\there", "bell\u{7}", "del\u{7f}", "caf\u{e9}", "\u{301}mark", "zero\u{200b}width"] {
        let src = format!("let \"{}\"", s);
        assert_eq!(found_str(&src), format!("expected identifier, found Str({:?})", s));
    }
}

#[test]
fn display_of_many_scattered_values() {
    let mut state: u64 = 0x2545_F491_4F6C_DD1D;
    let mut v = Vec::new();
    while v.len() < 4000 {
        state ^= state << 13;
        state ^= state >> 7;
        state ^= state << 17;
        let b = state;
        if f64::from_bits(b).is_finite() {
            v.push(b);
        }
    }
    check(&v);
}

#[test]
fn display_around_powers_of_ten() {
    let mut v = Vec::new();
    for k in -320..=308 {
        let x: f64 = format!("1e{}", k).parse().unwrap();
        let b = x.to_bits();
        v.push(b);
        v.push(b + 1);
        if b > 1 {
            v.push(b - 1);
        }
    }
    check(&v);
}

#[test]
fn display_through_the_language() {
    assert_eq!(eval("1 / 1024").unwrap().to_string(), format!("{}", 1.0f64 / 1024.0));
    assert_eq!(eval("0.1 * 3").unwrap().to_string(), format!("{}", 0.1f64 * 3.0));
    assert_eq!(eval("2 / 3").unwrap().to_string(), format!("{}", 2.0f64 / 3.0));
}
