//! Decimal renderings of numbers, as the language shows them (`Display`) and
//! as diagnostics quote them (`Debug`). The significant digits are the
//! shortest that read back to the same value. They are found from
//! rustc_apfloat's 40-digit expansion of the value: at each length the two
//! neighbours of the expansion are tried, nearer first, and each is read
//! back with rustc_apfloat.
use vstd::prelude::*;

use crate::number::{
    decimal_value, is_infinite, is_nan, is_negative, is_zero, magnitude, magnitude_of, nan_test, parse_decimal,
    scientific, scientific_text, INF_BITS, SIGN_BIT,
};
use crate::text::{append_str, lit, push_char};

verus! {

pub open spec fn is_digit(c: char) -> bool {
    '0' <= c && c <= '9'
}

/// The end of the run of ASCII digits that starts at `i`.
pub open spec fn scan_digits(t: Seq<char>, i: int) -> int
    decreases t.len() - i,
{
    if 0 <= i < t.len() && is_digit(t[i]) {
        scan_digits(t, i + 1)
    } else {
        i
    }
}

/// The value of a string of decimal digits.
pub open spec fn digits_value(s: Seq<char>) -> nat
    decreases s.len(),
{
    if s.len() == 0 {
        0
    } else {
        digits_value(s.drop_last()) * 10 + ((s.last() as u32 - '0' as u32) as nat)
    }
}

/// `s` without its trailing '0's, keeping at least one character.
pub open spec fn strip_trailing_zeros(s: Seq<char>) -> Seq<char>
    decreases s.len(),
{
    if s.len() > 1 && s.last() == '0' {
        strip_trailing_zeros(s.drop_last())
    } else {
        s
    }
}

/// Reads rustc_apfloat's scientific text `D.FFFE±X` into significant digits
/// `ds` (no trailing zeros) and the position of the decimal point: the value
/// is `0.ds × 10^point`. Exponents of more than four digits are not read.
pub open spec fn read_scientific(t: Seq<char>) -> Option<(Seq<char>, int)> {
    if t.len() < 5 || !is_digit(t[0]) || t[1] != '.' {
        None
    } else {
        let e = scan_digits(t, 2);
        if e >= t.len() - 2 || t[e] != 'E' || (t[e + 1] != '+' && t[e + 1] != '-') {
            None
        } else {
            let x1 = scan_digits(t, e + 2);
            if x1 != t.len() || x1 - (e + 2) > 4 || x1 == e + 2 {
                None
            } else {
                let ds = strip_trailing_zeros(seq![t[0]] + t.subrange(2, e));
                let x = digits_value(t.subrange(e + 2, x1)) as int;
                let exp = if t[e + 1] == '-' { -x } else { x };
                Some((ds, exp + 1))
            }
        }
    }
}

pub open spec fn zeros(n: nat) -> Seq<char> {
    Seq::new(n, |i: int| '0')
}

/// Positional notation of `0.ds × 10^point`, with no exponent.
pub open spec fn positional(ds: Seq<char>, point: int) -> Seq<char> {
    if point <= 0 {
        seq!['0', '.'] + zeros((-point) as nat) + ds
    } else if point >= ds.len() {
        ds + zeros((point - ds.len()) as nat)
    } else {
        ds.subrange(0, point) + seq!['.'] + ds.subrange(point, ds.len() as int)
    }
}

/// Positional notation that always shows a fractional part (`100.0`).
pub open spec fn positional_fraction(ds: Seq<char>, point: int) -> Seq<char> {
    if point >= ds.len() {
        positional(ds, point) + seq!['.', '0']
    } else {
        positional(ds, point)
    }
}

/// Exponent notation `d.ddde-7` of `0.ds × 10^point`.
pub open spec fn exponential(ds: Seq<char>, point: int) -> Seq<char> {
    let x = point - 1;
    let mantissa = if ds.len() > 1 {
        seq![ds[0], '.'] + ds.subrange(1, ds.len() as int)
    } else {
        ds
    };
    mantissa + seq!['e'] + if x < 0 {
        seq!['-'] + crate::text::decimal((-x) as nat)
    } else {
        crate::text::decimal(x as nat)
    }
}

/// How many digits of a magnitude rustc_apfloat is asked for: far more than
/// any binary64 value needs, so that the digits up to the 18th are those of
/// its exact decimal expansion.
pub const EXPANSION_DIGITS: usize = 40;

/// The digit at `i`, or `0` past the end.
pub open spec fn digit_at(ds: Seq<char>, i: int) -> char {
    if 0 <= i < ds.len() { ds[i] } else { '0' }
}

/// The first `p` digits, padded with zeros.
pub open spec fn head(ds: Seq<char>, p: nat) -> Seq<char> {
    Seq::new(p, |i: int| digit_at(ds, i))
}

/// The next decimal digit (`9` wraps to `0`).
pub open spec fn next_digit(c: char) -> char {
    if c == '0' { '1' }
    else if c == '1' { '2' }
    else if c == '2' { '3' }
    else if c == '3' { '4' }
    else if c == '4' { '5' }
    else if c == '5' { '6' }
    else if c == '6' { '7' }
    else if c == '7' { '8' }
    else if c == '8' { '9' }
    else { '0' }
}

/// The index of the last digit that is not `9`, or -1.
pub open spec fn last_non_nine(d: Seq<char>) -> int
    decreases d.len(),
{
    if d.len() == 0 {
        -1
    } else if d.last() != '9' {
        d.len() - 1
    } else {
        last_non_nine(d.drop_last())
    }
}

/// `0.d × 10^point` plus one unit in the last digit.
pub open spec fn bumped(d: Seq<char>, point: int) -> (Seq<char>, int) {
    let k = last_non_nine(d);
    if k < 0 {
        (seq!['1'], point + 1)
    } else {
        (d.take(k) + seq![next_digit(d[k])] + zeros((d.len() - k - 1) as nat), point)
    }
}

/// `0.d × 10^point` written as rustc_apfloat reads it, e.g. `0.125E3`.
pub open spec fn candidate_text(d: Seq<char>, point: int) -> Seq<char> {
    "0."@ + d + seq!['E'] + if point < 0 {
        seq!['-'] + crate::text::decimal((-point) as nat)
    } else {
        crate::text::decimal(point as nat)
    }
}

/// Whether the digits read back to the magnitude `m`.
pub open spec fn reads_back(m: u64, c: (Seq<char>, int)) -> bool {
    decimal_value(candidate_text(c.0, c.1)) == Some(m)
}

/// The shortest digits, from `p` digits on, that read back to `m`, where
/// `0.ds × 10^point` is its decimal expansion. At each length the two
/// neighbours of the expansion are tried, the nearer first (the next digit
/// decides); at 17 digits the nearer is taken.
pub open spec fn pick(m: u64, ds: Seq<char>, point: int, p: nat) -> (Seq<char>, int)
    decreases 17 - p,
{
    let down = (head(ds, p), point);
    let up = bumped(head(ds, p), point);
    let round_up = digit_at(ds, p as int) >= '5';
    let first = if round_up { up } else { down };
    let second = if round_up { down } else { up };
    if reads_back(m, first) {
        first
    } else if reads_back(m, second) {
        second
    } else if p >= 17 {
        first
    } else {
        pick(m, ds, point, p + 1)
    }
}

/// The shortest decimal digits (no trailing zeros) and point position of a
/// nonzero finite magnitude, if rustc_apfloat's expansion reads as expected.
pub open spec fn shortest_digits(m: u64) -> Option<(Seq<char>, int)> {
    match read_scientific(scientific_text(m, EXPANSION_DIGITS as nat)) {
        Some((ds, point)) => {
            let c = pick(m, ds, point, 1);
            Some((strip_trailing_zeros(c.0), c.1))
        },
        None => None,
    }
}

pub open spec fn sign_prefix(b: u64) -> Seq<char> {
    if is_negative(b) { seq!['-'] } else { Seq::empty() }
}

/// How a number is shown to the user (Rust's `Display` for `f64`):
/// `NaN`, `inf`, `-inf`, `0`, `-0`, and otherwise the shortest round-trip
/// digits in positional notation.
pub open spec fn display_text(b: u64) -> Seq<char> {
    if is_nan(b) {
        "NaN"@
    } else if is_infinite(b) {
        sign_prefix(b) + "inf"@
    } else if is_zero(b) {
        sign_prefix(b) + seq!['0']
    } else {
        sign_prefix(b) + match shortest_digits(magnitude(b)) {
            Some((ds, point)) => positional(ds, point),
            None => scientific_text(magnitude(b), EXPANSION_DIGITS as nat),
        }
    }
}

/// How diagnostics quote a number (Rust's `Debug` for `f64`): positional with
/// a fractional part between 1e-4 and 1e16, exponent notation outside.
pub open spec fn debug_text(b: u64) -> Seq<char> {
    if is_nan(b) {
        "NaN"@
    } else if is_infinite(b) {
        sign_prefix(b) + "inf"@
    } else if is_zero(b) {
        sign_prefix(b) + seq!['0', '.', '0']
    } else {
        sign_prefix(b) + match shortest_digits(magnitude(b)) {
            Some((ds, point)) => if point >= 17 || point <= -4 {
                exponential(ds, point)
            } else {
                positional_fraction(ds, point)
            },
            None => scientific_text(magnitude(b), EXPANSION_DIGITS as nat),
        }
    }
}

fn digit_test(c: char) -> (r: bool)
    ensures
        r == is_digit(c),
{
    '0' <= c && c <= '9'
}

fn scan_digits_exec(t: &Vec<char>, start: usize) -> (r: usize)
    requires
        start <= t.len(),
    ensures
        r as int == scan_digits(t@, start as int),
        start <= r <= t.len(),
{
    let mut i = start;
    while i < t.len() && digit_test(t[i])
        invariant
            start <= i <= t.len(),
            scan_digits(t@, i as int) == scan_digits(t@, start as int),
        decreases t.len() - i,
    {
        i = i + 1;
    }
    i
}

fn strip_zeros_exec(s: &mut Vec<char>)
    ensures
        final(s)@ == strip_trailing_zeros(old(s)@),
{
    while s.len() > 1 && s[s.len() - 1] == '0'
        invariant
            strip_trailing_zeros(s@) == strip_trailing_zeros(old(s)@),
        decreases s.len(),
    {
        let ghost prev = s@;
        s.pop();
        assert(s@ =~= prev.drop_last());
    }
}

fn digits_value_exec(t: &Vec<char>, lo: usize, hi: usize) -> (r: u64)
    requires
        lo <= hi <= t.len(),
        hi - lo <= 4,
        forall|i: int| lo <= i < hi ==> is_digit(#[trigger] t@[i]),
    ensures
        r as nat == digits_value(t@.subrange(lo as int, hi as int)),
        r < 10000,
{
    let mut v: u64 = 0;
    let mut i = lo;
    while i < hi
        invariant
            lo <= i <= hi,
            hi <= t.len(),
            hi - lo <= 4,
            forall|j: int| lo <= j < hi ==> is_digit(#[trigger] t@[j]),
            v as nat == digits_value(t@.subrange(lo as int, i as int)),
            v < pow10((i - lo) as nat),
        decreases hi - i,
    {
        let d = t[i];
        assert(is_digit(t@[i as int]));
        proof {
            let s = t@.subrange(lo as int, i + 1);
            assert(s.drop_last() =~= t@.subrange(lo as int, i as int));
            assert(s.last() == d);
        }
        let dv = (d as u32 - '0' as u32) as u64;
        proof {
            let k = (i - lo) as nat;
            assert(pow10(k + 1) == 10 * pow10(k));
            assert(v * 10 + dv < pow10(k + 1)) by (nonlinear_arith)
                requires
                    v < pow10(k),
                    dv <= 9,
                    pow10(k + 1) == 10 * pow10(k),
            ;
            lemma_pow10_small((k + 1) as nat);
        }
        v = v * 10 + dv;
        i = i + 1;
    }
    proof {
        lemma_pow10_small((hi - lo) as nat);
    }
    v
}

proof fn lemma_pow10_small(n: nat)
    requires
        n <= 4,
    ensures
        pow10(n) <= 10000,
{
    reveal_with_fuel(pow10, 5);
}

pub open spec fn pow10(n: nat) -> nat
    decreases n,
{
    if n == 0 { 1 } else { 10 * pow10((n - 1) as nat) }
}

/// Exec counterpart of `read_scientific`; the point is returned as an `i64`.
fn read_scientific_exec(t: &Vec<char>) -> (r: Option<(Vec<char>, i64)>)
    ensures
        match read_scientific(t@) {
            None => r is None,
            Some((ds, point)) => r matches Some((rds, rp)) && rds@ == ds && rp as int == point,
        },
{
    if t.len() < 5 || !digit_test(t[0]) || t[1] != '.' {
        return None;
    }
    let e = scan_digits_exec(t, 2);
    if e >= t.len() - 2 || t[e] != 'E' || (t[e + 1] != '+' && t[e + 1] != '-') {
        return None;
    }
    let x1 = scan_digits_exec(t, e + 2);
    if x1 != t.len() || x1 - (e + 2) > 4 || x1 == e + 2 {
        return None;
    }
    let mut ds: Vec<char> = Vec::new();
    ds.push(t[0]);
    let mut i: usize = 2;
    while i < e
        invariant
            2 <= i <= e,
            e < t.len(),
            ds@ == seq![t@[0]] + t@.subrange(2, i as int),
        decreases e - i,
    {
        ds.push(t[i]);
        i = i + 1;
        assert(ds@ =~= seq![t@[0]] + t@.subrange(2, i as int));
    }
    strip_zeros_exec(&mut ds);
    proof {
        lemma_scan_digits_all(t@, e + 2);
    }
    let x = digits_value_exec(t, e + 2, x1);
    let exp: i64 = if t[e + 1] == '-' { -(x as i64) } else { x as i64 };
    Some((ds, exp + 1))
}

pub proof fn lemma_scan_digits_all(t: Seq<char>, i: int)
    requires
        0 <= i <= t.len(),
    ensures
        i <= scan_digits(t, i),
        forall|j: int| i <= j < scan_digits(t, i) ==> is_digit(#[trigger] t[j]),
        scan_digits(t, i) <= t.len(),
    decreases t.len() - i,
{
    if i < t.len() && is_digit(t[i]) {
        lemma_scan_digits_all(t, i + 1);
    }
}

fn push_chars(s: &mut String, cs: &Vec<char>, lo: usize, hi: usize)
    requires
        lo <= hi <= cs.len(),
    ensures
        final(s)@ == old(s)@ + cs@.subrange(lo as int, hi as int),
{
    let mut i = lo;
    while i < hi
        invariant
            lo <= i <= hi <= cs.len(),
            s@ == old(s)@ + cs@.subrange(lo as int, i as int),
        decreases hi - i,
    {
        push_char(s, cs[i]);
        i = i + 1;
        assert(s@ =~= old(s)@ + cs@.subrange(lo as int, i as int));
    }
}

fn push_zeros(s: &mut String, n: u64)
    ensures
        final(s)@ == old(s)@ + zeros(n as nat),
{
    let mut i: u64 = 0;
    while i < n
        invariant
            i <= n,
            s@ == old(s)@ + zeros(i as nat),
        decreases n - i,
    {
        push_char(s, '0');
        i = i + 1;
        assert(s@ =~= old(s)@ + zeros(i as nat));
    }
}

fn push_positional(s: &mut String, ds: &Vec<char>, point: i64)
    requires
        ds.len() >= 1,
        -20000 < point < 20000,
    ensures
        final(s)@ == old(s)@ + positional(ds@, point as int),
{
    if point <= 0 {
        push_char(s, '0');
        push_char(s, '.');
        push_zeros(s, (-point) as u64);
        push_chars(s, ds, 0, ds.len());
        assert(ds@.subrange(0, ds.len() as int) =~= ds@);
        assert(s@ =~= old(s)@ + positional(ds@, point as int));
    } else if point as usize >= ds.len() {
        push_chars(s, ds, 0, ds.len());
        assert(ds@.subrange(0, ds.len() as int) =~= ds@);
        push_zeros(s, (point as usize - ds.len()) as u64);
        assert(s@ =~= old(s)@ + positional(ds@, point as int));
    } else {
        push_chars(s, ds, 0, point as usize);
        push_char(s, '.');
        push_chars(s, ds, point as usize, ds.len());
        assert(s@ =~= old(s)@ + positional(ds@, point as int));
    }
}

fn push_exponential(s: &mut String, ds: &Vec<char>, point: i64)
    requires
        ds.len() >= 1,
        -20000 < point < 20000,
    ensures
        final(s)@ == old(s)@ + exponential(ds@, point as int),
{
    push_char(s, ds[0]);
    if ds.len() > 1 {
        push_char(s, '.');
        push_chars(s, ds, 1, ds.len());
    }
    push_char(s, 'e');
    let x = point - 1;
    if x < 0 {
        push_char(s, '-');
        crate::text::push_decimal(s, (-x) as u64);
    } else {
        crate::text::push_decimal(s, x as u64);
    }
    assert(s@ =~= old(s)@ + exponential(ds@, point as int));
}

fn digit_at_exec(ds: &Vec<char>, i: usize) -> (r: char)
    ensures
        r == digit_at(ds@, i as int),
{
    if i < ds.len() { ds[i] } else { '0' }
}

fn head_exec(ds: &Vec<char>, p: usize) -> (r: Vec<char>)
    ensures
        r@ == head(ds@, p as nat),
{
    let mut r: Vec<char> = Vec::new();
    let mut i: usize = 0;
    while i < p
        invariant
            i <= p,
            r@ == head(ds@, i as nat),
        decreases p - i,
    {
        r.push(digit_at_exec(ds, i));
        i = i + 1;
        assert(r@ =~= head(ds@, i as nat));
    }
    r
}

fn next_digit_exec(c: char) -> (r: char)
    ensures
        r == next_digit(c),
{
    if c == '0' { '1' }
    else if c == '1' { '2' }
    else if c == '2' { '3' }
    else if c == '3' { '4' }
    else if c == '4' { '5' }
    else if c == '5' { '6' }
    else if c == '6' { '7' }
    else if c == '7' { '8' }
    else if c == '8' { '9' }
    else { '0' }
}

proof fn lemma_last_non_nine(d: Seq<char>)
    ensures
        -1 <= last_non_nine(d) < d.len(),
        last_non_nine(d) >= 0 ==> d[last_non_nine(d)] != '9',
        forall|j: int| last_non_nine(d) < j < d.len() ==> d[j] == '9',
    decreases d.len(),
{
    if d.len() > 0 && d.last() == '9' {
        lemma_last_non_nine(d.drop_last());
        assert forall|j: int| last_non_nine(d) < j < d.len() implies d[j] == '9' by {
            if j < d.len() - 1 {
                assert(d[j] == d.drop_last()[j]);
            }
        }
    }
}

fn bumped_exec(d: &Vec<char>, point: i64) -> (r: (Vec<char>, i64))
    requires
        point < i64::MAX,
    ensures
        (r.0@, r.1 as int) == bumped(d@, point as int),
{
    proof {
        lemma_last_non_nine(d@);
    }
    let mut j: usize = d.len();
    while j > 0 && d[j - 1] == '9'
        invariant
            j <= d.len(),
            forall|i: int| j <= i < d.len() ==> d@[i] == '9',
        decreases j,
    {
        j = j - 1;
    }
    let ghost k = last_non_nine(d@);
    if j == 0 {
        assert(k < 0);
        let mut one: Vec<char> = Vec::new();
        one.push('1');
        return (one, point + 1);
    }
    assert(k == j - 1);
    let mut r: Vec<char> = Vec::new();
    let mut i: usize = 0;
    while i < j - 1
        invariant
            i <= j - 1,
            j <= d.len(),
            r@ == d@.take(i as int),
        decreases j - 1 - i,
    {
        r.push(d[i]);
        i = i + 1;
        assert(r@ =~= d@.take(i as int));
    }
    r.push(next_digit_exec(d[j - 1]));
    let mut z: usize = j;
    while z < d.len()
        invariant
            j <= z <= d.len(),
            r@ == d@.take(j - 1) + seq![next_digit(d@[j - 1])] + zeros((z - j) as nat),
        decreases d.len() - z,
    {
        r.push('0');
        z = z + 1;
        assert(r@ =~= d@.take(j - 1) + seq![next_digit(d@[j - 1])] + zeros((z - j) as nat));
    }
    (r, point)
}

proof fn lemma_decimal_len(n: nat, k: nat)
    requires
        k >= 1,
        n < pow10(k),
    ensures
        crate::text::decimal(n).len() <= k,
    decreases k,
{
    reveal_with_fuel(pow10, 2);
    if n >= 10 {
        assert(k >= 2);
        assert(pow10(k) == 10 * pow10((k - 1) as nat));
        assert(n / 10 < pow10((k - 1) as nat)) by (nonlinear_arith)
            requires
                n < 10 * pow10((k - 1) as nat),
        ;
        lemma_decimal_len(n / 10, (k - 1) as nat);
    }
}

/// Whether the digits read back to `m` (`reads_back`).
fn reads_back_exec(m: u64, d: &Vec<char>, point: i64) -> (r: bool)
    requires
        d.len() <= 17,
        -10001 <= point <= 10001,
    ensures
        r == reads_back(m, (d@, point as int)),
{
    let mut s = lit("0.");
    push_chars(&mut s, d, 0, d.len());
    push_char(&mut s, 'E');
    if point < 0 {
        push_char(&mut s, '-');
        crate::text::push_decimal(&mut s, (-point) as u64);
    } else {
        crate::text::push_decimal(&mut s, point as u64);
    }
    proof {
        assert(d@.subrange(0, d.len() as int) =~= d@);
        assert(s@ =~= candidate_text(d@, point as int));
        reveal_with_fuel(pow10, 6);
        reveal_strlit("0.");
        if point < 0 {
            lemma_decimal_len((-point) as nat, 5);
        } else {
            lemma_decimal_len(point as nat, 5);
        }
    }
    parse_decimal(s.as_str()) == Some(m)
}

/// The digits `v`, without trailing zeros, at `point`.
fn finish(v: Vec<char>, point: i64) -> (r: Option<(Vec<char>, i64)>)
    ensures
        r matches Some((rd, rp)) && rd@ == strip_trailing_zeros(v@) && rp == point,
{
    let mut v = v;
    strip_zeros_exec(&mut v);
    Some((v, point))
}

proof fn lemma_strip_keeps_length(s: Seq<char>)
    ensures
        s.len() >= 1 ==> strip_trailing_zeros(s).len() >= 1,
        strip_trailing_zeros(s).len() <= s.len(),
    decreases s.len(),
{
    if s.len() > 1 && s.last() == '0' {
        lemma_strip_keeps_length(s.drop_last());
    }
}

/// The shortest digits of a magnitude (`shortest_digits`).
fn shortest_digits_exec(m: u64) -> (r: Option<(Vec<char>, i64)>)
    ensures
        match shortest_digits(m) {
            None => r is None,
            Some((ds, point)) => r matches Some((rd, rp)) && rd@ == ds && rp as int == point && ds.len() >= 1
                && -10000 < point <= 10001,
        },
{
    let t = scientific(m, EXPANSION_DIGITS);
    let tc = crate::text::chars_of(t.as_str());
    proof {
        lemma_read_bounds(tc@);
    }
    match read_scientific_exec(&tc) {
        None => None,
        Some((ds, point)) => {
            let ghost g = pick(m, ds@, point as int, 1);
            let mut p: usize = 1;
            loop
                invariant
                    1 <= p <= 17,
                    -10000 < point <= 10000,
                    g == pick(m, ds@, point as int, 1),
                    g == pick(m, ds@, point as int, p as nat),
                    shortest_digits(m) == Some((strip_trailing_zeros(g.0), g.1)),
                decreases 17 - p,
            {
                let down = head_exec(&ds, p);
                let (up, up_point) = bumped_exec(&down, point);
                proof {
                    lemma_strip_keeps_length(down@);
                    lemma_strip_keeps_length(up@);
                    lemma_last_non_nine(down@);
                }
                let round_up = digit_at_exec(&ds, p) >= '5';
                proof {
                    assert(down@.len() == p);
                    assert(up@.len() >= 1);
                    assert((up@, up_point as int) == bumped(head(ds@, p as nat), point as int));
                }
                if round_up {
                    if reads_back_exec(m, &up, up_point) {
                        return finish(up, up_point);
                    }
                    if reads_back_exec(m, &down, point) {
                        return finish(down, point);
                    }
                    if p >= 17 {
                        return finish(up, up_point);
                    }
                } else {
                    if reads_back_exec(m, &down, point) {
                        return finish(down, point);
                    }
                    if reads_back_exec(m, &up, up_point) {
                        return finish(up, up_point);
                    }
                    if p >= 17 {
                        return finish(down, point);
                    }
                }
                p = p + 1;
            }
        },
    }
}

proof fn lemma_read_bounds(t: Seq<char>)
    ensures
        read_scientific(t) matches Some((ds, point)) ==> ds.len() >= 1 && -10000 < point <= 10000,
{
    if let Some((ds, point)) = read_scientific(t) {
        let e = scan_digits(t, 2);
        let x1 = scan_digits(t, e + 2);
        lemma_strip_len(seq![t[0]] + t.subrange(2, e));
        lemma_scan_digits_all(t, 2);
        lemma_scan_digits_all(t, e + 2);
        let xs = t.subrange(e + 2, x1);
        assert forall|i: int| 0 <= i < xs.len() implies is_digit(#[trigger] xs[i]) by {
            assert(xs[i] == t[e + 2 + i]);
        }
        lemma_digits_value_bound(xs);
        lemma_pow10_small(xs.len());
    }
}

proof fn lemma_strip_len(s: Seq<char>)
    requires
        s.len() >= 1,
    ensures
        strip_trailing_zeros(s).len() >= 1,
    decreases s.len(),
{
    if s.len() > 1 && s.last() == '0' {
        lemma_strip_len(s.drop_last());
    }
}

proof fn lemma_digits_value_bound(s: Seq<char>)
    requires
        forall|i: int| 0 <= i < s.len() ==> is_digit(#[trigger] s[i]),
    ensures
        digits_value(s) < pow10(s.len()),
    decreases s.len(),
{
    if s.len() > 0 {
        lemma_digits_value_bound(s.drop_last());
        let d = (s.last() as u32 - '0' as u32) as nat;
        assert(digits_value(s) < pow10(s.len())) by (nonlinear_arith)
            requires
                digits_value(s) == digits_value(s.drop_last()) * 10 + d,
                digits_value(s.drop_last()) < pow10(s.drop_last().len()),
                pow10(s.len()) == 10 * pow10(s.drop_last().len()),
                d <= 9,
        {}
    }
}

/// The text shown for a number (`display_text`).
pub fn display_number(b: u64) -> (r: String)
    ensures
        r@ == display_text(b),
{
    if nan_test(b) {
        return lit("NaN");
    }
    let mut s = String::new();
    if b >= SIGN_BIT {
        push_char(&mut s, '-');
    }
    let m = magnitude_of(b);
    if m == INF_BITS {
        append_str(&mut s, "inf");
        assert(s@ =~= display_text(b));
        return s;
    }
    if m == 0 {
        push_char(&mut s, '0');
        assert(s@ =~= display_text(b));
        return s;
    }
    match shortest_digits_exec(m) {
        Some((ds, point)) => {
            push_positional(&mut s, &ds, point);
        }
        None => {
            let t = scientific(m, EXPANSION_DIGITS);
            append_str(&mut s, t.as_str());
        }
    }
    assert(s@ =~= display_text(b));
    s
}

/// The text diagnostics use for a number (`debug_text`).
pub fn debug_number(b: u64) -> (r: String)
    ensures
        r@ == debug_text(b),
{
    if nan_test(b) {
        return lit("NaN");
    }
    let mut s = String::new();
    if b >= SIGN_BIT {
        push_char(&mut s, '-');
    }
    let m = magnitude_of(b);
    if m == INF_BITS {
        append_str(&mut s, "inf");
        assert(s@ =~= debug_text(b));
        return s;
    }
    if m == 0 {
        push_char(&mut s, '0');
        push_char(&mut s, '.');
        push_char(&mut s, '0');
        assert(s@ =~= debug_text(b));
        return s;
    }
    match shortest_digits_exec(m) {
        Some((ds, point)) => {
            if point >= 17 || point <= -4 {
                push_exponential(&mut s, &ds, point);
            } else {
                push_positional(&mut s, &ds, point);
                if point > 0 && point as usize >= ds.len() {
                    push_char(&mut s, '.');
                    push_char(&mut s, '0');
                }
            }
        }
        None => {
            let t = scientific(m, EXPANSION_DIGITS);
            append_str(&mut s, t.as_str());
        }
    }
    assert(s@ =~= debug_text(b));
    s
}

} // verus!
