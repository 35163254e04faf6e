//! Source text to tokens: one pass over the characters, skipping whitespace
//! and `#` line comments.
use vstd::prelude::*;

use crate::error::{ErrorV, SpriteError, SpriteResult};
use crate::number::{decimal_value, parse_decimal, plain_decimal, MAX_NUMBER_TEXT};
use crate::numtext::{is_digit, scan_digits};
use crate::text::{append_str, chars_of, lit, push_char};

verus! {

/// Keywords and punctuation.
#[derive(PartialEq, Eq, Structural, Clone, Copy, Debug)]
pub enum Sym {
    Let,
    Fn,
    If,
    Else,
    While,
    Return,
    True,
    False,
    Nil,
    And,
    Or,
    Not,
    Plus,
    Minus,
    Star,
    Slash,
    Percent,
    Eq,
    EqEq,
    NotEq,
    Lt,
    Gt,
    LtEq,
    GtEq,
    LParen,
    RParen,
    LBrace,
    RBrace,
    Comma,
    Semicolon,
}

pub enum Token {
    /// A number literal, as its binary64 bit pattern.
    Number(u64),
    Str(String),
    Ident(String),
    Sym(Sym),
    Eof,
}

pub enum TokenV {
    Number(u64),
    Str(Seq<char>),
    Ident(Seq<char>),
    Sym(Sym),
    Eof,
}

impl View for Token {
    type V = TokenV;

    open spec fn view(&self) -> TokenV {
        match self {
            Token::Number(b) => TokenV::Number(*b),
            Token::Str(s) => TokenV::Str(s@),
            Token::Ident(s) => TokenV::Ident(s@),
            Token::Sym(k) => TokenV::Sym(*k),
            Token::Eof => TokenV::Eof,
        }
    }
}

impl Token {
    pub fn duplicate(&self) -> (r: Token)
        ensures
            r@ == self@,
    {
        match self {
            Token::Number(b) => Token::Number(*b),
            Token::Str(s) => Token::Str(s.clone()),
            Token::Ident(s) => Token::Ident(s.clone()),
            Token::Sym(k) => Token::Sym(*k),
            Token::Eof => Token::Eof,
        }
    }
}

pub open spec fn tokens_view(v: Seq<Token>) -> Seq<TokenV> {
    Seq::new(v.len(), |i: int| v[i]@)
}

pub open spec fn is_space(c: char) -> bool {
    c == ' ' || c == '\t' || c == '\n' || c == '\r'
}

pub open spec fn is_ident_start(c: char) -> bool {
    ('a' <= c && c <= 'z') || ('A' <= c && c <= 'Z') || c == '_'
}

pub open spec fn is_ident_char(c: char) -> bool {
    is_ident_start(c) || is_digit(c)
}

/// The end of the identifier characters that start at `i`.
pub open spec fn ident_end(cs: Seq<char>, i: int) -> int
    decreases cs.len() - i,
{
    if 0 <= i < cs.len() && is_ident_char(cs[i]) {
        ident_end(cs, i + 1)
    } else {
        i
    }
}

/// The first index at or after `i` that holds `c`, or the length.
pub open spec fn find_char(cs: Seq<char>, i: int, c: char) -> int
    decreases cs.len() - i,
{
    if 0 <= i < cs.len() && cs[i] != c {
        find_char(cs, i + 1, c)
    } else {
        i
    }
}

/// The end of the number literal that starts at `i`: digits, then a
/// fraction when a '.' is followed by a digit.
pub open spec fn number_end(cs: Seq<char>, i: int) -> int {
    let j = scan_digits(cs, i);
    if j + 1 < cs.len() && cs[j] == '.' && is_digit(cs[j + 1]) {
        scan_digits(cs, j + 1)
    } else {
        j
    }
}

/// The keyword a word spells, if any.
pub open spec fn keyword(w: Seq<char>) -> Option<Sym> {
    if w == seq!['l', 'e', 't'] {
        Some(Sym::Let)
    } else if w == seq!['f', 'n'] {
        Some(Sym::Fn)
    } else if w == seq!['i', 'f'] {
        Some(Sym::If)
    } else if w == seq!['e', 'l', 's', 'e'] {
        Some(Sym::Else)
    } else if w == seq!['w', 'h', 'i', 'l', 'e'] {
        Some(Sym::While)
    } else if w == seq!['r', 'e', 't', 'u', 'r', 'n'] {
        Some(Sym::Return)
    } else if w == seq!['t', 'r', 'u', 'e'] {
        Some(Sym::True)
    } else if w == seq!['f', 'a', 'l', 's', 'e'] {
        Some(Sym::False)
    } else if w == seq!['n', 'i', 'l'] {
        Some(Sym::Nil)
    } else if w == seq!['a', 'n', 'd'] {
        Some(Sym::And)
    } else if w == seq!['o', 'r'] {
        Some(Sym::Or)
    } else if w == seq!['n', 'o', 't'] {
        Some(Sym::Not)
    } else {
        None
    }
}

/// The operator or punctuation that starts at `i`, with its length.
pub open spec fn operator_at(cs: Seq<char>, i: int) -> Option<(Sym, int)> {
    let c = cs[i];
    let next_is_eq = i + 1 < cs.len() && cs[i + 1] == '=';
    if c == '=' {
        if next_is_eq { Some((Sym::EqEq, 2)) } else { Some((Sym::Eq, 1)) }
    } else if c == '!' {
        if next_is_eq { Some((Sym::NotEq, 2)) } else { None }
    } else if c == '<' {
        if next_is_eq { Some((Sym::LtEq, 2)) } else { Some((Sym::Lt, 1)) }
    } else if c == '>' {
        if next_is_eq { Some((Sym::GtEq, 2)) } else { Some((Sym::Gt, 1)) }
    } else if c == '+' {
        Some((Sym::Plus, 1))
    } else if c == '-' {
        Some((Sym::Minus, 1))
    } else if c == '*' {
        Some((Sym::Star, 1))
    } else if c == '/' {
        Some((Sym::Slash, 1))
    } else if c == '%' {
        Some((Sym::Percent, 1))
    } else if c == '(' {
        Some((Sym::LParen, 1))
    } else if c == ')' {
        Some((Sym::RParen, 1))
    } else if c == '{' {
        Some((Sym::LBrace, 1))
    } else if c == '}' {
        Some((Sym::RBrace, 1))
    } else if c == ',' {
        Some((Sym::Comma, 1))
    } else if c == ';' {
        Some((Sym::Semicolon, 1))
    } else {
        None
    }
}

pub open spec fn unexpected_message(c: char) -> Seq<char> {
    "unexpected character '"@.push(c) + "'"@
}

pub open spec fn prepend(t: TokenV, r: Result<Seq<TokenV>, ErrorV>) -> Result<Seq<TokenV>, ErrorV> {
    match r {
        Ok(rest) => Ok(seq![t] + rest),
        Err(e) => Err(e),
    }
}

/// The tokens of `cs` from index `i` on, ending with `Eof`; or the first
/// lexical error: a character that starts no token, an unterminated string.
pub open spec fn lex_from(cs: Seq<char>, i: int) -> Result<Seq<TokenV>, ErrorV>
    decreases cs.len() - i,
{
    if i < 0 || i >= cs.len() {
        Ok(seq![TokenV::Eof])
    } else {
        let c = cs[i];
        if is_space(c) {
            lex_from(cs, i + 1)
        } else if c == '#' {
            proof {
                lemma_find_char_bounds(cs, i + 1, '\n');
            }
            lex_from(cs, find_char(cs, i + 1, '\n'))
        } else if is_digit(c) {
            proof {
                lemma_number_end_bounds(cs, i);
            }
            let j = number_end(cs, i);
            if j - i > MAX_NUMBER_TEXT {
                Err(ErrorV::Lex("number literal too long"@))
            } else {
                match decimal_value(cs.subrange(i, j)) {
                    Some(b) => prepend(TokenV::Number(b), lex_from(cs, j)),
                    None => Err(ErrorV::Lex("invalid number literal"@)),
                }
            }
        } else if is_ident_start(c) {
            proof {
                lemma_ident_end_bounds(cs, i + 1);
            }
            let j = ident_end(cs, i + 1);
            let w = cs.subrange(i, j);
            match keyword(w) {
                Some(k) => prepend(TokenV::Sym(k), lex_from(cs, j)),
                None => prepend(TokenV::Ident(w), lex_from(cs, j)),
            }
        } else if c == '"' {
            proof {
                lemma_find_char_bounds(cs, i + 1, '"');
            }
            let j = find_char(cs, i + 1, '"');
            if j >= cs.len() {
                Err(ErrorV::Lex("unterminated string"@))
            } else {
                prepend(TokenV::Str(cs.subrange(i + 1, j)), lex_from(cs, j + 1))
            }
        } else {
            match operator_at(cs, i) {
                Some((k, n)) => prepend(TokenV::Sym(k), lex_from(cs, i + n)),
                None => Err(ErrorV::Lex(unexpected_message(c))),
            }
        }
    }
}

/// The tokens of a whole source text.
pub open spec fn lex(cs: Seq<char>) -> Result<Seq<TokenV>, ErrorV> {
    lex_from(cs, 0)
}

pub proof fn lemma_find_char_bounds(cs: Seq<char>, i: int, c: char)
    requires
        0 <= i <= cs.len(),
    ensures
        i <= find_char(cs, i, c) <= cs.len(),
        find_char(cs, i, c) < cs.len() ==> cs[find_char(cs, i, c)] == c,
    decreases cs.len() - i,
{
    if i < cs.len() && cs[i] != c {
        lemma_find_char_bounds(cs, i + 1, c);
    }
}

pub proof fn lemma_ident_end_bounds(cs: Seq<char>, i: int)
    requires
        0 <= i <= cs.len(),
    ensures
        i <= ident_end(cs, i) <= cs.len(),
    decreases cs.len() - i,
{
    if i < cs.len() && is_ident_char(cs[i]) {
        lemma_ident_end_bounds(cs, i + 1);
    }
}

/// A number literal of the lexer is a plain decimal numeral.
pub proof fn lemma_literal_is_plain(cs: Seq<char>, i: int)
    requires
        0 <= i < cs.len(),
        is_digit(cs[i]),
    ensures
        plain_decimal(cs.subrange(i, number_end(cs, i))),
{
    lemma_number_end_bounds(cs, i);
    crate::numtext::lemma_scan_digits_all(cs, i);
    let j = scan_digits(cs, i);
    let t = cs.subrange(i, number_end(cs, i));
    if j + 1 < cs.len() && cs[j] == '.' && is_digit(cs[j + 1]) {
        crate::numtext::lemma_scan_digits_all(cs, j + 1);
        assert forall|k: int| 0 <= k < t.len() implies ('0' <= #[trigger] t[k] && t[k] <= '9') || t[k] == '.' by {
            assert(t[k] == cs[i + k]);
        }
        assert forall|k: int, l: int| 0 <= k < l < t.len() && #[trigger] t[k] == '.' implies #[trigger] t[l] != '.' by {
            assert(t[k] == cs[i + k]);
            assert(t[l] == cs[i + l]);
        }
    } else {
        assert forall|k: int| 0 <= k < t.len() implies ('0' <= #[trigger] t[k] && t[k] <= '9') || t[k] == '.' by {
            assert(t[k] == cs[i + k]);
        }
        assert forall|k: int, l: int| 0 <= k < l < t.len() && #[trigger] t[k] == '.' implies #[trigger] t[l] != '.' by {
            assert(t[k] == cs[i + k]);
        }
    }
}

pub proof fn lemma_scan_bounds(cs: Seq<char>, i: int)
    requires
        0 <= i <= cs.len(),
    ensures
        i <= scan_digits(cs, i) <= cs.len(),
    decreases cs.len() - i,
{
    if i < cs.len() && is_digit(cs[i]) {
        lemma_scan_bounds(cs, i + 1);
    }
}

pub proof fn lemma_number_end_bounds(cs: Seq<char>, i: int)
    requires
        0 <= i < cs.len(),
        is_digit(cs[i]),
    ensures
        i < number_end(cs, i) <= cs.len(),
{
    lemma_scan_bounds(cs, i + 1);
    let j = scan_digits(cs, i);
    assert(j == scan_digits(cs, i + 1));
    if j + 1 < cs.len() && cs[j] == '.' && is_digit(cs[j + 1]) {
        lemma_scan_bounds(cs, j + 1);
    }
}

fn chars_match(w: &Vec<char>, lo: usize, hi: usize, k: &[char]) -> (r: bool)
    requires
        lo <= hi <= w.len(),
    ensures
        r == (w@.subrange(lo as int, hi as int) == k@),
{
    if hi - lo != k.len() {
        return false;
    }
    let mut i: usize = 0;
    while i < k.len()
        invariant
            hi - lo == k.len(),
            lo <= hi <= w.len(),
            i <= k.len(),
            forall|j: int| 0 <= j < i ==> w@[lo + j] == k@[j],
        decreases k.len() - i,
    {
        if w[lo + i] != k[i] {
            assert(w@.subrange(lo as int, hi as int)[i as int] != k@[i as int]);
            return false;
        }
        i = i + 1;
    }
    assert(w@.subrange(lo as int, hi as int) =~= k@);
    true
}

fn keyword_exec(w: &Vec<char>, lo: usize, hi: usize) -> (r: Option<Sym>)
    requires
        lo <= hi <= w.len(),
    ensures
        r == keyword(w@.subrange(lo as int, hi as int)),
{
    let ghost word = w@.subrange(lo as int, hi as int);
    let k_let = ['l', 'e', 't'];
    let k_fn = ['f', 'n'];
    let k_if = ['i', 'f'];
    let k_else = ['e', 'l', 's', 'e'];
    let k_while = ['w', 'h', 'i', 'l', 'e'];
    let k_return = ['r', 'e', 't', 'u', 'r', 'n'];
    let k_true = ['t', 'r', 'u', 'e'];
    let k_false = ['f', 'a', 'l', 's', 'e'];
    let k_nil = ['n', 'i', 'l'];
    let k_and = ['a', 'n', 'd'];
    let k_or = ['o', 'r'];
    let k_not = ['n', 'o', 't'];
    assert(k_let@ =~= seq!['l', 'e', 't']);
    assert(k_fn@ =~= seq!['f', 'n']);
    assert(k_if@ =~= seq!['i', 'f']);
    assert(k_else@ =~= seq!['e', 'l', 's', 'e']);
    assert(k_while@ =~= seq!['w', 'h', 'i', 'l', 'e']);
    assert(k_return@ =~= seq!['r', 'e', 't', 'u', 'r', 'n']);
    assert(k_true@ =~= seq!['t', 'r', 'u', 'e']);
    assert(k_false@ =~= seq!['f', 'a', 'l', 's', 'e']);
    assert(k_nil@ =~= seq!['n', 'i', 'l']);
    assert(k_and@ =~= seq!['a', 'n', 'd']);
    assert(k_or@ =~= seq!['o', 'r']);
    assert(k_not@ =~= seq!['n', 'o', 't']);
    if chars_match(w, lo, hi, &k_let) {
        Some(Sym::Let)
    } else if chars_match(w, lo, hi, &k_fn) {
        Some(Sym::Fn)
    } else if chars_match(w, lo, hi, &k_if) {
        Some(Sym::If)
    } else if chars_match(w, lo, hi, &k_else) {
        Some(Sym::Else)
    } else if chars_match(w, lo, hi, &k_while) {
        Some(Sym::While)
    } else if chars_match(w, lo, hi, &k_return) {
        Some(Sym::Return)
    } else if chars_match(w, lo, hi, &k_true) {
        Some(Sym::True)
    } else if chars_match(w, lo, hi, &k_false) {
        Some(Sym::False)
    } else if chars_match(w, lo, hi, &k_nil) {
        Some(Sym::Nil)
    } else if chars_match(w, lo, hi, &k_and) {
        Some(Sym::And)
    } else if chars_match(w, lo, hi, &k_or) {
        Some(Sym::Or)
    } else if chars_match(w, lo, hi, &k_not) {
        Some(Sym::Not)
    } else {
        None
    }
}

fn operator_exec(cs: &Vec<char>, i: usize) -> (r: Option<(Sym, usize)>)
    requires
        i < cs.len(),
    ensures
        match operator_at(cs@, i as int) {
            Some((k, n)) => r == Some((k, n as usize)),
            None => r is None,
        },
{
    let c = cs[i];
    let next_is_eq = i + 1 < cs.len() && cs[i + 1] == '=';
    if c == '=' {
        if next_is_eq { Some((Sym::EqEq, 2)) } else { Some((Sym::Eq, 1)) }
    } else if c == '!' {
        if next_is_eq { Some((Sym::NotEq, 2)) } else { None }
    } else if c == '<' {
        if next_is_eq { Some((Sym::LtEq, 2)) } else { Some((Sym::Lt, 1)) }
    } else if c == '>' {
        if next_is_eq { Some((Sym::GtEq, 2)) } else { Some((Sym::Gt, 1)) }
    } else if c == '+' {
        Some((Sym::Plus, 1))
    } else if c == '-' {
        Some((Sym::Minus, 1))
    } else if c == '*' {
        Some((Sym::Star, 1))
    } else if c == '/' {
        Some((Sym::Slash, 1))
    } else if c == '%' {
        Some((Sym::Percent, 1))
    } else if c == '(' {
        Some((Sym::LParen, 1))
    } else if c == ')' {
        Some((Sym::RParen, 1))
    } else if c == '{' {
        Some((Sym::LBrace, 1))
    } else if c == '}' {
        Some((Sym::RBrace, 1))
    } else if c == ',' {
        Some((Sym::Comma, 1))
    } else if c == ';' {
        Some((Sym::Semicolon, 1))
    } else {
        None
    }
}

fn find_char_exec(cs: &Vec<char>, i: usize, c: char) -> (r: usize)
    requires
        i <= cs.len(),
    ensures
        r as int == find_char(cs@, i as int, c),
{
    let mut j = i;
    while j < cs.len() && cs[j] != c
        invariant
            i <= j <= cs.len(),
            find_char(cs@, j as int, c) == find_char(cs@, i as int, c),
        decreases cs.len() - j,
    {
        j = j + 1;
    }
    j
}

fn ident_end_exec(cs: &Vec<char>, i: usize) -> (r: usize)
    requires
        i <= cs.len(),
    ensures
        r as int == ident_end(cs@, i as int),
{
    let mut j = i;
    while j < cs.len() && (('a' <= cs[j] && cs[j] <= 'z') || ('A' <= cs[j] && cs[j] <= 'Z')
        || cs[j] == '_' || ('0' <= cs[j] && cs[j] <= '9'))
        invariant
            i <= j <= cs.len(),
            ident_end(cs@, j as int) == ident_end(cs@, i as int),
        decreases cs.len() - j,
    {
        j = j + 1;
    }
    j
}

fn scan_digits_from(cs: &Vec<char>, i: usize) -> (r: usize)
    requires
        i <= cs.len(),
    ensures
        r as int == scan_digits(cs@, i as int),
{
    let mut j = i;
    while j < cs.len() && '0' <= cs[j] && cs[j] <= '9'
        invariant
            i <= j <= cs.len(),
            scan_digits(cs@, j as int) == scan_digits(cs@, i as int),
        decreases cs.len() - j,
    {
        j = j + 1;
    }
    j
}

fn number_end_exec(cs: &Vec<char>, i: usize) -> (r: usize)
    requires
        i <= cs.len(),
    ensures
        r as int == number_end(cs@, i as int),
{
    let j = scan_digits_from(cs, i);
    proof {
        lemma_scan_bounds(cs@, i as int);
    }
    if j < cs.len() && j + 1 < cs.len() && cs[j] == '.' && '0' <= cs[j + 1] && cs[j + 1] <= '9' {
        scan_digits_from(cs, j + 1)
    } else {
        j
    }
}

fn subrange_string(cs: &Vec<char>, lo: usize, hi: usize) -> (r: String)
    requires
        lo <= hi <= cs.len(),
    ensures
        r@ == cs@.subrange(lo as int, hi as int),
{
    let mut r = String::new();
    let mut i = lo;
    while i < hi
        invariant
            lo <= i <= hi <= cs.len(),
            r@ == cs@.subrange(lo as int, i as int),
        decreases hi - i,
    {
        push_char(&mut r, cs[i]);
        i = i + 1;
        assert(r@ =~= cs@.subrange(lo as int, i as int));
    }
    r
}

/// A cursor over the characters of a source text.
pub struct Lexer {
    chars: Vec<char>,
    pos: usize,
}

impl Lexer {
    /// The characters still to be read.
    pub closed spec fn rest(&self) -> (Seq<char>, int) {
        (self.chars@, self.pos as int)
    }

    pub fn new(source: &str) -> (r: Lexer)
        ensures
            r.rest() == (source@, 0int),
    {
        Lexer { chars: chars_of(source), pos: 0 }
    }

    /// All tokens from the current position on, ending with `Eof`, or the
    /// first lexical error.
    pub fn tokenize(&mut self) -> (r: SpriteResult<Vec<Token>>)
        ensures
            match lex_from(old(self).rest().0, old(self).rest().1) {
                Ok(ts) => r matches Ok(v) && tokens_view(v@) == ts,
                Err(e) => r matches Err(x) && x@ == e,
            },
            r matches Err(x) ==> x@ != ErrorV::Lex("invalid number literal"@),
    {
        let ghost cs = self.chars@;
        let ghost start = self.pos as int;
        let mut toks: Vec<Token> = Vec::new();
        if self.pos > self.chars.len() {
            self.pos = self.chars.len();
            toks.push(Token::Eof);
            assert(tokens_view(toks@) =~= seq![TokenV::Eof]);
            return Ok(toks);
        }
        while self.pos < self.chars.len()
            invariant
                self.chars@ == cs,
                old(self).rest() == (cs, start),
                0 <= start,
                self.pos <= self.chars.len(),
                lex_from(cs, start) == match lex_from(cs, self.pos as int) {
                    Ok(rest) => Ok(tokens_view(toks@) + rest),
                    Err(e) => Err(e),
                },
            decreases self.chars.len() - self.pos,
        {
            let i = self.pos;
            let c = self.chars[i];
            let ghost before = toks@;
            if c == ' ' || c == '\t' || c == '\n' || c == '\r' {
                self.pos = i + 1;
            } else if c == '#' {
                proof {
                    lemma_find_char_bounds(cs, i + 1, '\n');
                }
                self.pos = find_char_exec(&self.chars, i + 1, '\n');
            } else if '0' <= c && c <= '9' {
                proof {
                    lemma_number_end_bounds(cs, i as int);
                }
                let j = number_end_exec(&self.chars, i);
                if j - i > MAX_NUMBER_TEXT {
                    proof {
                        reveal_strlit("invalid number literal");
                        reveal_strlit("number literal too long");
                        assert("number literal too long"@[0] != "invalid number literal"@[0]);
                    }
                    return Err(SpriteError::Lex(lit("number literal too long")));
                }
                let text = subrange_string(&self.chars, i, j);
                match parse_decimal(text.as_str()) {
                    Some(b) => {
                        toks.push(Token::Number(b));
                        self.pos = j;
                    },
                    None => {
                        proof {
                            lemma_literal_is_plain(cs, i as int);
                            assert(text@ == cs.subrange(i as int, j as int));
                        }
                        return Err(SpriteError::Lex(lit("invalid number literal")));
                    },
                }
            } else if ('a' <= c && c <= 'z') || ('A' <= c && c <= 'Z') || c == '_' {
                proof {
                    lemma_ident_end_bounds(cs, i + 1);
                }
                let j = ident_end_exec(&self.chars, i + 1);
                match keyword_exec(&self.chars, i, j) {
                    Some(k) => toks.push(Token::Sym(k)),
                    None => toks.push(Token::Ident(subrange_string(&self.chars, i, j))),
                }
                self.pos = j;
            } else if c == '"' {
                proof {
                    lemma_find_char_bounds(cs, i + 1, '"');
                }
                let j = find_char_exec(&self.chars, i + 1, '"');
                if j >= self.chars.len() {
                    self.pos = j;
                    assert(lex_from(cs, i as int) == Err::<Seq<TokenV>, ErrorV>(ErrorV::Lex("unterminated string"@)));
                    proof {
                        reveal_strlit("invalid number literal");
                        reveal_strlit("unterminated string");
                        assert("unterminated string"@[0] != "invalid number literal"@[0]);
                    }
                    return Err(SpriteError::Lex(lit("unterminated string")));
                }
                toks.push(Token::Str(subrange_string(&self.chars, i + 1, j)));
                self.pos = j + 1;
            } else {
                match operator_exec(&self.chars, i) {
                    Some((k, n)) => {
                        toks.push(Token::Sym(k));
                        self.pos = i + n;
                    },
                    None => {
                        let mut m = lit("unexpected character '");
                        push_char(&mut m, c);
                        append_str(&mut m, "'");
                        assert(m@ =~= unexpected_message(c));
                        proof {
                            reveal_strlit("invalid number literal");
                            reveal_strlit("unexpected character '");
                            assert(m@[0] != "invalid number literal"@[0]);
                        }
                        let e = SpriteError::Lex(m);
                        assert(lex_from(cs, start) == Err::<Seq<TokenV>, ErrorV>(e@));
                        return Err(e);
                    },
                }
            }
            proof {
                if toks@.len() > before.len() {
                    assert(tokens_view(toks@) =~= tokens_view(before) + seq![toks@.last()@]);
                    assert(tokens_view(toks@) + lex_from(cs, self.pos as int)->Ok_0
                        =~= tokens_view(before) + (seq![toks@.last()@] + lex_from(cs, self.pos as int)->Ok_0));
                }
            }
        }
        toks.push(Token::Eof);
        assert(tokens_view(toks@) =~= tokens_view(toks@.drop_last()) + seq![TokenV::Eof]);
        Ok(toks)
    }
}

} // verus!
