//! The scanner: source text to tokens in one left-to-right pass.
use vstd::prelude::*;
use crate::keywords::{get_keywords, keyword_kind};
use crate::number::{fits, lemma_make_fits, make_spec, Number};
use crate::text::string_of;
use crate::token::{Literal, Token, TokenType, TokenView, Value};

verus! {

/// Why a source text cannot be scanned.
#[derive(Debug, Clone, Copy, PartialEq, Eq, Structural)]
pub enum ScanError {
    /// A character that starts no token, and its line.
    UnexpectedChar(char, usize),
    /// A string literal that the text ends inside, and the line it starts on.
    UnterminatedString(usize),
    /// A number literal whose exact value does not fit, and its line.
    NumberTooLarge(usize),
}

pub open spec fn is_digit(c: char) -> bool {
    '0' <= c && c <= '9'
}

pub open spec fn is_alpha(c: char) -> bool {
    ('a' <= c && c <= 'z') || ('A' <= c && c <= 'Z') || c == '_'
}

pub open spec fn is_alphanumeric(c: char) -> bool {
    is_alpha(c) || is_digit(c)
}

/// The first position at or after `i` that holds no digit (or the end).
pub open spec fn digits_end(src: Seq<char>, i: nat) -> nat
    decreases src.len() - i,
{
    if i >= src.len() || !is_digit(src[i as int]) { i } else { digits_end(src, i + 1) }
}

/// The first position at or after `i` that holds no letter, digit or `_`.
pub open spec fn ident_end(src: Seq<char>, i: nat) -> nat
    decreases src.len() - i,
{
    if i >= src.len() || !is_alphanumeric(src[i as int]) { i } else { ident_end(src, i + 1) }
}

/// The first position at or after `i` that holds `"` (or the end).
pub open spec fn quote_end(src: Seq<char>, i: nat) -> nat
    decreases src.len() - i,
{
    if i >= src.len() || src[i as int] == '"' { i } else { quote_end(src, i + 1) }
}

/// The first position at or after `i` that holds a newline (or the end).
pub open spec fn line_end(src: Seq<char>, i: nat) -> nat
    decreases src.len() - i,
{
    if i >= src.len() || src[i as int] == '\n' { i } else { line_end(src, i + 1) }
}

/// The position just after the first `*/` at or after `i`, or the end.
pub open spec fn comment_end(src: Seq<char>, i: nat) -> nat
    decreases src.len() - i,
{
    if i + 1 >= src.len() {
        src.len()
    } else if src[i as int] == '*' && src[i + 1int] == '/' {
        i + 2
    } else {
        comment_end(src, i + 1)
    }
}

/// The end of a number literal starting at `p`: digits, then a point and
/// digits where at least one digit follows the point.
pub open spec fn number_end(src: Seq<char>, p: nat) -> nat {
    let a = digits_end(src, p);
    if a + 1 < src.len() && src[a as int] == '.' && is_digit(src[a + 1int]) {
        digits_end(src, a + 1)
    } else {
        a
    }
}

/// How many newlines a text holds.
pub open spec fn count_newlines(s: Seq<char>) -> nat
    decreases s.len(),
{
    if s.len() == 0 {
        0
    } else {
        count_newlines(s.drop_last()) + if s.last() == '\n' { 1nat } else { 0nat }
    }
}

/// The value of a decimal literal with its point left out.
pub open spec fn decimal_value(s: Seq<char>) -> nat
    decreases s.len(),
{
    if s.len() == 0 {
        0
    } else if s.last() == '.' {
        decimal_value(s.drop_last())
    } else {
        decimal_value(s.drop_last()) * 10 + ((s.last() as int) - ('0' as int)) as nat
    }
}

pub open spec fn pow10(k: nat) -> nat
    decreases k,
{
    if k == 0 { 1 } else { 10 * pow10((k - 1) as nat) }
}

/// The kind of a token of one character that never takes a second one.
pub open spec fn single_kind(c: char) -> Option<TokenType> {
    if c == '(' {
        Some(TokenType::LEFT_PAREN)
    } else if c == ')' {
        Some(TokenType::RIGHT_PAREN)
    } else if c == '{' {
        Some(TokenType::LEFT_BRACE)
    } else if c == '}' {
        Some(TokenType::RIGHT_BRACE)
    } else if c == ',' {
        Some(TokenType::COMMA)
    } else if c == '.' {
        Some(TokenType::DOT)
    } else if c == '-' {
        Some(TokenType::MINUS)
    } else if c == '+' {
        Some(TokenType::PLUS)
    } else if c == ';' {
        Some(TokenType::SEMICOLON)
    } else if c == '*' {
        Some(TokenType::STAR)
    } else {
        None
    }
}

/// The kinds of `!`, `=`, `<`, `>` alone and followed by `=`.
pub open spec fn pair_kinds(c: char) -> Option<(TokenType, TokenType)> {
    if c == '!' {
        Some((TokenType::BANG, TokenType::BANG_EQUAL))
    } else if c == '=' {
        Some((TokenType::EQUAL, TokenType::EQUAL_EQUAL))
    } else if c == '<' {
        Some((TokenType::LESS, TokenType::LESS_EQUAL))
    } else if c == '>' {
        Some((TokenType::GREATER, TokenType::GREATER_EQUAL))
    } else {
        None
    }
}

pub open spec fn plain(kind: TokenType, lexeme: Seq<char>, line: nat) -> TokenView {
    TokenView { kind, lexeme, line, literal: Value::Nil }
}

/// One step of the scanner at position `p < src.len()` on line `line`: the token
/// found there, if any, the position after it, and the line after it.
pub open spec fn step(src: Seq<char>, p: nat, line: nat) -> Result<(Option<TokenView>, nat, nat), ScanError> {
    let c = src[p as int];
    let next_is_eq = p + 1 < src.len() && src[p + 1int] == '=';
    if single_kind(c) is Some {
        Ok((Some(plain(single_kind(c)->0, seq![c], line)), p + 1, line))
    } else if pair_kinds(c) is Some {
        let (alone, with_eq) = pair_kinds(c)->0;
        if next_is_eq {
            Ok((Some(plain(with_eq, seq![c, '='], line)), p + 2, line))
        } else {
            Ok((Some(plain(alone, seq![c], line)), p + 1, line))
        }
    } else if c == '/' {
        if p + 1 < src.len() && src[p + 1int] == '/' {
            Ok((None, line_end(src, p + 2), line))
        } else if p + 1 < src.len() && src[p + 1int] == '*' {
            let e = comment_end(src, p + 2);
            Ok((None, e, line + count_newlines(src.subrange(p as int, e as int))))
        } else {
            Ok((Some(plain(TokenType::SLASH, seq![c], line)), p + 1, line))
        }
    } else if c == ' ' || c == '\r' || c == '\t' {
        Ok((None, p + 1, line))
    } else if c == '\n' {
        Ok((None, p + 1, line + 1))
    } else if c == '"' {
        let e = quote_end(src, p + 1);
        if e >= src.len() {
            Err(ScanError::UnterminatedString(line as usize))
        } else {
            let l = line + count_newlines(src.subrange(p as int, e + 1int));
            Ok((Some(TokenView {
                kind: TokenType::STRING,
                lexeme: src.subrange(p as int, e + 1int),
                line: l,
                literal: Value::Str(src.subrange(p + 1int, e as int)),
            }), e + 1, l))
        }
    } else if is_digit(c) {
        let q = number_end(src, p);
        let a = digits_end(src, p);
        let text = src.subrange(p as int, q as int);
        let places: nat = if q > a { (q - a - 1) as nat } else { 0 };
        if fits(decimal_value(text) as int) && fits(pow10(places) as int) {
            Ok((Some(TokenView {
                kind: TokenType::NUMBER,
                lexeme: text,
                line,
                literal: Value::Number(make_spec(decimal_value(text) as int, pow10(places) as int)->0),
            }), q, line))
        } else {
            Err(ScanError::NumberTooLarge(line as usize))
        }
    } else if is_alpha(c) {
        let q = ident_end(src, p);
        let w = src.subrange(p as int, q as int);
        let kind = match keyword_kind(w) {
            Some(k) => k,
            None => TokenType::IDENTIFIER,
        };
        Ok((Some(plain(kind, w, line)), q, line))
    } else {
        Err(ScanError::UnexpectedChar(c, line as usize))
    }
}

/// Prefixes the tokens `ts` to a scan result.
pub open spec fn prepend(ts: Seq<TokenView>, r: Result<Seq<TokenView>, ScanError>) -> Result<Seq<TokenView>, ScanError> {
    match r {
        Ok(rest) => Ok(ts + rest),
        Err(e) => Err(e),
    }
}

pub open spec fn opt_seq(t: Option<TokenView>) -> Seq<TokenView> {
    match t {
        Some(t) => seq![t],
        None => Seq::empty(),
    }
}

/// The tokens of `src` from position `p` on, starting on line `line`, ended by
/// an `EOF` token; or the first error.
pub open spec fn scan_from(src: Seq<char>, p: nat, line: nat) -> Result<Seq<TokenView>, ScanError>
    decreases src.len() - p,
{
    if p >= src.len() {
        Ok(seq![plain(TokenType::EOF, Seq::empty(), line)])
    } else {
        match step(src, p, line) {
            Err(e) => Err(e),
            Ok((t, q, l)) => if p < q <= src.len() {
                prepend(opt_seq(t), scan_from(src, q, l))
            } else {
                Err(ScanError::UnexpectedChar(src[p as int], line as usize))
            },
        }
    }
}

/// The tokens of a whole source text, lines counted from 1.
pub open spec fn scan_spec(src: Seq<char>) -> Result<Seq<TokenView>, ScanError> {
    scan_from(src, 0, 1)
}

pub open spec fn views(ts: Seq<Token>) -> Seq<TokenView> {
    ts.map_values(|t: Token| t@)
}

pub open spec fn opt_view(t: Option<Token>) -> Option<TokenView> {
    match t {
        Some(t) => Some(t@),
        None => None,
    }
}

pub open spec fn opt_view_seq(t: Option<Token>) -> Seq<TokenView> {
    opt_seq(opt_view(t))
}

proof fn lemma_decimal_monotone(s: Seq<char>, j: int)
    requires
        0 <= j <= s.len(),
        forall|k: int| 0 <= k < s.len() ==> is_digit(#[trigger] s[k]) || s[k] == '.',
    ensures
        decimal_value(s.subrange(0, j)) <= decimal_value(s),
    decreases s.len() - j,
{
    if j < s.len() {
        lemma_decimal_monotone(s, j + 1);
        assert(s.subrange(0, j + 1).drop_last() =~= s.subrange(0, j));
    } else {
        assert(s.subrange(0, j) =~= s);
    }
}

proof fn lemma_digits(src: Seq<char>, i: nat)
    requires
        i <= src.len(),
    ensures
        i <= digits_end(src, i) <= src.len(),
        forall|k: int| i <= k < digits_end(src, i) ==> is_digit(#[trigger] src[k]),
    decreases src.len() - i,
{
    if i < src.len() && is_digit(src[i as int]) {
        lemma_digits(src, i + 1);
    }
}

proof fn lemma_pow10_monotone(a: nat, b: nat)
    requires
        a <= b,
    ensures
        pow10(a) <= pow10(b),
    decreases b,
{
    if a < b {
        lemma_pow10_monotone(a, (b - 1) as nat);
    }
}

fn is_digit_char(c: char) -> (r: bool)
    ensures
        r == is_digit(c),
{
    '0' <= c && c <= '9'
}

/// Whether `c` may start a name: an ASCII letter or `_`.
fn is_alpha_char(c: char) -> (r: bool)
    ensures
        r == is_alpha(c),
{
    ('a' <= c && c <= 'z') || ('A' <= c && c <= 'Z') || c == '_'
}

fn is_alphanumeric_char(c: char) -> (r: bool)
    ensures
        r == is_alphanumeric(c),
{
    is_alpha_char(c) || is_digit_char(c)
}

fn single_kind_of(c: char) -> (r: Option<TokenType>)
    ensures
        r == single_kind(c),
{
    if c == '(' {
        Some(TokenType::LEFT_PAREN)
    } else if c == ')' {
        Some(TokenType::RIGHT_PAREN)
    } else if c == '{' {
        Some(TokenType::LEFT_BRACE)
    } else if c == '}' {
        Some(TokenType::RIGHT_BRACE)
    } else if c == ',' {
        Some(TokenType::COMMA)
    } else if c == '.' {
        Some(TokenType::DOT)
    } else if c == '-' {
        Some(TokenType::MINUS)
    } else if c == '+' {
        Some(TokenType::PLUS)
    } else if c == ';' {
        Some(TokenType::SEMICOLON)
    } else if c == '*' {
        Some(TokenType::STAR)
    } else {
        None
    }
}

fn pair_kinds_of(c: char) -> (r: Option<(TokenType, TokenType)>)
    ensures
        r == pair_kinds(c),
{
    if c == '!' {
        Some((TokenType::BANG, TokenType::BANG_EQUAL))
    } else if c == '=' {
        Some((TokenType::EQUAL, TokenType::EQUAL_EQUAL))
    } else if c == '<' {
        Some((TokenType::LESS, TokenType::LESS_EQUAL))
    } else if c == '>' {
        Some((TokenType::GREATER, TokenType::GREATER_EQUAL))
    } else {
        None
    }
}

/// Scans a source text into tokens.
pub struct Scanner {
    source: String,
    chars: Vec<char>,
    pub tokens: Vec<Token>,
    current: usize,
    line: usize,
}

impl Scanner {
    /// The source text.
    pub closed spec fn src(&self) -> Seq<char> {
        self.source@
    }

    /// The tokens scanned so far.
    pub closed spec fn token_views(&self) -> Seq<TokenView> {
        views(self.tokens@)
    }

    pub closed spec fn wf(&self) -> bool {
        self.chars@ == self.source@
    }

    /// A scanner over `source`, with no tokens yet.
    pub fn new(source: String) -> (r: Scanner)
        ensures
            r.wf(),
            r.src() == source@,
            r.token_views().len() == 0,
    {
        let n = source.as_str().unicode_len();
        let mut chars: Vec<char> = Vec::new();
        let mut i: usize = 0;
        while i < n
            invariant
                n == source@.len(),
                i <= n,
                chars@ == source@.subrange(0, i as int),
            decreases n - i,
        {
            chars.push(source.as_str().get_char(i));
            i = i + 1;
            assert(chars@ =~= source@.subrange(0, i as int));
        }
        assert(chars@ =~= source@);
        Scanner { source, chars, tokens: Vec::new(), current: 0, line: 1 }
    }

    fn digits_end(&self, i: usize) -> (r: usize)
        requires
            i <= self.chars@.len(),
        ensures
            r == digits_end(self.chars@, i as nat),
            i <= r <= self.chars@.len(),
    {
        let mut j = i;
        while j < self.chars.len() && is_digit_char(self.chars[j])
            invariant
                i <= j <= self.chars@.len(),
                digits_end(self.chars@, i as nat) == digits_end(self.chars@, j as nat),
            decreases self.chars@.len() - j,
        {
            j = j + 1;
        }
        j
    }

    fn ident_end(&self, i: usize) -> (r: usize)
        requires
            i <= self.chars@.len(),
        ensures
            r == ident_end(self.chars@, i as nat),
            i <= r <= self.chars@.len(),
    {
        let mut j = i;
        while j < self.chars.len() && is_alphanumeric_char(self.chars[j])
            invariant
                i <= j <= self.chars@.len(),
                ident_end(self.chars@, i as nat) == ident_end(self.chars@, j as nat),
            decreases self.chars@.len() - j,
        {
            j = j + 1;
        }
        j
    }

    fn quote_end(&self, i: usize) -> (r: usize)
        requires
            i <= self.chars@.len(),
        ensures
            r == quote_end(self.chars@, i as nat),
            i <= r <= self.chars@.len(),
    {
        let mut j = i;
        while j < self.chars.len() && self.chars[j] != '"'
            invariant
                i <= j <= self.chars@.len(),
                quote_end(self.chars@, i as nat) == quote_end(self.chars@, j as nat),
            decreases self.chars@.len() - j,
        {
            j = j + 1;
        }
        j
    }

    fn line_end(&self, i: usize) -> (r: usize)
        requires
            i <= self.chars@.len(),
        ensures
            r == line_end(self.chars@, i as nat),
            i <= r <= self.chars@.len(),
    {
        let mut j = i;
        while j < self.chars.len() && self.chars[j] != '\n'
            invariant
                i <= j <= self.chars@.len(),
                line_end(self.chars@, i as nat) == line_end(self.chars@, j as nat),
            decreases self.chars@.len() - j,
        {
            j = j + 1;
        }
        j
    }

    /// Skips a block comment whose body starts at `i`.
    fn parse_block_comments(&self, i: usize) -> (r: usize)
        requires
            i <= self.chars@.len(),
        ensures
            r == comment_end(self.chars@, i as nat),
            i <= r <= self.chars@.len(),
    {
        let n = self.chars.len();
        let mut j = i;
        while j < n && n - j > 1 && !(self.chars[j] == '*' && self.chars[j + 1] == '/')
            invariant
                n == self.chars@.len(),
                i <= j <= n,
                comment_end(self.chars@, i as nat) == comment_end(self.chars@, j as nat),
            decreases n - j,
        {
            j = j + 1;
        }
        if j < n && n - j > 1 { j + 2 } else { n }
    }

    fn newlines_between(&self, a: usize, b: usize) -> (r: usize)
        requires
            a <= b <= self.chars@.len(),
        ensures
            r == count_newlines(self.chars@.subrange(a as int, b as int)),
            r <= b - a,
    {
        let mut j = a;
        let mut k: usize = 0;
        while j < b
            invariant
                a <= j <= b <= self.chars@.len(),
                k == count_newlines(self.chars@.subrange(a as int, j as int)),
                k <= j - a,
            decreases b - j,
        {
            proof {
                assert(self.chars@.subrange(a as int, j + 1).drop_last()
                    =~= self.chars@.subrange(a as int, j as int));
            }
            if self.chars[j] == '\n' {
                k = k + 1;
            }
            j = j + 1;
        }
        k
    }

    fn lexeme(&self, a: usize, b: usize) -> (r: String)
        requires
            self.wf(),
            a <= b <= self.chars@.len(),
        ensures
            r@ == self.chars@.subrange(a as int, b as int),
    {
        string_of(self.source.as_str().substring_char(a, b))
    }

    /// Scans a number literal starting at `p`.
    fn parse_number(&self, p: usize, line: usize) -> (r: Result<(Option<Token>, usize, usize), ScanError>)
        requires
            self.wf(),
            p < self.chars@.len(),
            is_digit(self.chars@[p as int]),
        ensures
            match step(self.chars@, p as nat, line as nat) {
                Ok((t, q, l)) => r matches Ok((t2, q2, l2)) && opt_view(t2) == t && q2 == q && l2 == l,
                Err(e) => r matches Err(e2) && e2 == e,
            },
            r matches Ok((_, q2, l2)) ==> p < q2 <= self.chars@.len() && l2 == line,
    {
        let ghost src = self.chars@;
        let _n = self.chars.len();
        let a = self.digits_end(p + 1);
        assert(a == digits_end(src, p as nat));
        let q = if a < self.chars.len() && self.chars.len() - a > 1 && self.chars[a] == '.'
            && is_digit_char(self.chars[a + 1]) {
            self.digits_end(a + 1)
        } else {
            a
        };
        let places: usize = if q > a { q - a - 1 } else { 0 };
        let ghost text = src.subrange(p as int, q as int);
        proof {
            lemma_digits(src, p as nat);
            if q > a {
                lemma_digits(src, (a + 1) as nat);
            }
            assert forall|k: int| 0 <= k < text.len() implies is_digit(#[trigger] text[k]) || text[k] == '.' by {
                assert(text[k] == src[p + k]);
            }
        }
        let mut v: u64 = 0;
        let mut j = p;
        while j < q
            invariant
                p <= j <= q <= src.len(),
                src == self.chars@,
                v == decimal_value(src.subrange(p as int, j as int)),
                v <= i64::MAX,
                text == src.subrange(p as int, q as int),
                a == digits_end(src, p as nat),
                q == number_end(src, p as nat),
                is_digit(src[p as int]),
                forall|k: int| 0 <= k < text.len() ==> is_digit(#[trigger] text[k]) || text[k] == '.',
            decreases q - j,
        {
            proof {
                assert(src.subrange(p as int, j + 1).drop_last() =~= src.subrange(p as int, j as int));
            }
            let c = self.chars[j];
            assert(c == text[j - p]);
            if c != '.' {
                let d = (c as u32 - '0' as u32) as u64;
                if v > (i64::MAX as u64 - d) / 10 {
                    proof {
                        let m = i64::MAX as u64 - d;
                        assert(v * 10 + d > i64::MAX) by (nonlinear_arith)
                            requires v > m / 10, m == i64::MAX - d, d <= 9;
                        assert(decimal_value(src.subrange(p as int, j + 1)) == v * 10 + d);
                        assert(text.subrange(0, (j + 1 - p) as int) =~= src.subrange(p as int, j + 1));
                        lemma_decimal_monotone(text, (j + 1 - p) as int);
                    }
                    return Err(ScanError::NumberTooLarge(line));
                }
                v = v * 10 + d;
            }
            j = j + 1;
        }
        let mut den: u64 = 1;
        let mut k: usize = 0;
        while k < places
            invariant
                k <= places,
                den == pow10(k as nat),
                1 <= den <= i64::MAX,
                src == self.chars@,
                p <= q <= src.len(),
                places == (if q > a { q - a - 1 } else { 0 }),
                v == decimal_value(text),
                v <= i64::MAX,
                text == src.subrange(p as int, q as int),
                a == digits_end(src, p as nat),
                q == number_end(src, p as nat),
                is_digit(src[p as int]),
            decreases places - k,
        {
            if den > i64::MAX as u64 / 10 {
                proof {
                    assert(pow10((k + 1) as nat) == 10 * pow10(k as nat));
                    lemma_pow10_monotone((k + 1) as nat, places as nat);
                }
                return Err(ScanError::NumberTooLarge(line));
            }
            den = den * 10;
            k = k + 1;
            assert(pow10(k as nat) == 10 * pow10((k - 1) as nat));
        }
        proof {
            lemma_make_fits(v as int, den as int);
        }
        let n = Number::ratio(v as i64, den as i64);
        let n = n.unwrap();
        let tok = Token::new(TokenType::NUMBER, self.lexeme(p, q), line, Literal::Number(n));
        Ok((Some(tok), q, line))
    }

    /// Scans the token that starts at `p`, on line `line`: the token, if the
    /// text there makes one, the position after it, and the line after it.
    fn get_token_type(&self, p: usize, line: usize) -> (r: Result<(Option<Token>, usize, usize), ScanError>)
        requires
            self.wf(),
            p < self.chars@.len(),
            self.chars@.len() < usize::MAX,
            1 <= line <= p + 1,
        ensures
            match step(self.chars@, p as nat, line as nat) {
                Ok((t, q, l)) => r matches Ok((t2, q2, l2)) && opt_view(t2) == t && q2 == q && l2 == l,
                Err(e) => r matches Err(e2) && e2 == e,
            },
            r matches Ok((_, q2, l2)) ==> p < q2 <= self.chars@.len() && 1 <= l2 <= q2 + 1,
    {
        let ghost src = self.chars@;
        let n = self.chars.len();
        let c = self.chars[p];
        let next_is_eq = n - p > 1 && self.chars[p + 1] == '=';
        if let Some(kind) = single_kind_of(c) {
            let lx = self.lexeme(p, p + 1);
            assert(lx@ =~= seq![c]);
            Ok((Some(Token::new(kind, lx, line, Literal::Nil)), p + 1, line))
        } else if let Some((alone, with_eq)) = pair_kinds_of(c) {
            if next_is_eq {
                let lx = self.lexeme(p, p + 2);
                assert(lx@ =~= seq![c, '=']);
                Ok((Some(Token::new(with_eq, lx, line, Literal::Nil)), p + 2, line))
            } else {
                let lx = self.lexeme(p, p + 1);
                assert(lx@ =~= seq![c]);
                Ok((Some(Token::new(alone, lx, line, Literal::Nil)), p + 1, line))
            }
        } else if c == '/' {
            if n - p > 1 && self.chars[p + 1] == '/' {
                Ok((None, self.line_end(p + 2), line))
            } else if n - p > 1 && self.chars[p + 1] == '*' {
                let e = self.parse_block_comments(p + 2);
                let k = self.newlines_between(p, e);
                Ok((None, e, line + k))
            } else {
                let lx = self.lexeme(p, p + 1);
                assert(lx@ =~= seq![c]);
                Ok((Some(Token::new(TokenType::SLASH, lx, line, Literal::Nil)), p + 1, line))
            }
        } else if c == ' ' || c == '\r' || c == '\t' {
            Ok((None, p + 1, line))
        } else if c == '\n' {
            Ok((None, p + 1, line + 1))
        } else if c == '"' {
            self.parse_string(p, line)
        } else if is_digit_char(c) {
            self.parse_number(p, line)
        } else if is_alpha_char(c) {
            self.parse_identifier(p, line)
        } else {
            Err(ScanError::UnexpectedChar(c, line))
        }
    }

    /// Scans a string literal whose opening quote is at `p`.
    fn parse_string(&self, p: usize, line: usize) -> (r: Result<(Option<Token>, usize, usize), ScanError>)
        requires
            self.wf(),
            p < self.chars@.len(),
            self.chars@.len() < usize::MAX,
            self.chars@[p as int] == '"',
            1 <= line <= p + 1,
        ensures
            match step(self.chars@, p as nat, line as nat) {
                Ok((t, q, l)) => r matches Ok((t2, q2, l2)) && opt_view(t2) == t && q2 == q && l2 == l,
                Err(e) => r matches Err(e2) && e2 == e,
            },
            r matches Ok((_, q2, l2)) ==> p < q2 <= self.chars@.len() && 1 <= l2 <= q2 + 1,
    {
        let e = self.quote_end(p + 1);
        if e >= self.chars.len() {
            return Err(ScanError::UnterminatedString(line));
        }
        let k = self.newlines_between(p, e + 1);
        let l = line + k;
        let body = self.lexeme(p + 1, e);
        let tok = Token::new(TokenType::STRING, self.lexeme(p, e + 1), l, Literal::String(body));
        Ok((Some(tok), e + 1, l))
    }

    /// Scans a name or reserved word starting at `p`.
    fn parse_identifier(&self, p: usize, line: usize) -> (r: Result<(Option<Token>, usize, usize), ScanError>)
        requires
            self.wf(),
            p < self.chars@.len(),
            is_alpha(self.chars@[p as int]),
            1 <= line <= p + 1,
        ensures
            match step(self.chars@, p as nat, line as nat) {
                Ok((t, q, l)) => r matches Ok((t2, q2, l2)) && opt_view(t2) == t && q2 == q && l2 == l,
                Err(e) => r matches Err(e2) && e2 == e,
            },
            r matches Ok((_, q2, l2)) ==> p < q2 <= self.chars@.len() && 1 <= l2 <= q2 + 1,
    {
        let _n = self.chars.len();
        let q = self.ident_end(p + 1);
        assert(q == ident_end(self.chars@, p as nat));
        let w = self.lexeme(p, q);
        let kind = match get_keywords(w.as_str()) {
            Some(k) => k,
            None => TokenType::IDENTIFIER,
        };
        Ok((Some(Token::new(kind, w, line, Literal::Nil)), q, line))
    }

    /// Scans the whole source: its tokens ended by an `EOF` token, or the
    /// first error. Scanning starts afresh on every call.
    pub fn scan_tokens(&mut self) -> (r: Result<(), ScanError>)
        requires
            old(self).wf(),
            old(self).src().len() < usize::MAX,
        ensures
            final(self).wf(),
            final(self).src() == old(self).src(),
            match scan_spec(old(self).src()) {
                Ok(ts) => r is Ok && final(self).token_views() == ts,
                Err(e) => r matches Err(e2) && e2 == e,
            },
    {
        self.tokens = Vec::new();
        self.current = 0;
        self.line = 1;
        let ghost src = self.chars@;
        assert(views(self.tokens@) =~= Seq::empty());
        assert(Seq::<TokenView>::empty() + scan_spec(src)->Ok_0 =~= scan_spec(src)->Ok_0);
        while self.current < self.chars.len()
            invariant
                self.wf(),
                self.source@ == old(self).source@,
                src == self.chars@,
                src.len() < usize::MAX,
                self.current <= src.len(),
                1 <= self.line <= self.current + 1,
                scan_spec(src) == prepend(views(self.tokens@), scan_from(src, self.current as nat, self.line as nat)),
            decreases src.len() - self.current,
        {
            let (t, q, l) = self.get_token_type(self.current, self.line)?;
            let ghost before = self.tokens@;
            proof {
                let rest = scan_from(src, q as nat, l as nat);
                assert(scan_from(src, self.current as nat, self.line as nat) == prepend(opt_view_seq(t), rest));
                match rest {
                    Ok(x) => {
                        assert(views(before) + (opt_view_seq(t) + x) =~= (views(before) + opt_view_seq(t)) + x);
                    },
                    Err(_) => {},
                }
            }
            match t {
                Some(tok) => {
                    self.tokens.push(tok);
                    assert(views(self.tokens@) =~= views(before) + opt_view_seq(Some(tok)));
                },
                None => {
                    assert(views(self.tokens@) =~= views(before) + opt_view_seq(None));
                },
            }
            self.current = q;
            self.line = l;
        }
        let ghost before = self.tokens@;
        self.tokens.push(Token::new(TokenType::EOF, String::new(), self.line, Literal::Nil));
        assert(views(self.tokens@) =~= views(before) + seq![plain(TokenType::EOF, Seq::empty(), self.line as nat)]);
        Ok(())
    }
}

/// The tokens of a source text, ended by an `EOF` token, or the first error.
pub fn scan(source: &str) -> (r: Result<Vec<Token>, ScanError>)
    requires
        source@.len() < usize::MAX,
    ensures
        match scan_spec(source@) {
            Ok(ts) => r matches Ok(toks) && views(toks@) == ts,
            Err(e) => r matches Err(e2) && e2 == e,
        },
{
    let mut s = Scanner::new(string_of(source));
    s.scan_tokens()?;
    Ok(s.tokens)
}

} // verus!
