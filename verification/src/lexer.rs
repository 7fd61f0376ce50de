//! Lexer of the expression language.
use crate::error::{Error, SpecError};
use crate::number::{capped_decimal_value, decimal_number, decimal_value, digit_run, digit_values, hex_digits_value, hex_run, hex_u64, lemma_digit_run, lemma_hex_run, lemma_normalize_cap, make_number, nat_number, number_from_u64, push_digit_values, scan_digits, scan_hex_digits, Number, SpecNumber};
use crate::text::{chars_eq, ascii_alpha, ascii_digit, chars_of, is_ascii_alpha, is_ascii_digit, lead_ws, lemma_lead_ws, push_char, push_str, string_of_range, white_space, is_white_space};
use vstd::prelude::*;

verus! {

/// Token produced by the expression lexer.
#[derive(Debug, PartialEq)]
pub enum Token {
    StringLit(String),
    NumberLit(Number),
    True,
    False,
    Null,
    Ident(String),
    Eq,
    Neq,
    Lt,
    Gt,
    Lte,
    Gte,
    And,
    Or,
    Bang,
    Dot,
    Comma,
    LParen,
    RParen,
    LBracket,
    RBracket,
    Star,
    Eof,
}

pub ghost enum SpecToken {
    StringLit(Seq<char>),
    NumberLit(SpecNumber),
    True,
    False,
    Null,
    Ident(Seq<char>),
    Eq,
    Neq,
    Lt,
    Gt,
    Lte,
    Gte,
    And,
    Or,
    Bang,
    Dot,
    Comma,
    LParen,
    RParen,
    LBracket,
    RBracket,
    Star,
    Eof,
}

impl View for Token {
    type V = SpecToken;

    open spec fn view(&self) -> SpecToken {
        match self {
            Token::StringLit(s) => SpecToken::StringLit(s@),
            Token::NumberLit(n) => SpecToken::NumberLit(n@),
            Token::True => SpecToken::True,
            Token::False => SpecToken::False,
            Token::Null => SpecToken::Null,
            Token::Ident(s) => SpecToken::Ident(s@),
            Token::Eq => SpecToken::Eq,
            Token::Neq => SpecToken::Neq,
            Token::Lt => SpecToken::Lt,
            Token::Gt => SpecToken::Gt,
            Token::Lte => SpecToken::Lte,
            Token::Gte => SpecToken::Gte,
            Token::And => SpecToken::And,
            Token::Or => SpecToken::Or,
            Token::Bang => SpecToken::Bang,
            Token::Dot => SpecToken::Dot,
            Token::Comma => SpecToken::Comma,
            Token::LParen => SpecToken::LParen,
            Token::RParen => SpecToken::RParen,
            Token::LBracket => SpecToken::LBracket,
            Token::RBracket => SpecToken::RBracket,
            Token::Star => SpecToken::Star,
            Token::Eof => SpecToken::Eof,
        }
    }
}

/// The views of a token list.
pub open spec fn tokens_view(ts: Seq<Token>) -> Seq<SpecToken> {
    ts.map_values(|t: Token| t@)
}

pub open spec fn syntax_error(position: int, message: Seq<char>) -> SpecError {
    SpecError::ExpressionSyntax { position, message }
}

/// Characters allowed after the first one of an identifier.
pub open spec fn ident_char(c: char) -> bool {
    ascii_alpha(c) || ascii_digit(c) || c == '_' || c == '-'
}

/// End of the identifier characters starting at `from`.
pub open spec fn ident_run(cs: Seq<char>, from: int) -> int
    decreases cs.len() - from,
{
    if 0 <= from < cs.len() && ident_char(cs[from]) {
        ident_run(cs, from + 1)
    } else {
        from
    }
}

/// The string literal whose opening quote has been read, `q` being the
/// position after what was read so far and `acc` the characters so far.
pub open spec fn lex_string(cs: Seq<char>, q: int, acc: Seq<char>) -> Result<(SpecToken, int), SpecError>
    decreases cs.len() - q,
{
    if q < 0 || q >= cs.len() {
        Err(syntax_error(cs.len() + 1int, "unterminated string literal"@))
    } else if cs[q] == '\'' {
        if q + 1 < cs.len() && cs[q + 1] == '\'' {
            lex_string(cs, q + 2, acc.push('\''))
        } else {
            Ok((SpecToken::StringLit(acc), q + 1))
        }
    } else {
        lex_string(cs, q + 1, acc.push(cs[q]))
    }
}

/// The keyword or identifier of a word.
pub open spec fn word_token(w: Seq<char>) -> SpecToken {
    if w == "true"@ {
        SpecToken::True
    } else if w == "false"@ {
        SpecToken::False
    } else if w == "null"@ {
        SpecToken::Null
    } else {
        SpecToken::Ident(w)
    }
}

/// The text of a sign: `-` when negative, nothing otherwise.
pub open spec fn sign_text(neg: bool) -> Seq<char> {
    if neg {
        seq!['-']
    } else {
        Seq::empty()
    }
}

/// The message of a decimal literal whose exponent has no digits: the
/// literal read so far, up to the exponent's sign.
pub open spec fn exponent_error_text(
    cs: Seq<char>,
    neg: bool,
    q: int,
    ie: int,
    has_point: bool,
    fe: int,
    es: int,
    has_sign: bool,
) -> Seq<char> {
    "invalid number: "@ + sign_text(neg) + cs.subrange(q, ie) + (if has_point {
        seq!['.'] + cs.subrange(ie + 1, fe)
    } else {
        Seq::empty()
    }) + seq!['e'] + (if has_sign {
        seq![cs[es]]
    } else {
        Seq::empty()
    })
}

/// Where the digits of a literal start: after the `-` if there is one.
pub open spec fn digits_start(cs: Seq<char>, p: int) -> int {
    if cs[p] == '-' {
        p + 1
    } else {
        p
    }
}

/// Whether the literal at `p` is hexadecimal (`0x` or `0X` after the sign).
pub open spec fn is_hex_literal(cs: Seq<char>, p: int) -> bool {
    let q = digits_start(cs, p);
    q < cs.len() && cs[q] == '0' && q + 1 < cs.len() && (cs[q + 1] == 'x' || cs[q + 1] == 'X')
}

/// A hexadecimal literal at `p`.
pub open spec fn lex_hex(cs: Seq<char>, p: int) -> Result<(SpecToken, int), SpecError> {
    let neg = cs[p] == '-';
    let q = digits_start(cs, p);
    let he = hex_run(cs, q + 2);
    let hex = cs.subrange(q + 2, he);
    if neg || hex.len() == 0 || hex_digits_value(hex) > u64::MAX {
        Err(syntax_error(p, "invalid hex number: "@ + sign_text(neg) + seq!['0', 'x'] + hex))
    } else {
        Ok((SpecToken::NumberLit(nat_number(hex_digits_value(hex))), he))
    }
}

/// A decimal literal at `p`: digits, an optional fraction and an optional
/// exponent.
pub open spec fn lex_decimal(cs: Seq<char>, p: int) -> Result<(SpecToken, int), SpecError> {
    let neg = cs[p] == '-';
    let q = digits_start(cs, p);
    let ie = digit_run(cs, q);
    let has_point = ie < cs.len() && cs[ie] == '.';
    let fs = if has_point {
        ie + 1
    } else {
        ie
    };
    let fe = digit_run(cs, fs);
    let int_part = cs.subrange(q, ie);
    let frac = cs.subrange(fs, fe);
    if fe < cs.len() && (cs[fe] == 'e' || cs[fe] == 'E') {
        let es = fe + 1;
        let has_sign = es < cs.len() && (cs[es] == '+' || cs[es] == '-');
        let ds = if has_sign {
            es + 1
        } else {
            es
        };
        let de = digit_run(cs, ds);
        if de == ds {
            Err(syntax_error(p, exponent_error_text(cs, neg, q, ie, has_point, fe, es, has_sign)))
        } else {
            let v = decimal_value(cs.subrange(ds, de)) as int;
            let e = if has_sign && cs[es] == '-' {
                -v
            } else {
                v
            };
            Ok((SpecToken::NumberLit(decimal_number(neg, int_part, frac, e)), de))
        }
    } else {
        Ok((SpecToken::NumberLit(decimal_number(neg, int_part, frac, 0)), fe))
    }
}

/// The number literal starting at `p` (a digit, or `-` before a digit).
pub open spec fn lex_number(cs: Seq<char>, p: int) -> Result<(SpecToken, int), SpecError> {
    if is_hex_literal(cs, p) {
        lex_hex(cs, p)
    } else {
        lex_decimal(cs, p)
    }
}

/// A token made of one or two characters starting at `p`: `second` is what
/// the token is when `c2` follows, `first` when it does not.
pub open spec fn two_char(
    cs: Seq<char>,
    p: int,
    c2: char,
    second: SpecToken,
    first: SpecToken,
) -> Result<(SpecToken, int), SpecError> {
    if p + 1 < cs.len() && cs[p + 1] == c2 {
        Ok((second, p + 2))
    } else {
        Ok((first, p + 1))
    }
}

/// A token that must be a doubled character starting at `p`.
pub open spec fn doubled(cs: Seq<char>, p: int, c: char, tok: SpecToken, msg: Seq<char>) -> Result<
    (SpecToken, int),
    SpecError,
> {
    if p + 1 < cs.len() && cs[p + 1] == c {
        Ok((tok, p + 2))
    } else {
        Err(syntax_error(p + 1, msg))
    }
}

/// The token starting at `p` (which holds a non-white-space character) and
/// the position after it.
pub open spec fn next_token(cs: Seq<char>, p: int) -> Result<(SpecToken, int), SpecError> {
    let c = cs[p];
    if c == '\'' {
        lex_string(cs, p + 1, Seq::empty())
    } else if c == '(' {
        Ok((SpecToken::LParen, p + 1))
    } else if c == ')' {
        Ok((SpecToken::RParen, p + 1))
    } else if c == '[' {
        Ok((SpecToken::LBracket, p + 1))
    } else if c == ']' {
        Ok((SpecToken::RBracket, p + 1))
    } else if c == '.' {
        Ok((SpecToken::Dot, p + 1))
    } else if c == ',' {
        Ok((SpecToken::Comma, p + 1))
    } else if c == '*' {
        Ok((SpecToken::Star, p + 1))
    } else if c == '!' {
        two_char(cs, p, '=', SpecToken::Neq, SpecToken::Bang)
    } else if c == '=' {
        doubled(cs, p, '=', SpecToken::Eq, "expected '==' but got single '='"@)
    } else if c == '<' {
        two_char(cs, p, '=', SpecToken::Lte, SpecToken::Lt)
    } else if c == '>' {
        two_char(cs, p, '=', SpecToken::Gte, SpecToken::Gt)
    } else if c == '&' {
        doubled(cs, p, '&', SpecToken::And, "expected '&&' but got single '&'"@)
    } else if c == '|' {
        doubled(cs, p, '|', SpecToken::Or, "expected '||' but got single '|'"@)
    } else if ascii_digit(c) || (c == '-' && p + 1 < cs.len() && ascii_digit(cs[p + 1])) {
        lex_number(cs, p)
    } else if ascii_alpha(c) || c == '_' {
        Ok((word_token(cs.subrange(p, ident_run(cs, p))), ident_run(cs, p)))
    } else {
        Err(syntax_error(p, "unexpected character: '"@ + seq![c] + "'"@))
    }
}

/// The tokens of `cs[p..]`, ending with `Eof`, or the first error.
pub open spec fn lex_from(cs: Seq<char>, p: int) -> Result<Seq<SpecToken>, SpecError>
    decreases cs.len() - p,
{
    if p < 0 || p > cs.len() {
        Ok(seq![SpecToken::Eof])
    } else {
        let q = p + lead_ws(cs.skip(p));
        if q >= cs.len() {
            Ok(seq![SpecToken::Eof])
        } else {
            match next_token(cs, q) {
                Err(e) => Err(e),
                Ok((t, r)) => if r <= p || r > cs.len() {
                    Ok(seq![SpecToken::Eof])
                } else {
                    match lex_from(cs, r) {
                        Err(e) => Err(e),
                        Ok(ts) => Ok(seq![t] + ts),
                    }
                },
            }
        }
    }
}

/// The tokens of an expression.
pub open spec fn lex(cs: Seq<char>) -> Result<Seq<SpecToken>, SpecError> {
    lex_from(cs, 0)
}

pub struct Lexer {
    chars: Vec<char>,
    pos: usize,
}

impl Lexer {
    pub closed spec fn text(&self) -> Seq<char> {
        self.chars@
    }

    pub closed spec fn position(&self) -> int {
        self.pos as int
    }

    /// A lexer at the start of `input`.
    pub fn new(input: &str) -> (l: Lexer)
        ensures
            l.text() == input@,
            l.position() == 0,
    {
        Lexer { chars: chars_of(input), pos: 0 }
    }

    /// The character at the current position, if any.
    fn peek(&self) -> (c: Option<char>)
        ensures
            0 <= self.pos < self.chars@.len() ==> c == Some(self.chars@[self.pos as int]),
            self.pos >= self.chars@.len() ==> c is None,
    {
        if self.pos < self.chars.len() {
            Some(self.chars[self.pos])
        } else {
            None
        }
    }

    /// The character at the current position, if any, moving one step on.
    fn advance(&mut self) -> (c: Option<char>)
        requires
            old(self).pos < usize::MAX,
        ensures
            final(self).chars == old(self).chars,
            final(self).pos == old(self).pos + 1,
            old(self).pos < old(self).chars@.len() ==> c == Some(
                old(self).chars@[old(self).pos as int],
            ),
            old(self).pos >= old(self).chars@.len() ==> c is None,
    {
        let c = self.peek();
        self.pos += 1;
        c
    }

    /// Moves past white space.
    fn skip_whitespace(&mut self)
        requires
            old(self).pos <= old(self).chars@.len(),
        ensures
            final(self).chars == old(self).chars,
            final(self).pos == old(self).pos + lead_ws(old(self).chars@.skip(old(self).pos as int)),
            final(self).pos <= final(self).chars@.len(),
    {
        let ghost start = self.pos;
        while self.pos < self.chars.len() && is_white_space(self.chars[self.pos])
            invariant
                self.chars == old(self).chars,
                start == old(self).pos,
                start <= self.pos <= self.chars@.len(),
                forall|j: int| start <= j < self.pos ==> white_space(#[trigger] self.chars@[j]),
            decreases self.chars@.len() - self.pos,
        {
            self.pos += 1;
        }
        proof {
            let t = self.chars@.skip(start as int);
            assert forall|j: int| 0 <= j < self.pos - start implies white_space(#[trigger] t[j]) by {
                assert(t[j] == self.chars@[start + j]);
            }
            lemma_lead_ws(t, self.pos - start);
        }
    }

    /// Whether a `-` at the current position starts a negative number
    /// (a digit follows).
    fn is_start_of_negative_number(&self) -> (b: bool)
        ensures
            b == (self.pos + 1 < self.chars@.len() && ascii_digit(self.chars@[self.pos + 1])),
    {
        self.pos < self.chars.len() && self.pos + 1 < self.chars.len() && is_ascii_digit(
            self.chars[self.pos + 1],
        )
    }

    /// Reads a string literal whose opening quote is at the current position.
    fn read_string(&mut self) -> (r: Result<Token, Error>)
        requires
            old(self).pos < old(self).chars@.len() < usize::MAX,
            old(self).chars@[old(self).pos as int] == '\'',
        ensures
            final(self).chars == old(self).chars,
            match lex_string(old(self).chars@, old(self).pos + 1, Seq::empty()) {
                Ok((t, q)) => r matches Ok(tok) && tok@ == t && final(self).pos == q,
                Err(e) => r matches Err(err) && err@ == e,
            },
    {
        let ghost cs = self.chars@;
        let n = self.chars.len();
        self.pos += 1;
        let mut acc: Vec<char> = Vec::new();
        loop
            invariant
                self.chars == old(self).chars,
                self.chars@ == cs,
                n < usize::MAX,
                n == cs.len(),
                old(self).pos + 1 <= self.pos <= n,
                lex_string(cs, old(self).pos + 1, Seq::empty()) == lex_string(
                    cs,
                    self.pos as int,
                    acc@,
                ),
            decreases n - self.pos,
        {
            if self.pos >= n {
                return Err(
                    Error::ExpressionSyntax {
                        position: n + 1,
                        message: String::from_str("unterminated string literal"),
                    },
                );
            }
            let c = self.chars[self.pos];
            self.pos += 1;
            if c == '\'' {
                if self.pos < n && self.chars[self.pos] == '\'' {
                    self.pos += 1;
                    acc.push('\'');
                } else {
                    let s = crate::text::string_of(acc.as_slice());
                    return Ok(Token::StringLit(s));
                }
            } else {
                acc.push(c);
            }
        }
    }

    /// Reads an identifier or keyword starting at the current position.
    fn read_ident_or_keyword(&mut self) -> (r: Token)
        requires
            old(self).pos <= old(self).chars@.len(),
        ensures
            final(self).chars == old(self).chars,
            final(self).pos == ident_run(old(self).chars@, old(self).pos as int),
            r@ == word_token(
                old(self).chars@.subrange(old(self).pos as int, final(self).pos as int),
            ),
    {
        let start = self.pos;
        let n = self.chars.len();
        while self.pos < n && (is_ascii_alpha(self.chars[self.pos]) || is_ascii_digit(
            self.chars[self.pos],
        ) || self.chars[self.pos] == '_' || self.chars[self.pos] == '-')
            invariant
                start <= self.pos <= n == self.chars@.len(),
                self.chars == old(self).chars,
                ident_run(self.chars@, start as int) == ident_run(self.chars@, self.pos as int),
            decreases n - self.pos,
        {
            self.pos += 1;
        }
        let w = string_of_range(self.chars.as_slice(), start, self.pos);
        let t: [char; 4] = ['t', 'r', 'u', 'e'];
        let f: [char; 5] = ['f', 'a', 'l', 's', 'e'];
        let nl: [char; 4] = ['n', 'u', 'l', 'l'];
        proof {
            reveal_strlit("true");
            reveal_strlit("false");
            reveal_strlit("null");
        }
        assert(t@ =~= "true"@);
        assert(f@ =~= "false"@);
        assert(nl@ =~= "null"@);
        let wc = chars_of(w.as_str());
        if chars_eq(wc.as_slice(), &t) {
            Token::True
        } else if chars_eq(wc.as_slice(), &f) {
            Token::False
        } else if chars_eq(wc.as_slice(), &nl) {
            Token::Null
        } else {
            Token::Ident(w)
        }
    }
}


/// The parsed-prefix relation used while tokenizing: the result for the
/// whole input is `done` followed by the result for the rest.
pub open spec fn prepend(done: Seq<SpecToken>, rest: Result<Seq<SpecToken>, SpecError>) -> Result<
    Seq<SpecToken>,
    SpecError,
> {
    match rest {
        Ok(ts) => Ok(done + ts),
        Err(e) => Err(e),
    }
}

/// The tokens of `cs[p..]` are at most one more than its characters.
pub proof fn lemma_lex_len(cs: Seq<char>, p: int)
    requires
        0 <= p <= cs.len(),
    ensures
        lex_from(cs, p) matches Ok(ts) ==> ts.len() <= cs.len() - p + 1,
    decreases cs.len() - p,
{
    let q = p + lead_ws(cs.skip(p));
    crate::text::lemma_lead_ws_bound(cs.skip(p));
    if q < cs.len() {
        lemma_next_token_progress(cs, q);
        match next_token(cs, q) {
            Ok((t, r)) => {
                if p < r <= cs.len() {
                    lemma_lex_len(cs, r);
                }
            },
            Err(_) => {},
        }
    }
}

pub proof fn lemma_lex_string_progress(cs: Seq<char>, q: int, acc: Seq<char>)
    requires
        0 <= q <= cs.len(),
    ensures
        lex_string(cs, q, acc) matches Ok((_, r)) ==> q < r <= cs.len(),
    decreases cs.len() - q,
{
    if q < cs.len() {
        if cs[q] == '\'' {
            if q + 1 < cs.len() && cs[q + 1] == '\'' {
                lemma_lex_string_progress(cs, q + 2, acc.push('\''));
            }
        } else {
            lemma_lex_string_progress(cs, q + 1, acc.push(cs[q]));
        }
    }
}

pub proof fn lemma_ident_run(cs: Seq<char>, from: int)
    requires
        0 <= from <= cs.len(),
    ensures
        from <= ident_run(cs, from) <= cs.len(),
    decreases cs.len() - from,
{
    if from < cs.len() && ident_char(cs[from]) {
        lemma_ident_run(cs, from + 1);
    }
}

pub proof fn lemma_next_token_progress(cs: Seq<char>, q: int)
    requires
        0 <= q < cs.len(),
    ensures
        next_token(cs, q) matches Ok((_, r)) ==> q < r <= cs.len(),
{
    let c = cs[q];
    if c == '\'' {
        lemma_lex_string_progress(cs, q + 1, Seq::empty());
    } else if ascii_digit(c) || (c == '-' && q + 1 < cs.len() && ascii_digit(cs[q + 1])) {
        let neg = cs[q] == '-';
        let q2 = if neg {
            q + 1
        } else {
            q
        };
        if q2 < cs.len() && cs[q2] == '0' && q2 + 1 < cs.len() && (cs[q2 + 1] == 'x' || cs[q2
            + 1] == 'X') {
            lemma_hex_run(cs, q2 + 2);
        } else {
            lemma_digit_run(cs, q2);
            let ie = digit_run(cs, q2);
            let fs = if ie < cs.len() && cs[ie] == '.' {
                ie + 1
            } else {
                ie
            };
            lemma_digit_run(cs, fs);
            let fe = digit_run(cs, fs);
            if fe < cs.len() && (cs[fe] == 'e' || cs[fe] == 'E') {
                let es = fe + 1;
                let ds = if es < cs.len() && (cs[es] == '+' || cs[es] == '-') {
                    es + 1
                } else {
                    es
                };
                lemma_digit_run(cs, ds);
            }
        }
    } else if ascii_alpha(c) || c == '_' {
        lemma_ident_run(cs, q + 1);
        lemma_ident_run(cs, q);
    }
}

impl Lexer {
    /// Reads a number literal at the current position.
    fn read_number(&mut self) -> (r: Result<Token, Error>)
        requires
            old(self).pos < old(self).chars@.len(),
            ascii_digit(old(self).chars@[old(self).pos as int]) || (old(self).chars@[old(
                self,
            ).pos as int] == '-' && old(self).pos + 1 < old(self).chars@.len() && ascii_digit(
                old(self).chars@[old(self).pos + 1],
            )),
        ensures
            final(self).chars == old(self).chars,
            match lex_number(old(self).chars@, old(self).pos as int) {
                Ok((t, q)) => r matches Ok(tok) && tok@ == t && final(self).pos == q,
                Err(e) => r matches Err(err) && err@ == e,
            },
    {
        let p = self.pos;
        let n = self.chars.len();
        let q = if self.chars[p] == '-' {
            p + 1
        } else {
            p
        };
        if q < n && self.chars[q] == '0' && q + 1 < n && (self.chars[q + 1] == 'x'
            || self.chars[q + 1] == 'X') {
            self.read_hex_number()
        } else {
            self.read_decimal_number()
        }
    }

    /// Reads a hexadecimal number literal (`0x...`) at the current position.
    fn read_hex_number(&mut self) -> (r: Result<Token, Error>)
        requires
            old(self).pos < old(self).chars@.len(),
            ascii_digit(old(self).chars@[old(self).pos as int]) || (old(self).chars@[old(
                self,
            ).pos as int] == '-' && old(self).pos + 1 < old(self).chars@.len() && ascii_digit(
                old(self).chars@[old(self).pos + 1],
            )),
            is_hex_literal(old(self).chars@, old(self).pos as int),
        ensures
            final(self).chars == old(self).chars,
            match lex_hex(old(self).chars@, old(self).pos as int) {
                Ok((t, q)) => r matches Ok(tok) && tok@ == t && final(self).pos == q,
                Err(e) => r matches Err(err) && err@ == e,
            },
    {
        let ghost cs = self.chars@;
        let p = self.pos;
        let n = self.chars.len();
        let neg = self.chars[p] == '-';
        let q = if neg {
            p + 1
        } else {
            p
        };
        let he = scan_hex_digits(self.chars.as_slice(), q + 2);
        proof {
            lemma_hex_run(cs, q + 2);
        }
        let value = if neg || he == q + 2 {
            None
        } else {
            hex_u64(self.chars.as_slice(), q + 2, he)
        };
        match value {
            Some(v) => {
                self.pos = he;
                return Ok(Token::NumberLit(number_from_u64(v)));
            },
            None => {
                let mut msg = String::from_str("invalid hex number: ");
                if neg {
                    push_char(&mut msg, '-');
                }
                push_char(&mut msg, '0');
                push_char(&mut msg, 'x');
                let hex = string_of_range(self.chars.as_slice(), q + 2, he);
                push_str(&mut msg, hex.as_str());
                assert(msg@ =~= "invalid hex number: "@ + (if neg {
                    seq!['-']
                } else {
                    Seq::empty()
                }) + seq!['0', 'x'] + cs.subrange(q + 2, he as int));
                return Err(Error::ExpressionSyntax { position: p, message: msg });
            },
        }
    }

    /// Reads a decimal number literal at the current position.
    #[verifier::rlimit(40)]
    fn read_decimal_number(&mut self) -> (r: Result<Token, Error>)
        requires
            old(self).pos < old(self).chars@.len(),
            ascii_digit(old(self).chars@[old(self).pos as int]) || (old(self).chars@[old(
                self,
            ).pos as int] == '-' && old(self).pos + 1 < old(self).chars@.len() && ascii_digit(
                old(self).chars@[old(self).pos + 1],
            )),
        ensures
            final(self).chars == old(self).chars,
            match lex_decimal(old(self).chars@, old(self).pos as int) {
                Ok((t, q)) => r matches Ok(tok) && tok@ == t && final(self).pos == q,
                Err(e) => r matches Err(err) && err@ == e,
            },
    {
        let ghost cs = self.chars@;
        let p = self.pos;
        let n = self.chars.len();
        let neg = self.chars[p] == '-';
        let q = if neg {
            p + 1
        } else {
            p
        };
        let ie = scan_digits(self.chars.as_slice(), q);
        proof {
            lemma_digit_run(cs, q as int);
        }
        let has_point = ie < n && self.chars[ie] == '.';
        let fs = if has_point {
            ie + 1
        } else {
            ie
        };
        let fe = scan_digits(self.chars.as_slice(), fs);
        proof {
            lemma_digit_run(cs, fs as int);
        }
        let mut ds: Vec<u8> = Vec::new();
        push_digit_values(&mut ds, self.chars.as_slice(), q, ie);
        push_digit_values(&mut ds, self.chars.as_slice(), fs, fe);
        let ghost ip = cs.subrange(q as int, ie as int);
        let ghost fr = cs.subrange(fs as int, fe as int);
        proof {
            assert(ds@ =~= digit_values(ip + fr));
        }
        let int_len = (ie - q) as i128;
        if fe < n && (self.chars[fe] == 'e' || self.chars[fe] == 'E') {
            let es = fe + 1;
            let has_sign = es < n && (self.chars[es] == '+' || self.chars[es] == '-');
            let dstart = if has_sign {
                es + 1
            } else {
                es
            };
            let de = scan_digits(self.chars.as_slice(), dstart);
            proof {
                lemma_digit_run(cs, dstart as int);
            }
            if de == dstart {
                let msg = exponent_error(
                    self.chars.as_slice(),
                    neg,
                    q,
                    ie,
                    has_point,
                    fe,
                    es,
                    has_sign,
                );
                return Err(Error::ExpressionSyntax { position: p, message: msg });
            }
            let v = capped_decimal_value(self.chars.as_slice(), dstart, de);
            let eneg = has_sign && self.chars[es] == '-';
            let e = if eneg {
                -v
            } else {
                v
            };
            proof {
                let tv = decimal_value(cs.subrange(dstart as int, de as int)) as int;
                lemma_normalize_cap(
                    neg,
                    ds@,
                    int_len as int,
                    if eneg {
                        -tv
                    } else {
                        tv
                    },
                );
            }
            let num = make_number(neg, &ds, int_len + e);
            self.pos = de;
            return Ok(Token::NumberLit(num));
        }
        let num = make_number(neg, &ds, int_len);
        self.pos = fe;
        Ok(Token::NumberLit(num))
    }

    /// Reads the token at the current position (a non-white-space
    /// character).
    fn next_token(&mut self) -> (r: Result<Token, Error>)
        requires
            old(self).pos < old(self).chars@.len() < usize::MAX,
        ensures
            final(self).chars == old(self).chars,
            match next_token(old(self).chars@, old(self).pos as int) {
                Ok((t, q)) => r matches Ok(tok) && tok@ == t && final(self).pos == q,
                Err(e) => r matches Err(err) && err@ == e,
            },
    {
        let c = self.chars[self.pos];
        if c == '\'' {
            return self.read_string();
        }
        if c == '(' || c == ')' || c == '[' || c == ']' || c == '.' || c == ',' || c == '*' {
            self.advance();
            return Ok(
                if c == '(' {
                    Token::LParen
                } else if c == ')' {
                    Token::RParen
                } else if c == '[' {
                    Token::LBracket
                } else if c == ']' {
                    Token::RBracket
                } else if c == '.' {
                    Token::Dot
                } else if c == ',' {
                    Token::Comma
                } else {
                    Token::Star
                },
            );
        }
        if c == '!' || c == '<' || c == '>' {
            self.advance();
            if self.peek() == Some('=') {
                self.advance();
                return Ok(
                    if c == '!' {
                        Token::Neq
                    } else if c == '<' {
                        Token::Lte
                    } else {
                        Token::Gte
                    },
                );
            }
            return Ok(
                if c == '!' {
                    Token::Bang
                } else if c == '<' {
                    Token::Lt
                } else {
                    Token::Gt
                },
            );
        }
        if c == '=' || c == '&' || c == '|' {
            self.advance();
            if self.peek() == Some(c) {
                self.advance();
                return Ok(
                    if c == '=' {
                        Token::Eq
                    } else if c == '&' {
                        Token::And
                    } else {
                        Token::Or
                    },
                );
            }
            let message = if c == '=' {
                String::from_str("expected '==' but got single '='")
            } else if c == '&' {
                String::from_str("expected '&&' but got single '&'")
            } else {
                String::from_str("expected '||' but got single '|'")
            };
            return Err(Error::ExpressionSyntax { position: self.pos, message });
        }
        if is_ascii_digit(c) || (c == '-' && self.is_start_of_negative_number()) {
            return self.read_number();
        }
        if is_ascii_alpha(c) || c == '_' {
            return Ok(self.read_ident_or_keyword());
        }
        let mut message = String::from_str("unexpected character: '");
        push_char(&mut message, c);
        push_char(&mut message, '\'');
        assert(message@ =~= "unexpected character: '"@ + seq![c] + "'"@) by {
            reveal_strlit("'");
        }
        Err(Error::ExpressionSyntax { position: self.pos, message })
    }

    /// The tokens of the rest of the text, ending with `Eof` (`lex_from`).
    pub fn tokenize(&mut self) -> (r: Result<Vec<Token>, Error>)
        requires
            old(self).text().len() < usize::MAX,
            old(self).position() <= old(self).text().len(),
        ensures
            match lex_from(old(self).text(), old(self).position()) {
                Ok(ts) => r matches Ok(v) && tokens_view(v@) == ts,
                Err(e) => r matches Err(err) && err@ == e,
            },
    {
        let ghost cs = self.chars@;
        let ghost start = self.pos as int;
        assert(cs == old(self).text() && start == old(self).position());
        let mut tokens: Vec<Token> = Vec::new();
        loop
            invariant
                self.chars@ == cs,
                cs.len() < usize::MAX,
                self.pos <= cs.len(),
                cs == old(self).text(),
                start == old(self).position(),
                lex_from(cs, start) == prepend(
                    tokens_view(tokens@),
                    lex_from(cs, self.pos as int),
                ),
            decreases cs.len() - self.pos,
        {
            let ghost p = self.pos as int;
            self.skip_whitespace();
            if self.pos >= self.chars.len() {
                assert(lex_from(cs, p) == Ok::<Seq<SpecToken>, SpecError>(seq![SpecToken::Eof]));
                let ghost before = tokens@;
                tokens.push(Token::Eof);
                assert(tokens_view(tokens@) =~= tokens_view(before) + seq![SpecToken::Eof]);
                assert(lex_from(cs, start) == Ok::<Seq<SpecToken>, SpecError>(tokens_view(tokens@)));
                return Ok(tokens);
            }
            proof {
                lemma_next_token_progress(cs, self.pos as int);
            }
            let ghost before = tokens@;
            let tok = self.next_token();
            match tok {
                Ok(t) => {
                    assert(lex_from(cs, p) == prepend(seq![t@], lex_from(cs, self.pos as int)));
                    tokens.push(t);
                    assert(tokens_view(tokens@) =~= tokens_view(before) + seq![t@]);
                    proof {
                        match lex_from(cs, self.pos as int) {
                            Ok(ts) => {
                                assert(tokens_view(before) + (seq![t@] + ts) =~= tokens_view(
                                    tokens@,
                                ) + ts);
                            },
                            Err(_) => {},
                        }
                    }
                },
                Err(e) => {
                    assert(lex_from(cs, p) == Err::<Seq<SpecToken>, SpecError>(e@));
                    assert(lex_from(cs, start) == Err::<Seq<SpecToken>, SpecError>(e@));
                    return Err(e);
                },
            }
        }
    }
}

/// The message of a decimal literal whose exponent has no digits
/// (`exponent_error_text`).
fn exponent_error(
    cs: &[char],
    neg: bool,
    q: usize,
    ie: usize,
    has_point: bool,
    fe: usize,
    es: usize,
    has_sign: bool,
) -> (msg: String)
    requires
        q <= ie <= fe < es <= cs@.len(),
        has_point ==> ie < fe,
        has_sign ==> es < cs@.len(),
    ensures
        msg@ == exponent_error_text(cs@, neg, q as int, ie as int, has_point, fe as int, es as int, has_sign),
{
    let mut msg = String::from_str("invalid number: ");
    if neg {
        push_char(&mut msg, '-');
    }
    let ints = string_of_range(cs, q, ie);
    push_str(&mut msg, ints.as_str());
    if has_point {
        push_char(&mut msg, '.');
        let fracs = string_of_range(cs, ie + 1, fe);
        push_str(&mut msg, fracs.as_str());
    }
    push_char(&mut msg, 'e');
    if has_sign {
        push_char(&mut msg, cs[es]);
    }
    assert(msg@ =~= exponent_error_text(cs@, neg, q as int, ie as int, has_point, fe as int, es as int, has_sign));
    msg
}

} // verus!
