//! A tokenizer over the same language: punctuation, identifiers, numbers,
//! strings and the keywords `true` and `false`, each with its byte range.

use vstd::prelude::*;

use crate::chars::{
    ascii_digit, is_alphabetic, is_alphanumeric, is_ascii_digit, is_whitespace,
    push_char, run_end, unicode_alphabetic, unicode_whitespace, CharClass,
};
use crate::grammar::{
    decimal_text, digit_char, digits_value, fits_i32, lemma_digits_nonneg, lemma_digits_push,
    nat_text, number_text_value, text_false, text_true,
};
use vstd::string::StringExecFns;

verus! {

#[derive(Debug, Clone, PartialEq, Eq)]
pub enum Token {
    Comma,
    Eq,
    LParen,
    RParen,
    Ident(String),
    Number(i32),
    String(String),
    Chart,
    True,
    False,
}

/// The model of a token.
pub enum TokenModel {
    Comma,
    Eq,
    LParen,
    RParen,
    Ident(Seq<char>),
    Number(int),
    Str(Seq<char>),
    Chart,
    True,
    False,
}

impl View for Token {
    type V = TokenModel;

    open spec fn view(&self) -> TokenModel {
        match self {
            Token::Comma => TokenModel::Comma,
            Token::Eq => TokenModel::Eq,
            Token::LParen => TokenModel::LParen,
            Token::RParen => TokenModel::RParen,
            Token::Ident(s) => TokenModel::Ident(s@),
            Token::Number(n) => TokenModel::Number(*n as int),
            Token::String(s) => TokenModel::Str(s@),
            Token::Chart => TokenModel::Chart,
            Token::True => TokenModel::True,
            Token::False => TokenModel::False,
        }
    }
}

#[derive(Debug, Clone, PartialEq, Eq)]
pub enum LexicalError {
    InternalError(String),
    /// The text of a number that does not fit in 32 bits.
    NumberFormat(String),
    UnexpectedEOF(String),
    /// A character that no token starts with.
    UnexpectedCharacter(char),
}

/// The model of a lexical error.
pub enum LexFault {
    NumberFormat(Seq<char>),
    UnexpectedEOF,
    UnexpectedCharacter(char),
}

pub type SpannedToken = (usize, Token, usize);

/// How many bytes UTF-8 uses for `c`.
pub open spec fn utf8_len(c: char) -> int {
    if (c as int) < 0x80 {
        1
    } else if (c as int) < 0x800 {
        2
    } else if (c as int) < 0x10000 {
        3
    } else {
        4
    }
}

/// The byte offset of character index `k` in the UTF-8 encoding of `s`.
pub open spec fn byte_at(s: Seq<char>, k: int) -> int
    decreases k,
{
    if k <= 0 {
        0
    } else {
        byte_at(s, k - 1) + utf8_len(s[k - 1])
    }
}

/// The token that starts at or after character index `i`, with the indices
/// of its first character and of the character after it; `None` at the end.
pub open spec fn lex_at(s: Seq<char>, i: int) -> Option<Result<(TokenModel, int, int), LexFault>>
    decreases s.len() - i,
{
    if !(0 <= i < s.len()) {
        None
    } else {
        let c = s[i];
        if c == ',' {
            Some(Ok((TokenModel::Comma, i, i + 1)))
        } else if c == '=' {
            Some(Ok((TokenModel::Eq, i, i + 1)))
        } else if c == '(' {
            Some(Ok((TokenModel::LParen, i, i + 1)))
        } else if c == ')' {
            Some(Ok((TokenModel::RParen, i, i + 1)))
        } else if c == '"' {
            let j = run_end(s, i + 1, CharClass::NotQuote);
            if j < s.len() {
                Some(Ok((TokenModel::Str(s.subrange(i + 1, j)), i, j + 1)))
            } else {
                Some(Err(LexFault::UnexpectedEOF))
            }
        } else if unicode_whitespace(c) {
            lex_at(s, i + 1)
        } else if ascii_digit(c) || c == '-' {
            let j = run_end(s, i + 1, CharClass::Digit);
            let t = s.subrange(i, j);
            match number_text_value(t) {
                Some(v) => if fits_i32(v) {
                    Some(Ok((TokenModel::Number(v), i, j)))
                } else {
                    Some(Err(LexFault::NumberFormat(t)))
                },
                None => Some(Err(LexFault::NumberFormat(t))),
            }
        } else if unicode_alphabetic(c) || c == '_' {
            let j = run_end(s, i + 1, CharClass::WordRest);
            let t = s.subrange(i, j);
            if t == text_true() {
                Some(Ok((TokenModel::True, i, j)))
            } else if t == text_false() {
                Some(Ok((TokenModel::False, i, j)))
            } else {
                Some(Ok((TokenModel::Ident(t), i, j)))
            }
        } else {
            Some(Err(LexFault::UnexpectedCharacter(c)))
        }
    }
}

/// How a token is shown: punctuation quoted, values tagged, keywords by name.
pub open spec fn token_text(t: TokenModel) -> Seq<char> {
    match t {
        TokenModel::Comma => seq!['\'', ',', '\''],
        TokenModel::Eq => seq!['\'', '=', '\''],
        TokenModel::LParen => seq!['\'', '(', '\''],
        TokenModel::RParen => seq!['\'', ')', '\''],
        TokenModel::Ident(s) => seq!['I', 'd', 'e', 'n', 't', '['] + s + seq![']'],
        TokenModel::Number(n) => seq!['N', 'u', 'm', 'b', 'e', 'r', '['] + decimal_text(n) + seq![']'],
        TokenModel::Str(s) => seq!['S', 't', 'r', 'i', 'n', 'g', '['] + s + seq![']'],
        TokenModel::Chart => seq!['C', 'h', 'a', 'r', 't'],
        TokenModel::True => seq!['T', 'r', 'u', 'e'],
        TokenModel::False => seq!['F', 'a', 'l', 's', 'e'],
    }
}

/// Appends every character of `t`.
fn push_all(out: &mut String, t: &Vec<char>)
    ensures
        final(out)@ == old(out)@ + t@,
{
    let ghost start = out@;
    let mut i: usize = 0;
    while i < t.len()
        invariant
            i <= t@.len(),
            out@ == start + t@.take(i as int),
        decreases t.len() - i,
    {
        push_char(out, t[i]);
        i = i + 1;
        assert(out@ =~= start + t@.take(i as int));
    }
    assert(t@.take(t@.len() as int) =~= t@);
}

/// Appends the decimal text of `n`.
fn push_decimal(out: &mut String, n: i32)
    ensures
        final(out)@ == old(out)@ + decimal_text(n as int),
{
    let ghost start = out@;
    let negative = n < 0;
    let mut m: u64 = if negative { (0 - (n as i64)) as u64 } else { n as u64 };
    let ghost whole: nat = m as nat;
    let mut tail: Vec<char> = Vec::new();
    assert(nat_text(whole) =~= nat_text(m as nat) + tail@);
    while m >= 10
        invariant
            nat_text(whole) == nat_text(m as nat) + tail@,
        decreases m,
    {
        let d = (m % 10) as u8;
        let c = (d + 48) as char;
        assert(c == digit_char((m % 10) as int));
        let ghost old_tail = tail@;
        tail.insert(0, c);
        assert(tail@ =~= seq![c] + old_tail);
        assert(nat_text(m as nat) == nat_text((m / 10) as nat).push(c));
        assert(nat_text((m / 10) as nat).push(c) + old_tail =~= nat_text((m / 10) as nat) + tail@);
        m = m / 10;
    }
    let first = ((m as u8) + 48) as char;
    assert(first == digit_char(m as int));
    if negative {
        push_char(out, '-');
    }
    push_char(out, first);
    push_all(out, &tail);
    assert(nat_text(m as nat) =~= seq![first]);
    if negative {
        assert(decimal_text(n as int) == seq!['-'] + nat_text(whole));
        assert(out@ =~= start + decimal_text(n as int));
    } else {
        assert(out@ =~= start + decimal_text(n as int));
    }
}

impl Token {
    /// The token as shown to a reader.
    pub fn to_text(&self) -> (r: String)
        ensures
            r@ == token_text(self@),
    {
        let mut out = String::new();
        match self {
            Token::Comma => out.append("','"),
            Token::Eq => out.append("'='"),
            Token::LParen => out.append("'('"),
            Token::RParen => out.append("')'"),
            Token::Ident(s) => {
                out.append("Ident[");
                out.append(s.as_str());
                out.append("]");
            },
            Token::Number(n) => {
                out.append("Number[");
                push_decimal(&mut out, *n);
                out.append("]");
            },
            Token::String(s) => {
                out.append("String[");
                out.append(s.as_str());
                out.append("]");
            },
            Token::Chart => out.append("Chart"),
            Token::True => out.append("True"),
            Token::False => out.append("False"),
        }
        proof {
            reveal_strlit("','");
            reveal_strlit("'='");
            reveal_strlit("'('");
            reveal_strlit("')'");
            reveal_strlit("Ident[");
            reveal_strlit("Number[");
            reveal_strlit("String[");
            reveal_strlit("]");
            reveal_strlit("Chart");
            reveal_strlit("True");
            reveal_strlit("False");
        }
        assert(out@ =~= token_text(self@));
        out
    }
}

/// `e` is the error that `f` describes.
pub open spec fn error_matches(e: LexicalError, f: LexFault) -> bool {
    match f {
        LexFault::NumberFormat(t) => e matches LexicalError::NumberFormat(x) && x@ == t,
        LexFault::UnexpectedEOF => e is UnexpectedEOF,
        LexFault::UnexpectedCharacter(c) => e == LexicalError::UnexpectedCharacter(c),
    }
}

fn utf8_width(c: char) -> (r: usize)
    ensures
        r == utf8_len(c),
{
    let n = c as u32;
    if n < 0x80 {
        1
    } else if n < 0x800 {
        2
    } else if n < 0x10000 {
        3
    } else {
        4
    }
}

proof fn lemma_byte_bounds(s: Seq<char>, k: int)
    requires
        0 <= k,
    ensures
        k <= byte_at(s, k) <= 4 * k,
    decreases k,
{
    if k > 0 {
        lemma_byte_bounds(s, k - 1);
    }
}

/// Splits an input into tokens, on demand.
pub struct Lexer {
    chars: Vec<char>,
    pos: usize,
    byte: usize,
}

impl Lexer {
    /// The characters of the input.
    pub closed spec fn input(&self) -> Seq<char> {
        self.chars@
    }

    /// The index of the next character.
    pub closed spec fn at(&self) -> int {
        self.pos as int
    }

    /// The byte offset is that of the next character.
    pub closed spec fn wf(&self) -> bool {
        &&& self.pos <= self.chars@.len()
        &&& 4 * self.chars@.len() < usize::MAX
        &&& self.byte == byte_at(self.chars@, self.pos as int)
    }

    pub fn new(input: &str) -> (r: Lexer)
        requires
            4 * input@.len() < usize::MAX,
        ensures
            r.wf(),
            r.input() == input@,
            r.at() == 0,
    {
        let mut chars: Vec<char> = Vec::new();
        for ch in it: input.chars()
            invariant
                it.seq() == input@,
                chars@ == it.seq().take(it.index() as int),
        {
            chars.push(ch);
        }
        assert(chars@ =~= input@);
        Lexer { chars, pos: 0, byte: 0 }
    }

    fn peek(&self) -> (r: Option<char>)
        requires
            self.wf(),
        ensures
            r == if self.at() < self.input().len() {
                Some(self.input()[self.at()])
            } else {
                None
            },
    {
        if self.pos < self.chars.len() {
            Some(self.chars[self.pos])
        } else {
            None
        }
    }

    fn advance(&mut self)
        requires
            old(self).wf(),
            old(self).at() < old(self).input().len(),
        ensures
            final(self).wf(),
            final(self).input() == old(self).input(),
            final(self).at() == old(self).at() + 1,
            final(self).byte == old(self).byte + utf8_len(old(self).input()[old(self).at()]),
    {
        proof {
            lemma_byte_bounds(self.chars@, self.pos + 1);
        }
        let w = utf8_width(self.chars[self.pos]);
        self.byte = self.byte + w;
        self.pos = self.pos + 1;
    }

    /// A one-character token.
    fn single(&mut self, token: Token) -> (r: SpannedToken)
        requires
            old(self).wf(),
            old(self).at() < old(self).input().len(),
            utf8_len(old(self).input()[old(self).at()]) == 1,
        ensures
            final(self).wf(),
            final(self).input() == old(self).input(),
            final(self).at() == old(self).at() + 1,
            r == (old(self).byte, token, (old(self).byte + 1) as usize),
    {
        let start = self.byte;
        self.advance();
        (start, token, self.byte)
    }

    /// A double-quoted string; the quotes are part of the token's range.
    fn string(&mut self) -> (r: Result<SpannedToken, LexicalError>)
        requires
            old(self).wf(),
            old(self).at() < old(self).input().len(),
            old(self).input()[old(self).at()] == '"',
        ensures
            final(self).wf(),
            final(self).input() == old(self).input(),
            ({
                let s = old(self).input();
                let i = old(self).at();
                let j = run_end(s, i + 1, CharClass::NotQuote);
                if j < s.len() {
                    r matches Ok((x, tok, y)) && x == byte_at(s, i) && y == byte_at(s, j + 1)
                        && tok@ == TokenModel::Str(s.subrange(i + 1, j)) && final(self).at() == j + 1
                } else {
                    r matches Err(e) && e is UnexpectedEOF
                }
            }),
    {
        let ghost s = self.input();
        let ghost i = self.at();
        let start = self.byte;
        self.advance();
        let mut string = String::new();
        assert(string@ =~= s.subrange(i + 1, i + 1));
        loop
            invariant
                self.wf(),
                self.input() == s,
                s == old(self).input(),
                i == old(self).at(),
                start == byte_at(s, i),
                0 <= i < self.at() <= s.len(),
                string@ == s.subrange(i + 1, self.at()),
                run_end(s, i + 1, CharClass::NotQuote) == run_end(s, self.at(), CharClass::NotQuote),
            decreases s.len() - self.at(),
        {
            match self.peek() {
                Some(ch) => {
                    let ghost p = self.at();
                    self.advance();
                    if ch == '"' {
                        return Ok((start, Token::String(string), self.byte));
                    }
                    push_char(&mut string, ch);
                    assert(string@ =~= s.subrange(i + 1, p + 1));
                },
                None => {
                    return Err(LexicalError::UnexpectedEOF(
                        String::from_str("inside String. Strings must end with '\"'."),
                    ));
                },
            }
        }
    }

    /// An optional `-` and then digits.
    fn number(&mut self) -> (r: Result<SpannedToken, LexicalError>)
        requires
            old(self).wf(),
            old(self).at() < old(self).input().len(),
            ascii_digit(old(self).input()[old(self).at()]) || old(self).input()[old(self).at()] == '-',
        ensures
            final(self).wf(),
            final(self).input() == old(self).input(),
            ({
                let s = old(self).input();
                let i = old(self).at();
                let j = run_end(s, i + 1, CharClass::Digit);
                let t = s.subrange(i, j);
                match number_text_value(t) {
                    Some(v) => if fits_i32(v) {
                        r matches Ok((x, tok, y)) && x == byte_at(s, i) && y == byte_at(s, j)
                            && tok@ == TokenModel::Number(v) && final(self).at() == j
                    } else {
                        r matches Err(e) && error_matches(e, LexFault::NumberFormat(t))
                    },
                    None => r matches Err(e) && error_matches(e, LexFault::NumberFormat(t)),
                }
            }),
    {
        let ghost s = self.input();
        let ghost i = self.at();
        let start = self.byte;
        let start_pos = self.pos;
        let first = self.chars[self.pos];
        self.advance();
        let mut text = String::new();
        push_char(&mut text, first);
        assert(text@ =~= s.subrange(i, i + 1));
        let negative = first == '-';
        let mut acc: u64 = if negative { 0 } else { (first as u32 - 48) as u64 };
        let mut over = false;
        let ghost dstart: int = if negative { i + 1 } else { i };
        proof {
            lemma_digits_push(Seq::<char>::empty(), first);
            assert(Seq::<char>::empty().push(first) =~= s.subrange(i, i + 1));
            assert(s.subrange(i + 1, i + 1) =~= Seq::<char>::empty());
        }
        loop
            invariant
                self.wf(),
                self.input() == s,
                0 <= i < self.at() <= s.len(),
                start_pos == i,
                start == byte_at(s, i),
                text@ == s.subrange(i, self.at()),
                negative == (s[i] == '-'),
                dstart == if negative { i + 1 } else { i },
                dstart <= self.at(),
                run_end(s, i + 1, CharClass::Digit) == run_end(s, self.at(), CharClass::Digit),
                forall|m: int| dstart <= m < self.at() ==> ascii_digit(#[trigger] s[m]),
                !over ==> acc == digits_value(s.subrange(dstart, self.at())) && acc <= 2147483648,
                over ==> digits_value(s.subrange(dstart, self.at())) > 2147483648,
            ensures
                run_end(s, self.at(), CharClass::Digit) == self.at(),
            decreases s.len() - self.at(),
        {
            match self.peek() {
                Some(ch) => {
                    if !is_ascii_digit(ch) {
                        break;
                    }
                    let ghost p = self.at();
                    let d = (ch as u32 - 48) as u64;
                    proof {
                        let old_d = s.subrange(dstart, p);
                        lemma_digits_push(old_d, ch);
                        lemma_digits_nonneg(old_d);
                        assert(old_d.push(ch) =~= s.subrange(dstart, p + 1));
                    }
                    if !over {
                        if acc * 10 + d > 2147483648 {
                            over = true;
                        } else {
                            acc = acc * 10 + d;
                        }
                    }
                    push_char(&mut text, ch);
                    self.advance();
                    assert(text@ =~= s.subrange(i, p + 1));
                },
                None => break,
            }
        }
        let ghost e = self.at();
        proof {
            let t = s.subrange(i, e);
            assert(t.drop_first() =~= s.subrange(i + 1, e));
            assert(s.subrange(dstart, e) == if negative { t.drop_first() } else { t });
        }
        if negative && self.pos == start_pos + 1 {
            return Err(LexicalError::NumberFormat(text));
        }
        if over || (!negative && acc > 2147483647) {
            return Err(LexicalError::NumberFormat(text));
        }
        let value: i32 = if negative { (0 - acc as i64) as i32 } else { acc as i32 };
        Ok((start, Token::Number(value), self.byte))
    }

    /// An identifier, or the keyword `true` or `false`.
    fn ident(&mut self) -> (r: SpannedToken)
        requires
            old(self).wf(),
            old(self).at() < old(self).input().len(),
        ensures
            final(self).wf(),
            final(self).input() == old(self).input(),
            ({
                let s = old(self).input();
                let i = old(self).at();
                let j = run_end(s, i + 1, CharClass::WordRest);
                let t = s.subrange(i, j);
                &&& r.0 == byte_at(s, i)
                &&& r.2 == byte_at(s, j)
                &&& final(self).at() == j
                &&& r.1@ == if t == text_true() {
                    TokenModel::True
                } else if t == text_false() {
                    TokenModel::False
                } else {
                    TokenModel::Ident(t)
                }
            }),
    {
        let ghost s = self.input();
        let ghost i = self.at();
        let start = self.byte;
        let first = self.chars[self.pos];
        self.advance();
        let mut ident = String::new();
        push_char(&mut ident, first);
        assert(ident@ =~= s.subrange(i, i + 1));
        loop
            invariant
                self.wf(),
                self.input() == s,
                0 <= i < self.at() <= s.len(),
                start == byte_at(s, i),
                ident@ == s.subrange(i, self.at()),
                run_end(s, i + 1, CharClass::WordRest) == run_end(s, self.at(), CharClass::WordRest),
            ensures
                run_end(s, self.at(), CharClass::WordRest) == self.at(),
            decreases s.len() - self.at(),
        {
            match self.peek() {
                Some(ch) => {
                    if !is_alphanumeric(ch) && ch != '_' {
                        break;
                    }
                    let ghost p = self.at();
                    push_char(&mut ident, ch);
                    self.advance();
                    assert(ident@ =~= s.subrange(i, p + 1));
                },
                None => break,
            }
        }
        let t = String::from_str("true");
        let f = String::from_str("false");
        proof {
            reveal_strlit("true");
            reveal_strlit("false");
            assert("true"@ =~= text_true());
            assert("false"@ =~= text_false());
        }
        let token = if ident == t {
            Token::True
        } else if ident == f {
            Token::False
        } else {
            Token::Ident(ident)
        };
        (start, token, self.byte)
    }

    /// The next token, `None` at the end of the input.
    pub fn next(&mut self) -> (r: Option<Result<SpannedToken, LexicalError>>)
        requires
            old(self).wf(),
        ensures
            final(self).wf(),
            final(self).input() == old(self).input(),
            match lex_at(old(self).input(), old(self).at()) {
                None => r is None,
                Some(Ok((t, a, b))) => r matches Some(Ok((x, tok, y))) && x == byte_at(
                    old(self).input(),
                    a,
                ) && y == byte_at(old(self).input(), b) && tok@ == t && final(self).at() == b,
                Some(Err(f)) => r matches Some(Err(e)) && error_matches(e, f),
            },
    {
        let ghost s = self.input();
        let ghost i0 = self.at();
        loop
            invariant
                self.wf(),
                self.input() == s,
                s == old(self).input(),
                i0 == old(self).at(),
                0 <= self.at(),
                lex_at(s, i0) == lex_at(s, self.at()),
            decreases s.len() - self.at(),
        {
            let c = match self.peek() {
                Some(c) => c,
                None => return None,
            };
            if c == ',' {
                return Some(Ok(self.single(Token::Comma)));
            }
            if c == '=' {
                return Some(Ok(self.single(Token::Eq)));
            }
            if c == '(' {
                return Some(Ok(self.single(Token::LParen)));
            }
            if c == ')' {
                return Some(Ok(self.single(Token::RParen)));
            }
            if c == '"' {
                return Some(self.string());
            }
            if is_whitespace(c) {
                self.advance();
            } else if is_ascii_digit(c) || c == '-' {
                return Some(self.number());
            } else if is_alphabetic(c) || c == '_' {
                return Some(Ok(self.ident()));
            } else {
                return Some(Err(LexicalError::UnexpectedCharacter(c)));
            }
        }
    }
}

} // verus!
