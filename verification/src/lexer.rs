//! Converts a byte stream into a sequence of tokens, one token per call.
//!
//! The whole lexer is specified against `spec_token_at`, a spec-level
//! function that says, for an input byte sequence and a cursor position,
//! which token (or lexing error) starts there and where the cursor stands
//! afterwards.
//!
//! Integer literals that do not fit in an `i64` are rejected with
//! `LexError::IntegerOverflow` rather than wrapping; this is the documented
//! overflow policy of this library.

use vstd::prelude::*;
use vstd::string::StrSliceExecFns;
use vstd::string::StringSliceAdditionalSpecFns;

verus! {

/// The smallest lexical unit: keyword, identifier, literal or punctuation.
#[derive(Debug, PartialEq)]
pub enum Token {
    Illegal,
    Eof,
    Ident(String),
    Int(i64),
    Bool(bool),
    Str(String),
    Assign,
    Plus,
    Minus,
    Asterisk,
    Slash,
    Bang,
    Lt,
    Gt,
    Equal,
    NotEqual,
    Comma,
    Semicolon,
    Lparen,
    Rparen,
    LSquirly,
    RSquirly,
    Function,
    Let,
    If,
    Else,
    Return,
}

/// Mathematical model of a token: text becomes a character sequence.
pub enum TokM {
    Illegal,
    Eof,
    Ident(Seq<char>),
    Int(i64),
    Bool(bool),
    Str(Seq<char>),
    Assign,
    Plus,
    Minus,
    Asterisk,
    Slash,
    Bang,
    Lt,
    Gt,
    Equal,
    NotEqual,
    Comma,
    Semicolon,
    Lparen,
    Rparen,
    LSquirly,
    RSquirly,
    Function,
    Let,
    If,
    Else,
    Return,
}

/// Model of a token.
pub open spec fn token_model(t: Token) -> TokM {
    match t {
        Token::Illegal => TokM::Illegal,
        Token::Eof => TokM::Eof,
        Token::Ident(s) => TokM::Ident(s@),
        Token::Int(n) => TokM::Int(n),
        Token::Bool(b) => TokM::Bool(b),
        Token::Str(s) => TokM::Str(s@),
        Token::Assign => TokM::Assign,
        Token::Plus => TokM::Plus,
        Token::Minus => TokM::Minus,
        Token::Asterisk => TokM::Asterisk,
        Token::Slash => TokM::Slash,
        Token::Bang => TokM::Bang,
        Token::Lt => TokM::Lt,
        Token::Gt => TokM::Gt,
        Token::Equal => TokM::Equal,
        Token::NotEqual => TokM::NotEqual,
        Token::Comma => TokM::Comma,
        Token::Semicolon => TokM::Semicolon,
        Token::Lparen => TokM::Lparen,
        Token::Rparen => TokM::Rparen,
        Token::LSquirly => TokM::LSquirly,
        Token::RSquirly => TokM::RSquirly,
        Token::Function => TokM::Function,
        Token::Let => TokM::Let,
        Token::If => TokM::If,
        Token::Else => TokM::Else,
        Token::Return => TokM::Return,
    }
}

/// A lexing failure.
#[derive(Debug, Clone, Copy, PartialEq, Eq, Structural)]
pub enum LexError {
    /// A byte that cannot start any token.
    IllegalCharacter(u8),
    /// The input ended inside a string literal.
    UnterminatedString,
    /// An integer literal does not fit in an `i64`.
    IntegerOverflow,
}

/// The diagnostic text of a lexing failure; the offending byte of an
/// illegal character is shown as the character with that code point.
pub open spec fn lex_message_model(e: LexError) -> Seq<char> {
    match e {
        LexError::IllegalCharacter(b) => "No program should contain this token: "@ + seq![
            b as char,
        ],
        LexError::UnterminatedString => "String is not properly closed!"@,
        LexError::IntegerOverflow => "Integer literal does not fit in 64 bits!"@,
    }
}

impl LexError {
    /// The diagnostic text of this failure.
    pub fn message(&self) -> (r: String)
        ensures
            r@ == lex_message_model(*self),
    {
        proof {
            reveal_strlit("No program should contain this token: ");
            reveal_strlit("String is not properly closed!");
            reveal_strlit("Integer literal does not fit in 64 bits!");
        }
        match self {
            LexError::IllegalCharacter(b) => {
                let mut out = "No program should contain this token: ".to_owned();
                let shown = byte_char_string(*b);
                out.append(shown.as_str());
                proof {
                    assert(out@ =~= lex_message_model(*self));
                }
                out
            },
            LexError::UnterminatedString => "String is not properly closed!".to_owned(),
            LexError::IntegerOverflow => "Integer literal does not fit in 64 bits!".to_owned(),
        }
    }
}

/// Relies on `char::from` for `u8` and `String::push`: a byte converts to
/// the character with the same code point, and pushing one character onto
/// an empty string yields exactly that character.
#[verifier::external_body]
fn byte_char_string(b: u8) -> (r: String)
    ensures
        r@ == seq![b as char],
{
    let mut s = String::new();
    s.push(char::from(b));
    s
}

/// ASCII whitespace, as skipped between tokens.
pub open spec fn is_ws_byte(b: u8) -> bool {
    b == 32 || b == 9 || b == 10 || b == 13 || b == 12
}

/// A byte that may appear in an identifier or keyword.
pub open spec fn is_letter_byte(b: u8) -> bool {
    (97 <= b <= 122) || (65 <= b <= 90) || b == 95
}

/// An ASCII decimal digit.
pub open spec fn is_digit_byte(b: u8) -> bool {
    48 <= b <= 57
}

/// First position at or after `i` that does not hold whitespace.
pub open spec fn skip_ws_from(s: Seq<u8>, i: int) -> int
    decreases s.len() - i,
{
    if 0 <= i < s.len() && is_ws_byte(s[i]) {
        skip_ws_from(s, i + 1)
    } else {
        i
    }
}

/// First position at or after `i` that does not hold a letter.
pub open spec fn word_end(s: Seq<u8>, i: int) -> int
    decreases s.len() - i,
{
    if 0 <= i < s.len() && is_letter_byte(s[i]) {
        word_end(s, i + 1)
    } else {
        i
    }
}

/// First position at or after `i` that does not hold a digit.
pub open spec fn digits_end(s: Seq<u8>, i: int) -> int
    decreases s.len() - i,
{
    if 0 <= i < s.len() && is_digit_byte(s[i]) {
        digits_end(s, i + 1)
    } else {
        i
    }
}

/// First position at or after `i` holding a double quote, or the length of
/// `s` if there is none.
pub open spec fn quote_pos(s: Seq<u8>, i: int) -> int
    decreases s.len() - i,
{
    if 0 <= i < s.len() {
        if s[i] == 34 {
            i
        } else {
            quote_pos(s, i + 1)
        }
    } else {
        s.len() as int
    }
}

/// The characters with the same code points as the given ASCII bytes.
pub open spec fn ascii_chars(s: Seq<u8>) -> Seq<char> {
    s.map_values(|b: u8| b as char)
}

/// Value of a run of ASCII digits, most significant first.
pub open spec fn digits_val(s: Seq<u8>) -> int
    decreases s.len(),
{
    if s.len() == 0 {
        0
    } else {
        digits_val(s.drop_last()) * 10 + (s.last() - 48)
    }
}

/// Resolves a scanned word against the keyword set; anything else is an
/// identifier.
pub open spec fn word_token(w: Seq<char>) -> TokM {
    if w == "fn"@ {
        TokM::Function
    } else if w == "let"@ {
        TokM::Let
    } else if w == "if"@ {
        TokM::If
    } else if w == "else"@ {
        TokM::Else
    } else if w == "true"@ {
        TokM::Bool(true)
    } else if w == "false"@ {
        TokM::Bool(false)
    } else if w == "return"@ {
        TokM::Return
    } else {
        TokM::Ident(w)
    }
}

/// What `String::from_utf8_lossy` returns for the given bytes.
pub uninterp spec fn utf8_lossy(bytes: Seq<u8>) -> Seq<char>;

/// Every byte is ASCII.
pub open spec fn all_ascii(bytes: Seq<u8>) -> bool {
    forall|k: int| 0 <= k < bytes.len() ==> bytes[k] < 128
}

/// The text of a string literal with the given content bytes: ASCII bytes
/// are their own characters; anything else is the lossy UTF-8 decoding.
pub open spec fn string_text(bytes: Seq<u8>) -> Seq<char> {
    if all_ascii(bytes) {
        ascii_chars(bytes)
    } else {
        utf8_lossy(bytes)
    }
}

/// The token that starts at position `start` of `s` (after leading
/// whitespace), and the cursor position after it.
pub open spec fn spec_token_at(s: Seq<u8>, start: int) -> (Result<TokM, LexError>, int) {
    let i = skip_ws_from(s, start);
    if i >= s.len() {
        (Ok(TokM::Eof), s.len() as int)
    } else {
        let b = s[i];
        if b == 61 {  // '='
            if i + 1 < s.len() && s[i + 1] == 61 {
                (Ok(TokM::Equal), i + 2)
            } else {
                (Ok(TokM::Assign), i + 1)
            }
        } else if b == 33 {  // '!'
            if i + 1 < s.len() && s[i + 1] == 61 {
                (Ok(TokM::NotEqual), i + 2)
            } else {
                (Ok(TokM::Bang), i + 1)
            }
        } else if b == 59 {
            (Ok(TokM::Semicolon), i + 1)
        } else if b == 40 {
            (Ok(TokM::Lparen), i + 1)
        } else if b == 41 {
            (Ok(TokM::Rparen), i + 1)
        } else if b == 44 {
            (Ok(TokM::Comma), i + 1)
        } else if b == 43 {
            (Ok(TokM::Plus), i + 1)
        } else if b == 45 {
            (Ok(TokM::Minus), i + 1)
        } else if b == 42 {
            (Ok(TokM::Asterisk), i + 1)
        } else if b == 47 {
            (Ok(TokM::Slash), i + 1)
        } else if b == 60 {
            (Ok(TokM::Lt), i + 1)
        } else if b == 62 {
            (Ok(TokM::Gt), i + 1)
        } else if b == 123 {
            (Ok(TokM::LSquirly), i + 1)
        } else if b == 125 {
            (Ok(TokM::RSquirly), i + 1)
        } else if is_letter_byte(b) {
            let j = word_end(s, i);
            (Ok(word_token(ascii_chars(s.subrange(i, j)))), j)
        } else if is_digit_byte(b) {
            let j = digits_end(s, i);
            let v = digits_val(s.subrange(i, j));
            if v <= i64::MAX {
                (Ok(TokM::Int(v as i64)), j)
            } else {
                (Err(LexError::IntegerOverflow), j)
            }
        } else if b == 34 {  // '"'
            let q = quote_pos(s, i + 1);
            if q < s.len() {
                (Ok(TokM::Str(string_text(s.subrange(i + 1, q)))), q + 1)
            } else {
                (Err(LexError::UnterminatedString), s.len() as int)
            }
        } else {
            (Err(LexError::IllegalCharacter(b)), i)
        }
    }
}

/// Whether an executable lexing step with result `r` that left the cursor at
/// `new_pos` agrees with the spec-level step `step`.
pub open spec fn lex_step_matches(
    r: Result<Token, LexError>,
    step: (Result<TokM, LexError>, int),
    new_pos: int,
) -> bool {
    &&& new_pos == step.1
    &&& match (r, step.0) {
        (Ok(t), Ok(m)) => token_model(t) == m,
        (Err(e), Err(em)) => e == em,
        _ => false,
    }
}

/// The lexer: an input byte vector and a cursor into it.
pub struct Lexer {
    input: Vec<u8>,
    position: usize,
}

/// Relies on `String::from_utf8_lossy`: the decoding is a function of the
/// bytes alone, and ASCII bytes decode to the characters with the same code
/// points (ASCII is valid UTF-8 and unchanged by the lossy decoding).
#[verifier::external_body]
fn decode_bytes(bytes: &Vec<u8>) -> (r: String)
    ensures
        r@ == utf8_lossy(bytes@),
        all_ascii(bytes@) ==> r@ == ascii_chars(bytes@),
{
    String::from_utf8_lossy(bytes.as_slice()).to_string()
}

/// Copy of the bytes `[from, to)` of `v`.
fn copy_span(v: &Vec<u8>, from: usize, to: usize) -> (r: Vec<u8>)
    requires
        from <= to <= v@.len(),
    ensures
        r@ == v@.subrange(from as int, to as int),
{
    let mut out: Vec<u8> = Vec::new();
    let mut k: usize = from;
    while k < to
        invariant
            from <= k <= to <= v@.len(),
            out@ == v@.subrange(from as int, k as int),
        decreases to - k,
    {
        out.push(v[k]);
        proof {
            assert(out@ =~= v@.subrange(from as int, k + 1 as int));
        }
        k = k + 1;
    }
    out
}

/// Character-wise equality of two string slices.
fn str_eq(a: &str, b: &str) -> (r: bool)
    ensures
        r == (a@ == b@),
{
    let an = a.unicode_len();
    let bn = b.unicode_len();
    if an != bn {
        return false;
    }
    let mut k: usize = 0;
    while k < an
        invariant
            0 <= k <= an,
            an == a@.len(),
            an == b@.len(),
            forall|j: int| 0 <= j < k ==> a@[j] == b@[j],
        decreases an - k,
    {
        if a.get_char(k) != b.get_char(k) {
            return false;
        }
        k = k + 1;
    }
    proof {
        assert(a@ =~= b@);
    }
    true
}

/// Resolves a scanned word against the fixed keyword set.
fn lookup_word(w: String) -> (t: Token)
    ensures
        token_model(t) == word_token(w@),
{
    if str_eq(w.as_str(), "fn") {
        Token::Function
    } else if str_eq(w.as_str(), "let") {
        Token::Let
    } else if str_eq(w.as_str(), "if") {
        Token::If
    } else if str_eq(w.as_str(), "else") {
        Token::Else
    } else if str_eq(w.as_str(), "true") {
        Token::Bool(true)
    } else if str_eq(w.as_str(), "false") {
        Token::Bool(false)
    } else if str_eq(w.as_str(), "return") {
        Token::Return
    } else {
        Token::Ident(w)
    }
}

impl Lexer {
    /// The input bytes being lexed.
    pub closed spec fn bytes(&self) -> Seq<u8> {
        self.input@
    }

    /// The cursor: the position of the next byte to examine.
    pub closed spec fn pos(&self) -> int {
        self.position as int
    }

    /// The cursor never leaves the input.
    pub closed spec fn wf(&self) -> bool {
        self.position <= self.input@.len()
    }

    /// A well-formed lexer's cursor stands inside its input.
    pub proof fn lemma_wf_bounds(&self)
        requires
            self.wf(),
        ensures
            0 <= self.pos() <= self.bytes().len(),
    {
    }

    /// A fresh lexer over the UTF-8 bytes of `input`, with the cursor at the
    /// start.
    pub fn new(input: &str) -> (l: Lexer)
        ensures
            l.wf(),
            l.bytes() == input.spec_bytes(),
            l.pos() == 0,
    {
        Lexer { input: input.as_bytes_vec(), position: 0 }
    }

    /// The byte under the cursor, or 0 at the end of the input.
    fn ch(&self) -> (b: u8)
        requires
            self.wf(),
        ensures
            b == (if self.pos() < self.bytes().len() {
                self.bytes()[self.pos()]
            } else {
                0
            }),
    {
        if self.position < self.input.len() {
            self.input[self.position]
        } else {
            0
        }
    }

    /// The byte after the cursor, or 0 past the end of the input.
    fn peek(&self) -> (b: u8)
        requires
            self.wf(),
        ensures
            b == (if self.pos() + 1 < self.bytes().len() {
                self.bytes()[self.pos() + 1]
            } else {
                0
            }),
    {
        if self.position < self.input.len() && self.position + 1 < self.input.len() {
            self.input[self.position + 1]
        } else {
            0
        }
    }

    /// Advances the cursor one byte, stopping at the end of the input.
    fn read_char(&mut self)
        requires
            old(self).wf(),
        ensures
            final(self).wf(),
            final(self).bytes() == old(self).bytes(),
            final(self).pos() == (if old(self).pos() < old(self).bytes().len() {
                old(self).pos() + 1
            } else {
                old(self).pos()
            }),
    {
        if self.position < self.input.len() {
            self.position = self.position + 1;
        }
    }

    /// Skips ASCII whitespace.
    fn skip_whitespace(&mut self)
        requires
            old(self).wf(),
        ensures
            final(self).wf(),
            final(self).bytes() == old(self).bytes(),
            final(self).pos() == skip_ws_from(old(self).bytes(), old(self).pos()),
    {
        let ghost s0 = self.bytes();
        let ghost p0 = self.pos();
        loop
            invariant
                self.wf(),
                self.bytes() == s0,
                skip_ws_from(s0, self.pos()) == skip_ws_from(s0, p0),
            ensures
                self.wf(),
                self.bytes() == s0,
                self.pos() == skip_ws_from(s0, p0),
            decreases self.bytes().len() - self.pos(),
        {
            let b = self.ch();
            if !(b == 32 || b == 9 || b == 10 || b == 13 || b == 12) {
                break;
            }
            self.read_char();
        }
    }

    /// Scans an identifier or keyword run and returns its text.
    fn read_identifier(&mut self) -> (w: String)
        requires
            old(self).wf(),
            old(self).pos() < old(self).bytes().len(),
            is_letter_byte(old(self).bytes()[old(self).pos()]),
        ensures
            final(self).wf(),
            final(self).bytes() == old(self).bytes(),
            final(self).pos() == word_end(old(self).bytes(), old(self).pos()),
            w@ == ascii_chars(old(self).bytes().subrange(old(self).pos(), final(self).pos())),
    {
        let start = self.position;
        let ghost s0 = self.bytes();
        loop
            invariant
                self.wf(),
                self.bytes() == s0,
                start <= self.pos() <= self.bytes().len(),
                forall|k: int| start <= k < self.pos() ==> is_letter_byte(s0[k]),
                word_end(s0, start as int) == word_end(s0, self.pos()),
            ensures
                self.wf(),
                self.bytes() == s0,
                start <= self.pos() <= self.bytes().len(),
                forall|k: int| start <= k < self.pos() ==> is_letter_byte(s0[k]),
                self.pos() == word_end(s0, start as int),
            decreases self.bytes().len() - self.pos(),
        {
            let b = self.ch();
            if !((b >= 97 && b <= 122) || (b >= 65 && b <= 90) || b == 95) {
                break;
            }
            self.read_char();
        }
        let span = copy_span(&self.input, start, self.position);
        decode_bytes(&span)
    }

    /// Scans a digit run and returns its value, or reports overflow.
    fn read_int(&mut self) -> (r: Result<i64, LexError>)
        requires
            old(self).wf(),
            old(self).pos() < old(self).bytes().len(),
            is_digit_byte(old(self).bytes()[old(self).pos()]),
        ensures
            final(self).wf(),
            final(self).bytes() == old(self).bytes(),
            final(self).pos() == digits_end(old(self).bytes(), old(self).pos()),
            ({
                let v = digits_val(old(self).bytes().subrange(old(self).pos(), final(self).pos()));
                if v <= i64::MAX {
                    r == Ok::<i64, LexError>(v as i64)
                } else {
                    r == Err::<i64, LexError>(LexError::IntegerOverflow)
                }
            }),
    {
        let start = self.position;
        let ghost s0 = self.bytes();
        let mut acc: u64 = 0;
        let mut over: bool = false;
        loop
            invariant
                self.wf(),
                self.bytes() == s0,
                start <= self.pos() <= self.bytes().len(),
                digits_end(s0, start as int) == digits_end(s0, self.pos()),
                ({
                    let v = digits_val(s0.subrange(start as int, self.pos()));
                    if over {
                        v > u64::MAX
                    } else {
                        acc == v
                    }
                }),
            ensures
                self.wf(),
                self.bytes() == s0,
                start <= self.pos() <= self.bytes().len(),
                self.pos() == digits_end(s0, start as int),
                ({
                    let v = digits_val(s0.subrange(start as int, self.pos()));
                    if over {
                        v > u64::MAX
                    } else {
                        acc == v
                    }
                }),
            decreases self.bytes().len() - self.pos(),
        {
            let b = self.ch();
            if !(b >= 48 && b <= 57) {
                break;
            }
            let d: u64 = (b - 48) as u64;
            let ghost pre = self.bytes().subrange(start as int, self.pos());
            proof {
                assert(self.bytes().subrange(start as int, self.pos() + 1) =~= pre.push(
                    self.bytes()[self.pos()],
                ));
                assert(digits_val(pre.push(self.bytes()[self.pos()])) == digits_val(pre) * 10 + d)
                    by {
                    assert(pre.push(self.bytes()[self.pos()]).drop_last() =~= pre);
                };
            }
            if over {
            } else if acc <= (u64::MAX - d) / 10 {
                proof {
                    assert(acc * 10 + d <= u64::MAX) by (nonlinear_arith)
                        requires
                            acc <= (u64::MAX - d) / 10,
                            d <= 9,
                    ;
                }
                acc = acc * 10 + d;
            } else {
                proof {
                    assert(acc * 10 + d > u64::MAX) by (nonlinear_arith)
                        requires
                            acc > (u64::MAX - d) / 10,
                            d <= 9,
                    ;
                }
                over = true;
            }
            self.read_char();
        }
        if over || acc > (i64::MAX as u64) {
            Err(LexError::IntegerOverflow)
        } else {
            Ok(acc as i64)
        }
    }

    /// Scans a string literal body after the opening quote; the cursor stands
    /// on the opening quote when called.
    fn read_string(&mut self) -> (r: Result<String, LexError>)
        requires
            old(self).wf(),
            old(self).pos() < old(self).bytes().len(),
            old(self).bytes()[old(self).pos()] == 34,
        ensures
            final(self).wf(),
            final(self).bytes() == old(self).bytes(),
            ({
                let q = quote_pos(old(self).bytes(), old(self).pos() + 1);
                if q < old(self).bytes().len() {
                    final(self).pos() == q + 1 && (r matches Ok(s) && s@ == string_text(
                        old(self).bytes().subrange(old(self).pos() + 1, q),
                    ))
                } else {
                    final(self).pos() == old(self).bytes().len() && r == Err::<String, LexError>(
                        LexError::UnterminatedString,
                    )
                }
            }),
    {
        let start = self.position;
        let ghost s0 = self.bytes();
        self.read_char();
        loop
            invariant
                self.wf(),
                self.bytes() == s0,
                start + 1 <= self.pos() <= self.bytes().len(),
                quote_pos(s0, start + 1 as int) == quote_pos(s0, self.pos()),
            ensures
                self.wf(),
                self.bytes() == s0,
                start + 1 <= self.pos() <= self.bytes().len(),
                self.pos() == quote_pos(s0, start + 1 as int),
            decreases self.bytes().len() - self.pos(),
        {
            if self.position >= self.input.len() {
                break;
            }
            let b = self.ch();
            if b == 34 {
                break;
            }
            self.read_char();
        }
        if self.position >= self.input.len() {
            return Err(LexError::UnterminatedString);
        }
        let q = self.position;
        let span = copy_span(&self.input, start + 1, q);
        let s = decode_bytes(&span);
        self.read_char();
        Ok(s)
    }

    /// Produces the next token, advancing the cursor past it; returns
    /// `Token::Eof` at the end of the input, forever after.
    pub fn next_token(&mut self) -> (r: Result<Token, LexError>)
        requires
            old(self).wf(),
        ensures
            final(self).wf(),
            final(self).bytes() == old(self).bytes(),
            lex_step_matches(r, spec_token_at(old(self).bytes(), old(self).pos()), final(self).pos()),
    {
        self.skip_whitespace();
        if self.position >= self.input.len() {
            return Ok(Token::Eof);
        }
        let b = self.ch();
        if b == 61 {
            if self.peek() == 61 {
                self.read_char();
                self.read_char();
                Ok(Token::Equal)
            } else {
                self.read_char();
                Ok(Token::Assign)
            }
        } else if b == 33 {
            if self.peek() == 61 {
                self.read_char();
                self.read_char();
                Ok(Token::NotEqual)
            } else {
                self.read_char();
                Ok(Token::Bang)
            }
        } else if b == 59 {
            self.read_char();
            Ok(Token::Semicolon)
        } else if b == 40 {
            self.read_char();
            Ok(Token::Lparen)
        } else if b == 41 {
            self.read_char();
            Ok(Token::Rparen)
        } else if b == 44 {
            self.read_char();
            Ok(Token::Comma)
        } else if b == 43 {
            self.read_char();
            Ok(Token::Plus)
        } else if b == 45 {
            self.read_char();
            Ok(Token::Minus)
        } else if b == 42 {
            self.read_char();
            Ok(Token::Asterisk)
        } else if b == 47 {
            self.read_char();
            Ok(Token::Slash)
        } else if b == 60 {
            self.read_char();
            Ok(Token::Lt)
        } else if b == 62 {
            self.read_char();
            Ok(Token::Gt)
        } else if b == 123 {
            self.read_char();
            Ok(Token::LSquirly)
        } else if b == 125 {
            self.read_char();
            Ok(Token::RSquirly)
        } else if (b >= 97 && b <= 122) || (b >= 65 && b <= 90) || b == 95 {
            let w = self.read_identifier();
            Ok(lookup_word(w))
        } else if b >= 48 && b <= 57 {
            match self.read_int() {
                Ok(n) => Ok(Token::Int(n)),
                Err(e) => Err(e),
            }
        } else if b == 34 {
            match self.read_string() {
                Ok(s) => Ok(Token::Str(s)),
                Err(e) => Err(e),
            }
        } else {
            Err(LexError::IllegalCharacter(b))
        }
    }
}

} // verus!
