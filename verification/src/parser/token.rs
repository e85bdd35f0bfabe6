use crate::error::Error;
use vstd::prelude::*;
use vstd::string::StrSliceExecFns;
use vstd::string::StringExecFns;

verus! {

/// One token of the surface syntax.
#[derive(Debug)]
pub enum Token {
    /// A run of decimal digits (separating underscores already dropped).
    Integer(String),
    Identifier(String),
    Equal,
    Plus,
    Hyphen,
    Asterisk,
    Slash,
    Percent,
    Comma,
    OpeningParenthesis,
    ClosingParenthesis,
    OpeningBracket,
    ClosingBracket,
}

/// A one-token-lookahead lexer over an ASCII line.
#[derive(Debug)]
pub struct Lexer {
    pub input: String,
    pub pos: usize,
    /// The buffered next token; `None` once the line is exhausted.
    pub next_token: Option<Token>,
}

/// How much work is left in the lexer: the unread characters, plus one for
/// a still-buffered token. Every parsing step drives this down.
pub open spec fn lexer_measure(l: &Lexer) -> int {
    l.input@.len() - l.pos + (if l.next_token is Some {
        1int
    } else {
        0int
    })
}

pub open spec fn is_digit_char(c: char) -> bool {
    48 <= c as u32 <= 57
}

fn is_digit(c: char) -> (r: bool)
    ensures
        r == is_digit_char(c),
{
    let u = c as u32;
    48 <= u && u <= 57
}

pub open spec fn is_ident_start_char(c: char) -> bool {
    (97 <= c as u32 <= 122) || (65 <= c as u32 <= 90) || c as u32 == 95
}

fn is_ident_start(c: char) -> (r: bool)
    ensures
        r == is_ident_start_char(c),
{
    let u = c as u32;
    (97 <= u && u <= 122) || (65 <= u && u <= 90) || u == 95
}

pub open spec fn is_ident_continue_char(c: char) -> bool {
    is_ident_start_char(c) || is_digit_char(c)
}

fn is_ident_continue(c: char) -> (r: bool)
    ensures
        r == is_ident_continue_char(c),
{
    is_ident_start(c) || is_digit(c)
}

pub open spec fn is_space_char(c: char) -> bool {
    c as u32 == 32 || c as u32 == 9 || c as u32 == 10 || c as u32 == 13 || c as u32 == 12
}

fn is_space(c: char) -> (r: bool)
    ensures
        r == is_space_char(c),
{
    let u = c as u32;
    u == 32 || u == 9 || u == 10 || u == 13 || u == 12
}

impl Lexer {
    /// The cursor never leaves the line, and the line is ASCII, so that
    /// character positions and byte positions agree.
    pub open spec fn wf(&self) -> bool {
        self.pos <= self.input@.len() && vstd::utf8::is_ascii_chars(self.input@)
    }

    /// A lexer over `input` with the first token already buffered; a line
    /// holding a character outside ASCII, or outside the alphabet, is
    /// refused.
    pub fn new(input: &str) -> (r: Result<Lexer, Error>)
        ensures
            match r {
                Ok(l) => l.wf(),
                Err(e) => e == Error::Syntax,
            },
    {
        if !input.is_ascii() {
            return Err(Error::Syntax);
        }
        let mut ret = Lexer { input: String::from_str(input), pos: 0, next_token: None };
        proof {
            assert(ret.input@ == input@);
            assert(ret.wf());
        }
        match ret.consume_token() {
            Ok(()) => Ok(ret),
            Err(e) => Err(e),
        }
    }

    fn next_char(&self) -> (r: Option<char>)
        requires
            self.wf(),
        ensures
            r == (if self.pos < self.input@.len() {
                Some(self.input@[self.pos as int])
            } else {
                None::<char>
            }),
    {
        let len = self.input.as_str().unicode_len();
        if self.pos < len {
            Some(self.input.as_str().get_char(self.pos))
        } else {
            None
        }
    }

    /// Reads the next token of the line into the buffer, skipping blanks
    /// first; a `#` starts a comment running to the end of the line. An
    /// unexpected character is a syntax error.
    pub fn consume_token(&mut self) -> (r: Result<(), Error>)
        requires
            old(self).wf(),
        ensures
            final(self).wf(),
            final(self).input@ == old(self).input@,
            lexer_measure(final(self)) <= lexer_measure(old(self)),
            old(self).next_token is Some ==> lexer_measure(final(self)) < lexer_measure(
                old(self),
            ),
            r is Err ==> r.unwrap_err() == Error::Syntax,
    {
        let ghost pos0 = self.pos;
        let len = self.input.as_str().unicode_len();
        loop
            invariant
                self.wf(),
                len == self.input@.len(),
                pos0 <= self.pos <= len,
                self.input@ == old(self).input@,
                self.next_token == old(self).next_token,
            decreases len - self.pos,
        {
            match self.next_char() {
                Some(c) => {
                    if is_space(c) {
                        self.pos = self.pos + 1;
                    } else {
                        break ;
                    }
                },
                None => {
                    break ;
                },
            }
        }
        let start = self.pos;
        let first = match self.next_char() {
            None => {
                self.next_token = None;
                return Ok(());
            },
            Some(c) => c,
        };
        self.pos = self.pos + 1;
        if is_digit(first) {
            let mut value = String::new();
            value.append(self.input.as_str().substring_ascii(start, start + 1));
            loop
                invariant
                    self.wf(),
                    len == self.input@.len(),
                    start + 1 <= self.pos <= len,
                    self.input@ == old(self).input@,
                    self.next_token == old(self).next_token,
                decreases len - self.pos,
            {
                match self.next_char() {
                    Some(c) => {
                        if is_digit(c) {
                            let p = self.pos;
                            value.append(self.input.as_str().substring_ascii(p, p + 1));
                            self.pos = p + 1;
                        } else if c == '_' {
                            self.pos = self.pos + 1;
                        } else {
                            break ;
                        }
                    },
                    None => {
                        break ;
                    },
                }
            }
            self.next_token = Some(Token::Integer(value));
            Ok(())
        } else if is_ident_start(first) {
            loop
                invariant
                    self.wf(),
                    len == self.input@.len(),
                    start + 1 <= self.pos <= len,
                    self.input@ == old(self).input@,
                    self.next_token == old(self).next_token,
                decreases len - self.pos,
            {
                match self.next_char() {
                    Some(c) => {
                        if is_ident_continue(c) {
                            self.pos = self.pos + 1;
                        } else {
                            break ;
                        }
                    },
                    None => {
                        break ;
                    },
                }
            }
            let end = self.pos;
            let name = String::from_str(self.input.as_str().substring_ascii(start, end));
            self.next_token = Some(Token::Identifier(name));
            Ok(())
        } else {
            let u = first as u32;
            if u == 35 {
                // a comment: discard the rest of the line
                self.pos = len;
                self.next_token = None;
                Ok(())
            } else {
                let tok = if u == 61 {
                    Token::Equal
                } else if u == 43 {
                    Token::Plus
                } else if u == 45 {
                    Token::Hyphen
                } else if u == 42 {
                    Token::Asterisk
                } else if u == 47 {
                    Token::Slash
                } else if u == 37 {
                    Token::Percent
                } else if u == 44 {
                    Token::Comma
                } else if u == 40 {
                    Token::OpeningParenthesis
                } else if u == 41 {
                    Token::ClosingParenthesis
                } else if u == 91 {
                    Token::OpeningBracket
                } else if u == 93 {
                    Token::ClosingBracket
                } else {
                    self.next_token = None;
                    return Err(Error::Syntax);
                };
                self.next_token = Some(tok);
                Ok(())
            }
        }
    }
}

} // verus!
