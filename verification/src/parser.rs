pub mod token;

use crate::ast::BinOp;
use crate::ast::Expr;
use crate::ast::Ty;
use crate::error::Error;
use token::lexer_measure;
use token::Lexer;
use token::Token;
use vstd::prelude::*;
use vstd::string::StrSliceExecFns;

verus! {

/// Parses one line of surface syntax: `Ok(None)` for a blank or comment
/// line, `Ok(Some(expr))` for an expression followed by nothing else, and
/// a syntax error otherwise.
pub fn parse(input: &str) -> (r: Result<Option<Expr>, Error>)
{
    let mut lexer = match Lexer::new(input) {
        Ok(l) => l,
        Err(e) => {
            return Err(e);
        },
    };
    let ret = match parse_assign(&mut lexer) {
        Ok(o) => o,
        Err(e) => {
            return Err(e);
        },
    };
    match &lexer.next_token {
        Some(_) => Err(Error::Syntax),
        None => Ok(ret),
    }
}

/// Assignment, the loosest-binding form; right-associative.
fn parse_assign(lexer: &mut Lexer) -> (r: Result<Option<Expr>, Error>)
    requires
        old(lexer).wf(),
    ensures
        final(lexer).wf(),
        lexer_measure(final(lexer)) <= lexer_measure(old(lexer)),
    decreases lexer_measure(lexer), 5int, 0int,
{
    let left_hand_side = match parse_binary_operation(lexer) {
        Ok(o) => o,
        Err(e) => {
            return Err(e);
        },
    };
    let has_equal = match &lexer.next_token {
        Some(Token::Equal) => true,
        _ => false,
    };
    if has_equal {
        match lexer.consume_token() {
            Ok(()) => (),
            Err(e) => {
                return Err(e);
            },
        }
        let right_hand_side = match parse_assign(lexer) {
            Ok(Some(e)) => e,
            Ok(None) => {
                return Err(Error::Syntax);
            },
            Err(e) => {
                return Err(e);
            },
        };
        match left_hand_side {
            Some(l) => Ok(Some(Expr::Assign(Box::new(l), Box::new(right_hand_side)))),
            None => Err(Error::Syntax),
        }
    } else {
        Ok(left_hand_side)
    }
}

fn parse_binary_operation(lexer: &mut Lexer) -> (r: Result<Option<Expr>, Error>)
    requires
        old(lexer).wf(),
    ensures
        final(lexer).wf(),
        lexer_measure(final(lexer)) <= lexer_measure(old(lexer)),
    decreases lexer_measure(lexer), 4int, 0int,
{
    parse_binary_operation_rec(lexer, Precedence::first())
}

/// The binding strength of a binary operator, loosest first.
#[derive(Clone, Copy, Debug)]
enum Precedence {
    AddSub,
    MulDivRem,
}

spec fn prec_rank(p: Option<Precedence>) -> int {
    match p {
        Some(Precedence::AddSub) => 2,
        Some(Precedence::MulDivRem) => 1,
        None => 0,
    }
}

impl Precedence {
    /// The loosest precedence level.
    fn first() -> (r: Option<Precedence>)
        ensures
            r == Some(Precedence::AddSub),
    {
        Some(Precedence::AddSub)
    }

    /// The next-tighter precedence level, if any.
    fn next(self) -> (r: Option<Precedence>)
        ensures
            prec_rank(r) < prec_rank(Some(self)),
    {
        match self {
            Precedence::AddSub => Some(Precedence::MulDivRem),
            Precedence::MulDivRem => None,
        }
    }
}

/// A run of left-associated binary operations at one precedence level,
/// with the tighter levels parsed below it.
fn parse_binary_operation_rec(lexer: &mut Lexer, precedence: Option<Precedence>) -> (r: Result<
    Option<Expr>,
    Error,
>)
    requires
        old(lexer).wf(),
    ensures
        final(lexer).wf(),
        lexer_measure(final(lexer)) <= lexer_measure(old(lexer)),
    decreases lexer_measure(lexer), 3int, prec_rank(precedence),
{
    let precedence = match precedence {
        Some(p) => p,
        None => {
            return parse_factor(lexer);
        },
    };
    let ghost m0 = lexer_measure(old(lexer));
    let mut left = match parse_binary_operation_rec(lexer, precedence.next()) {
        Ok(o) => o,
        Err(e) => {
            return Err(e);
        },
    };
    loop
        invariant
            lexer.wf(),
            m0 == lexer_measure(old(lexer)),
            lexer_measure(lexer) <= m0,
        decreases lexer_measure(lexer),
    {
        let operator = match &lexer.next_token {
            Some(t) => match binary_operator(t, precedence) {
                Some(op) => op,
                None => {
                    break ;
                },
            },
            None => {
                break ;
            },
        };
        match lexer.consume_token() {
            Ok(()) => (),
            Err(e) => {
                return Err(e);
            },
        }
        let right = match parse_binary_operation_rec(lexer, precedence.next()) {
            Ok(Some(e)) => e,
            Ok(None) => {
                return Err(Error::Syntax);
            },
            Err(e) => {
                return Err(e);
            },
        };
        let l = match left {
            Some(l) => l,
            None => {
                return Err(Error::Syntax);
            },
        };
        left = Some(Expr::Bin(Box::new(l), operator, Box::new(right)));
    }
    Ok(left)
}

/// The operator a token stands for at a given precedence level.
fn binary_operator(token: &Token, precedence: Precedence) -> (r: Option<BinOp>) {
    match (token, precedence) {
        (Token::Asterisk, Precedence::MulDivRem) => Some(BinOp::Mul),
        (Token::Slash, Precedence::MulDivRem) => Some(BinOp::Div),
        (Token::Percent, Precedence::MulDivRem) => Some(BinOp::Rem),
        (Token::Plus, Precedence::AddSub) => Some(BinOp::Add),
        (Token::Hyphen, Precedence::AddSub) => Some(BinOp::Sub),
        _ => None,
    }
}

/// Whether every character of `s` is a decimal digit.
pub open spec fn all_digits(s: Seq<char>) -> bool {
    forall|i: int| 0 <= i < s.len() ==> token::is_digit_char(#[trigger] s[i])
}

/// The number a run of decimal digits denotes.
pub open spec fn digits_value(s: Seq<char>) -> int
    decreases s.len(),
{
    if s.len() == 0 {
        0
    } else {
        digits_value(s.drop_last()) * 10 + (s.last() as u32 - 48)
    }
}

/// A digit run denotes a nonnegative number.
proof fn lemma_digits_nonneg(s: Seq<char>)
    requires
        all_digits(s),
    ensures
        digits_value(s) >= 0,
    decreases s.len(),
{
    if s.len() > 0 {
        assert forall|i: int| 0 <= i < s.drop_last().len() implies token::is_digit_char(
            #[trigger] s.drop_last()[i],
        ) by {
            assert(s.drop_last()[i] == s[i]);
        }
        lemma_digits_nonneg(s.drop_last());
    }
}

/// Dropping trailing digits never makes the number larger.
proof fn lemma_digits_prefix(s: Seq<char>, j: int)
    requires
        all_digits(s),
        0 <= j <= s.len(),
    ensures
        digits_value(s.take(j)) <= digits_value(s),
    decreases s.len() - j,
{
    if j == s.len() {
        assert(s.take(j) =~= s);
    } else {
        assert forall|i: int| 0 <= i < s.take(j + 1).len() implies token::is_digit_char(
            #[trigger] s.take(j + 1)[i],
        ) by {
            assert(s.take(j + 1)[i] == s[i]);
        }
        assert(s.take(j + 1).drop_last() =~= s.take(j));
        assert(s.take(j + 1).last() == s[j]);
        lemma_digits_nonneg(s.take(j));
        lemma_digits_prefix(s, j + 1);
    }
}

/// The value of a run of decimal digits, as a 32-bit integer: exactly
/// `digits_value` whenever that fits, and a refusal otherwise.
fn parse_i32(digits: &String) -> (r: Result<i32, Error>)
    ensures
        r is Ok ==> all_digits(digits@) && digits@.len() > 0 && r.unwrap() == digits_value(
            digits@,
        ),
        digits@.len() > 0 && all_digits(digits@) && digits_value(digits@) <= i32::MAX ==> r is Ok,
{
    let s = digits.as_str();
    let len = s.unicode_len();
    if len == 0 {
        return Err(Error::Syntax);
    }
    let mut value: i32 = 0;
    let mut i: usize = 0;
    while i < len
        invariant
            len == s@.len(),
            s@ == digits@,
            len > 0,
            i <= len,
            forall|j: int| 0 <= j < i ==> token::is_digit_char(#[trigger] s@[j]),
            value == digits_value(s@.take(i as int)),
            value >= 0,
        decreases len - i,
    {
        let c = s.get_char(i);
        let u = c as u32;
        if !(48 <= u && u <= 57) {
            return Err(Error::Syntax);
        }
        proof {
            assert(s@.take(i + 1).drop_last() =~= s@.take(i as int));
            assert(s@.take(i + 1).last() == s@[i as int]);
        }
        let d = (u - 48) as i32;
        let stepped = match value.checked_mul(10) {
            Some(v) => v.checked_add(d),
            None => None,
        };
        value = match stepped {
            Some(v) => v,
            None => {
                proof {
                    if all_digits(digits@) && digits_value(digits@) <= i32::MAX {
                        lemma_digits_prefix(s@, i + 1);
                    }
                }
                return Err(Error::IntegerOverflow);
            },
        };
        i = i + 1;
    }
    proof {
        assert(s@.take(len as int) =~= s@);
    }
    Ok(value)
}

/// An atom — an integer literal, an identifier, a parenthesized
/// expression, or a `[T]` annotation — under its chain of calls.
fn parse_factor(lexer: &mut Lexer) -> (r: Result<Option<Expr>, Error>)
    requires
        old(lexer).wf(),
    ensures
        final(lexer).wf(),
        lexer_measure(final(lexer)) <= lexer_measure(old(lexer)),
    decreases lexer_measure(lexer), 0int, 0int,
{
    let ghost m0 = lexer_measure(old(lexer));
    let mut expr = match &lexer.next_token {
        Some(Token::Integer(value)) => {
            let v = match parse_i32(value) {
                Ok(v) => v,
                Err(e) => {
                    return Err(e);
                },
            };
            match lexer.consume_token() {
                Ok(()) => (),
                Err(e) => {
                    return Err(e);
                },
            }
            Expr::Int(v)
        },
        Some(Token::Identifier(_)) => {
            let name = match &lexer.next_token {
                Some(Token::Identifier(n)) => String::from_str(n.as_str()),
                _ => {
                    return Err(Error::Syntax);
                },
            };
            match lexer.consume_token() {
                Ok(()) => (),
                Err(e) => {
                    return Err(e);
                },
            }
            Expr::Var(name)
        },
        Some(Token::OpeningParenthesis) => {
            match lexer.consume_token() {
                Ok(()) => (),
                Err(e) => {
                    return Err(e);
                },
            }
            let inner = match parse_binary_operation(lexer) {
                Ok(Some(e)) => e,
                Ok(None) => {
                    return Err(Error::Syntax);
                },
                Err(e) => {
                    return Err(e);
                },
            };
            match &lexer.next_token {
                Some(Token::ClosingParenthesis) => (),
                _ => {
                    return Err(Error::Syntax);
                },
            }
            match lexer.consume_token() {
                Ok(()) => (),
                Err(e) => {
                    return Err(e);
                },
            }
            inner
        },
        Some(Token::OpeningBracket) => {
            match lexer.consume_token() {
                Ok(()) => (),
                Err(e) => {
                    return Err(e);
                },
            }
            let ty = match parse_ty(lexer) {
                Ok(Some(t)) => t,
                Ok(None) => {
                    return Err(Error::Syntax);
                },
                Err(e) => {
                    return Err(e);
                },
            };
            match &lexer.next_token {
                Some(Token::ClosingBracket) => (),
                _ => {
                    return Err(Error::Syntax);
                },
            }
            match lexer.consume_token() {
                Ok(()) => (),
                Err(e) => {
                    return Err(e);
                },
            }
            Expr::Id(ty)
        },
        _ => {
            return Ok(None);
        },
    };
    loop
        invariant
            lexer.wf(),
            m0 == lexer_measure(old(lexer)),
            lexer_measure(lexer) < m0,
        decreases lexer_measure(lexer),
    {
        match &lexer.next_token {
            Some(Token::OpeningParenthesis) => (),
            _ => {
                break ;
            },
        }
        match lexer.consume_token() {
            Ok(()) => (),
            Err(e) => {
                return Err(e);
            },
        }
        let mut args: Vec<Expr> = Vec::new();
        let ghost m_call = lexer_measure(lexer);
        loop
            invariant
                lexer.wf(),
                m0 == lexer_measure(old(lexer)),
                lexer_measure(lexer) < m0,
                lexer_measure(lexer) <= m_call,
            decreases lexer_measure(lexer),
        {
            let arg = match parse_binary_operation(lexer) {
                Ok(o) => o,
                Err(e) => {
                    return Err(e);
                },
            };
            let has_comma = match &lexer.next_token {
                Some(Token::Comma) => true,
                _ => false,
            };
            if has_comma {
                match lexer.consume_token() {
                    Ok(()) => (),
                    Err(e) => {
                        return Err(e);
                    },
                }
                match arg {
                    Some(a) => args.push(a),
                    None => {
                        return Err(Error::Syntax);
                    },
                }
            } else {
                match arg {
                    Some(a) => args.push(a),
                    None => (),
                }
                break ;
            }
        }
        match &lexer.next_token {
            Some(Token::ClosingParenthesis) => (),
            _ => {
                return Err(Error::Syntax);
            },
        }
        match lexer.consume_token() {
            Ok(()) => (),
            Err(e) => {
                return Err(e);
            },
        }
        expr = Expr::Call(Box::new(expr), args);
    }
    Ok(Some(expr))
}

/// A type annotation: `Int`, or a parenthesized parameter list followed by
/// a return type.
fn parse_ty(lexer: &mut Lexer) -> (r: Result<Option<Ty>, Error>)
    requires
        old(lexer).wf(),
    ensures
        final(lexer).wf(),
        lexer_measure(final(lexer)) <= lexer_measure(old(lexer)),
    decreases lexer_measure(lexer), 0int, 0int,
{
    let ghost m0 = lexer_measure(old(lexer));
    let is_ident = match &lexer.next_token {
        Some(Token::Identifier(_)) => true,
        _ => false,
    };
    if is_ident {
        let known = match &lexer.next_token {
            Some(Token::Identifier(name)) => {
                let s = name.as_str();
                // the sole named type
                s.unicode_len() == 3 && s.get_char(0) == 'I' && s.get_char(1) == 'n' && s.get_char(
                    2,
                ) == 't'
            },
            _ => false,
        };
        match lexer.consume_token() {
            Ok(()) => (),
            Err(e) => {
                return Err(e);
            },
        }
        if known {
            Ok(Some(Ty::Int))
        } else {
            Ok(None)
        }
    } else {
        let is_paren = match &lexer.next_token {
            Some(Token::OpeningParenthesis) => true,
            _ => false,
        };
        if !is_paren {
            return Ok(None);
        }
        match lexer.consume_token() {
            Ok(()) => (),
            Err(e) => {
                return Err(e);
            },
        }
        let mut args: Vec<Ty> = Vec::new();
        loop
            invariant
                lexer.wf(),
                m0 == lexer_measure(old(lexer)),
                lexer_measure(lexer) < m0,
            decreases lexer_measure(lexer),
        {
            let arg = match parse_ty(lexer) {
                Ok(o) => o,
                Err(e) => {
                    return Err(e);
                },
            };
            let has_comma = match &lexer.next_token {
                Some(Token::Comma) => true,
                _ => false,
            };
            if has_comma {
                match lexer.consume_token() {
                    Ok(()) => (),
                    Err(e) => {
                        return Err(e);
                    },
                }
                match arg {
                    Some(a) => args.push(a),
                    None => {
                        return Err(Error::Syntax);
                    },
                }
            } else {
                match arg {
                    Some(a) => args.push(a),
                    None => (),
                }
                break ;
            }
        }
        match &lexer.next_token {
            Some(Token::ClosingParenthesis) => (),
            _ => {
                return Err(Error::Syntax);
            },
        }
        match lexer.consume_token() {
            Ok(()) => (),
            Err(e) => {
                return Err(e);
            },
        }
        let ret = match parse_ty(lexer) {
            Ok(Some(t)) => t,
            Ok(None) => {
                return Err(Error::Syntax);
            },
            Err(e) => {
                return Err(e);
            },
        };
        Ok(Some(Ty::Func { args, ret: Box::new(ret) }))
    }
}

} // verus!
