//! Decisions that the line editor takes on the token stream while the user types.

use vstd::prelude::*;

use crate::parser::first_eq;
use crate::text::{chars_of, string_of};
use crate::token::{Token, TokenV};

verus! {

/// The name and value of an unquoted `NAME=VALUE` token with a non-empty name; the value is
/// absent when nothing follows `=`.
pub open spec fn assignment_parts(t: TokenV) -> Option<(Seq<char>, Option<Seq<char>>)> {
    match t {
        TokenV::Str(s) => {
            let k = first_eq(s, 0);
            if 0 < k < s.len() {
                Some(
                    (
                        s.subrange(0, k as int),
                        if k + 1 < s.len() {
                            Some(s.subrange(k + 1 as int, s.len() as int))
                        } else {
                            None
                        },
                    ),
                )
            } else {
                None
            }
        },
        _ => None,
    }
}

pub open spec fn parts_v(r: Option<(String, Option<String>)>) -> Option<(Seq<char>, Option<Seq<char>>)> {
    match r {
        Some((a, b)) => Some((a@, crate::token::opt_view(b))),
        None => None,
    }
}

impl Token {
    /// The name and value of a `NAME=VALUE` word.
    pub fn try_get_assignment(&self) -> (r: Option<(String, Option<String>)>)
        ensures
            parts_v(r) == assignment_parts(self@),
    {
        match self {
            Token::String(text) => {
                let s = chars_of(text.as_str());
                let mut k: usize = 0;
                while k < s.len() && s[k] != '='
                    invariant
                        k <= s@.len(),
                        first_eq(s@, k as nat) == first_eq(s@, 0),
                    decreases s@.len() - k,
                {
                    k += 1;
                }
                if 0 < k && k < s.len() {
                    let name = string_of(&s, 0, k);
                    let value = if k + 1 < s.len() {
                        Some(string_of(&s, k + 1, s.len()))
                    } else {
                        None
                    };
                    Some((name, value))
                } else {
                    None
                }
            },
            _ => None,
        }
    }
}

/// The token before a word starts a command there: nothing, `|`, `;`, an output
/// redirection, or an assignment.
pub open spec fn starts_command(prev: Option<TokenV>) -> bool {
    match prev {
        None => true,
        Some(TokenV::Pipe) | Some(TokenV::Semicolon) | Some(TokenV::RedirectOutput(..)) => true,
        Some(t) => assignment_parts(t) is Some,
    }
}

pub open spec fn opt_token_v(t: Option<&Token>) -> Option<TokenV> {
    match t {
        Some(x) => Some(x@),
        None => None,
    }
}

/// Whether the word after `prev_token` is shown as a command name.
pub fn should_highlight_command(prev_token: Option<&Token>) -> (r: bool)
    ensures
        r == starts_command(opt_token_v(prev_token)),
{
    match prev_token {
        None => true,
        Some(Token::Pipe) | Some(Token::Semicolon) | Some(Token::RedirectOutput(..)) => true,
        Some(t) => t.try_get_assignment().is_some(),
    }
}

/// Whether a `NAME=VALUE` word after `prev_token` is shown as an assignment: where a
/// command could start.
pub fn should_highlight_assignment(prev_token: Option<&Token>) -> (r: bool)
    ensures
        r == starts_command(opt_token_v(prev_token)),
{
    let mut highlight = match prev_token {
        None => true,
        Some(Token::Pipe) | Some(Token::Semicolon) | Some(Token::RedirectOutput(..)) => true,
        _ => false,
    };
    match prev_token {
        Some(t) => {
            match t {
                Token::String(_) => {
                    if t.try_get_assignment().is_some() {
                        highlight = true;
                    }
                },
                _ => {},
            }
        },
        None => {},
    }
    highlight
}

} // verus!
