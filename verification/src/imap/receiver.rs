//! A received command: its tag, what it asks for and its argument tokens.

use crate::codec::utf8_text;
use vstd::prelude::*;
use vstd::string::{StringExecFns, StringSliceAdditionalSpecFns};
use vstd::utf8::{decode_utf8, encode_utf8_decode_utf8, valid_utf8};

verus! {

/// The commands whose arguments are parsed here.
#[derive(Debug, Clone, Copy, PartialEq, Eq, Structural)]
pub enum Command {
    SetAcl,
    DeleteAcl,
    GetAcl,
    ListRights,
    MyRights,
    Rename,
}

/// One token of a command line.
#[derive(Debug, Clone, PartialEq, Eq)]
pub enum Token {
    Argument(Vec<u8>),
    ParenthesisOpen,
    ParenthesisClose,
    BracketOpen,
    BracketClose,
    Lt,
    Gt,
    Dot,
    Nil,
}

/// A command as received.
#[derive(Debug, Clone, PartialEq, Eq)]
pub struct Request<T> {
    pub tag: String,
    pub command: T,
    pub tokens: Vec<Token>,
}

/// A command that is refused, with the tag it came under and the reason.
#[derive(Debug, Clone, PartialEq, Eq)]
pub struct BadRequest {
    pub tag: String,
    pub message: String,
}

/// A refusal as plain values.
pub struct BadRequestView {
    pub tag: Seq<char>,
    pub message: Seq<char>,
}

impl View for BadRequest {
    type V = BadRequestView;

    open spec fn view(&self) -> BadRequestView {
        BadRequestView { tag: self.tag@, message: self.message@ }
    }
}

impl Token {
    /// The text that a token other than an argument stands for.
    pub open spec fn symbol(self) -> Seq<char> {
        match self {
            Token::ParenthesisOpen => "("@,
            Token::ParenthesisClose => ")"@,
            Token::BracketOpen => "["@,
            Token::BracketClose => "]"@,
            Token::Lt => "<"@,
            Token::Gt => ">"@,
            Token::Dot => "."@,
            _ => Seq::empty(),
        }
    }

    /// The text of the token: an argument must be valid UTF-8.
    pub open spec fn text(self) -> Option<Seq<char>> {
        match self {
            Token::Argument(v) => if valid_utf8(v@) {
                Some(decode_utf8(v@))
            } else {
                None
            },
            other => Some(other.symbol()),
        }
    }

    /// The byte that a token other than an argument stands for, if any.
    pub open spec fn symbol_bytes(self) -> Seq<u8> {
        match self {
            Token::ParenthesisOpen => seq![40u8],
            Token::ParenthesisClose => seq![41u8],
            Token::BracketOpen => seq![91u8],
            Token::BracketClose => seq![93u8],
            Token::Lt => seq![60u8],
            Token::Gt => seq![62u8],
            Token::Dot => seq![46u8],
            _ => Seq::empty(),
        }
    }

    /// The bytes of the token.
    pub open spec fn bytes(self) -> Seq<u8> {
        match self {
            Token::Argument(v) => v@,
            other => other.symbol_bytes(),
        }
    }

    /// The token as text; an argument that is not valid UTF-8 is refused.
    pub fn unwrap_string(&self) -> (r: Result<String, String>)
        ensures
            match self.text() {
                Some(t) => r matches Ok(s) && s@ == t,
                None => r matches Err(e) && e@ == "Invalid UTF-8 in argument."@,
            },
    {
        match self {
            Token::Argument(v) => match utf8_text(v.as_slice()) {
                Some(s) => {
                    proof {
                        encode_utf8_decode_utf8(s@);
                    }
                    Ok(s.to_owned())
                },
                None => Err(String::from_str("Invalid UTF-8 in argument.")),
            },
            Token::ParenthesisOpen => Ok(String::from_str("(")),
            Token::ParenthesisClose => Ok(String::from_str(")")),
            Token::BracketOpen => Ok(String::from_str("[")),
            Token::BracketClose => Ok(String::from_str("]")),
            Token::Lt => Ok(String::from_str("<")),
            Token::Gt => Ok(String::from_str(">")),
            Token::Dot => Ok(String::from_str(".")),
            Token::Nil => Ok(String::new()),
        }
    }

    /// The token as bytes.
    pub fn unwrap_bytes(&self) -> (r: Vec<u8>)
        ensures
            r@ == self.bytes(),
    {
        let mut out: Vec<u8> = Vec::new();
        match self {
            Token::Argument(v) => {
                let n = v.len();
                let mut i: usize = 0;
                while i < n
                    invariant
                        i <= n,
                        n == v@.len(),
                        out@ == v@.take(i as int),
                    decreases n - i,
                {
                    out.push(v[i]);
                    proof {
                        assert(v@.take(i + 1) == v@.take(i as int).push(v@[i as int]));
                    }
                    i += 1;
                }
                proof {
                    assert(v@.take(n as int) == v@);
                }
            },
            Token::ParenthesisOpen => out.push(40),
            Token::ParenthesisClose => out.push(41),
            Token::BracketOpen => out.push(91),
            Token::BracketClose => out.push(93),
            Token::Lt => out.push(60),
            Token::Gt => out.push(62),
            Token::Dot => out.push(46),
            Token::Nil => {},
        }
        proof {
            assert(out@ =~= self.bytes());
        }
        out
    }
}

/// The refusal of a command under `tag` for the reason `message`.
pub fn bad(tag: &String, message: String) -> (r: BadRequest)
    ensures
        r@ == (BadRequestView { tag: tag@, message: message@ }),
{
    BadRequest { tag: tag.clone(), message }
}

impl<T> Request<T> {
    /// The refusal of this command for the reason `message`.
    pub fn into_error(self, message: &str) -> (r: BadRequest)
        ensures
            r@ == (BadRequestView { tag: self.tag@, message: message@ }),
    {
        BadRequest { tag: self.tag, message: String::from_str(message) }
    }
}

} // verus!
