//! Tokens and the lexing error, with their mathematical models.

use vstd::prelude::*;

verus! {

/// Mathematical model of a token: the payload is the matched byte run.
pub enum SpecToken {
    Number(Seq<u8>),
    Operator(Seq<u8>),
    OpenParenthesis,
    ClosedParenthesis,
}

/// A classified lexical unit. `Number` and `Operator` carry the exact matched
/// byte run; the parenthesis variants are declared but never produced, and a
/// parenthesis byte in the input is an error.
#[derive(Debug)]
pub enum Token {
    Number(Vec<u8>),
    Operator(Vec<u8>),
    OpenParenthesis,
    ClosedParenthesis,
}

impl View for Token {
    type V = SpecToken;

    open spec fn view(&self) -> SpecToken {
        match self {
            Token::Number(run) => SpecToken::Number(run@),
            Token::Operator(run) => SpecToken::Operator(run@),
            Token::OpenParenthesis => SpecToken::OpenParenthesis,
            Token::ClosedParenthesis => SpecToken::ClosedParenthesis,
        }
    }
}

/// Element-by-element comparison of two byte vectors.
fn bytes_eq(a: &Vec<u8>, b: &Vec<u8>) -> (r: bool)
    ensures
        r == (a@ == b@),
{
    if a.len() != b.len() {
        assert(a@ != b@);
        return false;
    }
    let mut i: usize = 0;
    while i < a.len()
        invariant
            0 <= i <= a.len(),
            a@.len() == b@.len(),
            forall|k: int| 0 <= k < i ==> a@[k] == b@[k],
        decreases a@.len() - i,
    {
        if a[i] != b[i] {
            assert(a@ != b@);
            return false;
        }
        i = i + 1;
    }
    proof {
        assert(a@ =~= b@);
    }
    true
}

impl PartialEq for Token {
    fn eq(&self, other: &Token) -> (r: bool) {
        match (self, other) {
            (Token::Number(a), Token::Number(b)) => bytes_eq(a, b),
            (Token::Operator(a), Token::Operator(b)) => bytes_eq(a, b),
            (Token::OpenParenthesis, Token::OpenParenthesis) => true,
            (Token::ClosedParenthesis, Token::ClosedParenthesis) => true,
            _ => false,
        }
    }
}

impl vstd::std_specs::cmp::PartialEqSpecImpl for Token {
    open spec fn obeys_eq_spec() -> bool {
        true
    }

    open spec fn eq_spec(&self, other: &Token) -> bool {
        self@ == other@
    }
}

/// The single lexing error: the current byte starts no known token and is not
/// whitespace. It carries no payload.
#[derive(Debug)]
pub struct LexerError {}

impl LexerError {
    pub fn new() -> (e: LexerError)
        ensures
            e == (LexerError {  }),
    {
        LexerError {  }
    }

    /// The human-readable description of the error.
    pub fn message(&self) -> (m: String)
        ensures
            m@ == "Lexer error encountered"@,
    {
        "Lexer error encountered".to_owned()
    }
}

/// The bytes a token carries: the matched run, or nothing for a parenthesis.
pub open spec fn token_bytes(t: SpecToken) -> Seq<u8> {
    match t {
        SpecToken::Number(run) => run,
        SpecToken::Operator(run) => run,
        SpecToken::OpenParenthesis => Seq::empty(),
        SpecToken::ClosedParenthesis => Seq::empty(),
    }
}

} // verus!
