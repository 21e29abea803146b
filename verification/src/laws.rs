//! The token stream that the documented driving loop collects, and the laws
//! that hold of it.
//!
//! The driving loop is the one the tokenizer is written for: while `eof()` is
//! false, call `next_token()`, collect the token of `Ok(Some(_))`, skip
//! `Ok(None)`, and stop on the first error. `lex_all` is that loop as a
//! function of the input bytes.

use vstd::prelude::*;
use crate::chars::alpha_end;
use crate::chars::char_at;
use crate::chars::digit_end;
use crate::chars::is_alpha;
use crate::chars::is_digit;
use crate::chars::is_operator;
use crate::chars::is_space;
use crate::chars::lemma_alpha_end;
use crate::chars::lemma_digit_end;
use crate::chars::lemma_ws_end;
use crate::chars::lemma_ws_end_unique;
use crate::chars::ws_end;
use crate::lexer::lex_step_pos;
use crate::lexer::lex_step_result;
use crate::token::LexerError;
use crate::token::SpecToken;
use crate::token::token_bytes;

verus! {

/// After a step that returns `Ok`, the cursor has moved strictly forward and
/// is still inside the buffer; after any step it has not moved backward.
pub proof fn lemma_lex_step_advances(s: Seq<u8>, p: int)
    requires
        0 <= p <= s.len(),
    ensures
        p <= lex_step_pos(s, p) <= s.len(),
        lex_step_result(s, p) is Ok ==> lex_step_pos(s, p) > p,
{
    lemma_ws_end(s, p);
    let j = ws_end(s, p);
    let c = char_at(s, j);
    if is_digit(c) {
        assert(j < s.len());
        lemma_digit_end(s, j + 1);
        assert(digit_end(s, j) == digit_end(s, j + 1));
    } else if is_alpha(c) {
        assert(j < s.len());
        lemma_alpha_end(s, j + 1);
        assert(alpha_end(s, j) == alpha_end(s, j + 1));
    } else if is_operator(c) {
        assert(j < s.len());
    }
}

/// The token stream that the driving loop collects from position `p` on:
/// steps are taken while the near-end check still admits them; a step's token
/// is appended, a skipped run contributes nothing, and the first error ends
/// the whole scan with that error.
pub open spec fn lex_all_from(s: Seq<u8>, p: int) -> Result<Seq<SpecToken>, LexerError>
    recommends
        0 <= p <= s.len(),
    decreases s.len() - p, when 0 <= p <= s.len() via lex_all_from_decreases
{
    if p + 1 >= s.len() {
        Ok(Seq::empty())
    } else {
        match lex_step_result(s, p) {
            Err(e) => Err(e),
            Ok(produced) => match lex_all_from(s, lex_step_pos(s, p)) {
                Err(e) => Err(e),
                Ok(rest) => Ok(
                    match produced {
                        Some(t) => seq![t] + rest,
                        None => rest,
                    },
                ),
            },
        }
    }
}

#[via_fn]
proof fn lex_all_from_decreases(s: Seq<u8>, p: int) {
    if 0 <= p <= s.len() && p + 1 < s.len() {
        lemma_lex_step_advances(s, p);
    }
}

/// The token stream of a whole input.
pub open spec fn lex_all(s: Seq<u8>) -> Result<Seq<SpecToken>, LexerError> {
    lex_all_from(s, 0)
}

/// `run` is the nonempty maximal digit run of the input that starts at `j`:
/// no digit stands directly before it, none directly after it.
pub open spec fn number_run_at(s: Seq<u8>, j: int, run: Seq<u8>) -> bool {
    &&& 0 <= j < s.len()
    &&& run == s.subrange(j, digit_end(s, j))
    &&& run.len() > 0
    &&& !is_digit(char_at(s, j - 1))
    &&& !is_digit(char_at(s, digit_end(s, j)))
}

/// Every byte of `run` is a digit.
pub open spec fn all_digits(run: Seq<u8>) -> bool {
    forall|i: int| 0 <= i < run.len() ==> is_digit(#[trigger] run[i])
}

/// The shape every produced token has: a `Number` holding a nonempty maximal
/// digit run of the input, or an `Operator` holding exactly one operator
/// byte. No other token is ever produced.
pub open spec fn token_is_lexical(s: Seq<u8>, t: SpecToken) -> bool {
    match t {
        SpecToken::Number(run) => all_digits(run) && (exists|j: int|
            #[trigger] number_run_at(s, j, run)),
        SpecToken::Operator(run) => run.len() == 1 && is_operator(run[0]),
        SpecToken::OpenParenthesis => false,
        SpecToken::ClosedParenthesis => false,
    }
}

proof fn lemma_number_token_lexical(s: Seq<u8>, j: int)
    requires
        0 <= j < s.len(),
        is_digit(s[j]),
        !is_digit(char_at(s, j - 1)),
    ensures
        token_is_lexical(s, SpecToken::Number(s.subrange(j, digit_end(s, j)))),
{
    lemma_digit_end(s, j);
    let de = digit_end(s, j);
    let run = s.subrange(j, de);
    assert(de > j) by {
        assert(digit_end(s, j) == digit_end(s, j + 1));
        lemma_digit_end(s, j + 1);
    }
    assert(all_digits(run)) by {
        assert forall|i: int| 0 <= i < run.len() implies is_digit(#[trigger] run[i]) by {
            assert(run[i] == char_at(s, j + i));
        }
    }
    assert(number_run_at(s, j, run));
    assert(token_is_lexical(s, SpecToken::Number(run)));
}

proof fn lemma_lex_all_from_tokens(s: Seq<u8>, p: int, toks: Seq<SpecToken>)
    requires
        0 <= p <= s.len(),
        !(is_digit(char_at(s, p - 1)) && is_digit(char_at(s, p))),
        lex_all_from(s, p) == Ok::<Seq<SpecToken>, LexerError>(toks),
    ensures
        forall|k: int| 0 <= k < toks.len() ==> token_is_lexical(s, #[trigger] toks[k]),
    decreases s.len() - p,
{
    if p + 1 >= s.len() {
    } else {
        lemma_lex_step_advances(s, p);
        lemma_ws_end(s, p);
        let j = ws_end(s, p);
        let c = char_at(s, j);
        let p2 = lex_step_pos(s, p);
        let rest = lex_all_from(s, p2)->Ok_0;
        if is_digit(c) {
            lemma_digit_end(s, j);
            let de = digit_end(s, j);
            let run = s.subrange(j, de);
            assert(!is_digit(char_at(s, j - 1))) by {
                if j > p {
                    assert(is_space(char_at(s, j - 1)));
                }
            }
            lemma_number_token_lexical(s, j);
            lemma_lex_all_from_tokens(s, de, rest);
            assert(toks == seq![SpecToken::Number(run)] + rest);
            assert forall|k: int| 0 <= k < toks.len() implies token_is_lexical(
                s,
                #[trigger] toks[k],
            ) by {
                if k == 0 {
                    assert(toks[k] == SpecToken::Number(run));
                } else {
                    assert(toks[k] == rest[k - 1]);
                    assert(token_is_lexical(s, rest[k - 1]));
                }
            }
        } else if is_alpha(c) {
            lemma_alpha_end(s, j);
            lemma_lex_all_from_tokens(s, p2, rest);
            assert(toks == rest);
        } else if is_operator(c) {
            lemma_lex_all_from_tokens(s, j + 1, rest);
            let t = SpecToken::Operator(seq![c]);
            assert(token_is_lexical(s, t));
            assert(toks == seq![t] + rest);
            assert forall|k: int| 0 <= k < toks.len() implies token_is_lexical(
                s,
                #[trigger] toks[k],
            ) by {
                if k == 0 {
                    assert(toks[k] == t);
                    assert(token_is_lexical(s, t));
                } else {
                    assert(toks[k] == rest[k - 1]);
                    assert(token_is_lexical(s, rest[k - 1]));
                }
            }
        } else {
            assert(lex_all_from(s, p) is Err);
        }
    }
}

proof fn lemma_lex_all_from_succeeds(s: Seq<u8>, p: int)
    requires
        0 <= p <= s.len(),
        forall|i: int|
            0 <= i < s.len() ==> is_digit(#[trigger] char_at(s, i)) || is_operator(char_at(s, i))
                || is_space(char_at(s, i)),
        s.len() >= 2 ==> !(is_space(char_at(s, s.len() - 1)) && is_space(char_at(s, s.len() - 2))),
    ensures
        lex_all_from(s, p) is Ok,
    decreases s.len() - p,
{
    if p + 1 < s.len() {
        lemma_ws_end(s, p);
        let j = ws_end(s, p);
        assert(j < s.len()) by {
            if j == s.len() {
                assert(is_space(char_at(s, s.len() - 1)));
                assert(is_space(char_at(s, s.len() - 2)));
            }
        }
        let c = char_at(s, j);
        assert(is_digit(c) || is_operator(c));
        lemma_lex_step_advances(s, p);
        lemma_lex_all_from_succeeds(s, lex_step_pos(s, p));
    }
}

/// On input made of digits, operators, and whitespace alone, with at most one
/// trailing whitespace byte, the scan succeeds: together with
/// `lemma_tokens_are_lexical` it yields a stream of maximal digit runs and
/// single operator bytes. (Two or more trailing whitespace bytes instead let
/// the driving loop take a step that skips past the end onto the NUL
/// sentinel, which is the unrecognized-character error.)
pub proof fn lemma_digits_ops_ws_scan_succeeds(s: Seq<u8>)
    requires
        forall|i: int|
            0 <= i < s.len() ==> is_digit(#[trigger] char_at(s, i)) || is_operator(char_at(s, i))
                || is_space(char_at(s, i)),
        s.len() >= 2 ==> !(is_space(char_at(s, s.len() - 1)) && is_space(char_at(s, s.len() - 2))),
    ensures
        lex_all(s) is Ok,
{
    lemma_lex_all_from_succeeds(s, 0);
}

/// Every token of a successful scan is a nonempty maximal digit run or a
/// single operator byte; in particular no token holds a whitespace byte, no
/// whitespace byte splits a run, and no parenthesis token is ever produced.
pub proof fn lemma_tokens_are_lexical(s: Seq<u8>, tokens: Seq<SpecToken>)
    requires
        lex_all(s) == Ok::<Seq<SpecToken>, LexerError>(tokens),
    ensures
        forall|k: int| 0 <= k < tokens.len() ==> token_is_lexical(s, #[trigger] tokens[k]),
        forall|k: int, i: int|
            0 <= k < tokens.len() && 0 <= i < token_bytes(tokens[k]).len() ==> !is_space(
                #[trigger] token_bytes(tokens[k])[i],
            ),
{
    lemma_lex_all_from_tokens(s, 0, tokens);
    assert forall|k: int, i: int|
        0 <= k < tokens.len() && 0 <= i < token_bytes(tokens[k]).len() implies !is_space(
        #[trigger] token_bytes(tokens[k])[i],
    ) by {
        assert(token_is_lexical(s, tokens[k]));
    }
}

/// Two adjacent operator bytes — no digits between them — each produce their
/// own single-byte `Operator` token, one step apiece, in input order.
pub proof fn lemma_adjacent_operators(s: Seq<u8>, p: int)
    requires
        0 <= p <= s.len(),
        is_operator(char_at(s, ws_end(s, p))),
        is_operator(char_at(s, ws_end(s, p) + 1)),
    ensures
        ({
            let j = ws_end(s, p);
            &&& lex_step_result(s, p) == Ok::<Option<SpecToken>, LexerError>(
                Some(SpecToken::Operator(seq![char_at(s, j)])),
            )
            &&& lex_step_pos(s, p) == j + 1
            &&& lex_step_result(s, j + 1) == Ok::<Option<SpecToken>, LexerError>(
                Some(SpecToken::Operator(seq![char_at(s, j + 1)])),
            )
            &&& lex_step_pos(s, j + 1) == j + 2
        }),
{
    lemma_ws_end(s, p);
    let j = ws_end(s, p);
    assert(j < s.len());
    assert(j + 1 < s.len());
    lemma_ws_end_unique(s, j + 1, j + 1);
}

/// An alphabetic run after the skipped whitespace produces no token and no
/// error, and the scan goes on after the run exactly as it would from there.
pub proof fn lemma_alpha_run_skipped(s: Seq<u8>, p: int)
    requires
        0 <= p <= s.len(),
        is_alpha(char_at(s, ws_end(s, p))),
    ensures
        lex_step_result(s, p) == Ok::<Option<SpecToken>, LexerError>(None),
        lex_step_pos(s, p) == alpha_end(s, ws_end(s, p)),
        p + 1 < s.len() ==> lex_all_from(s, p) == lex_all_from(s, alpha_end(s, ws_end(s, p))),
{
    lemma_ws_end(s, p);
    let j = ws_end(s, p);
    lemma_alpha_end(s, j);
    if p + 1 < s.len() {
        lemma_lex_step_advances(s, p);
        if lex_all_from(s, alpha_end(s, j)) is Ok {
            assert(lex_all_from(s, p) == lex_all_from(s, alpha_end(s, j)));
        } else {
            assert(lex_all_from(s, p) == lex_all_from(s, alpha_end(s, j)));
        }
    }
}

/// A step fails — with the one unrecognized-character error — exactly when
/// the byte after the skipped whitespace (the NUL sentinel past the end
/// included) is neither a digit, nor a letter, nor an operator.
pub proof fn lemma_error_iff_unrecognized(s: Seq<u8>, p: int)
    requires
        0 <= p <= s.len(),
    ensures
        lex_step_result(s, p) is Err <==> ({
            let c = char_at(s, ws_end(s, p));
            !is_digit(c) && !is_alpha(c) && !is_operator(c)
        }),
        lex_step_result(s, p) is Err ==> lex_step_result(s, p) == Err::<
            Option<SpecToken>,
            LexerError,
        >(LexerError {  }),
{
}

/// Scanning is deterministic: the token stream is a function of the input
/// bytes alone, so two scans of equal inputs agree.
pub proof fn lemma_tokenize_deterministic(s1: Seq<u8>, s2: Seq<u8>)
    requires
        s1 == s2,
    ensures
        lex_all(s1) == lex_all(s2),
{
}

/// Empty input, and whitespace-only input short enough that the near-end
/// check ends the driving loop at once, yield the empty token stream without
/// error. (Two or more trailing whitespace bytes instead make the loop take a
/// step that runs past them onto the NUL sentinel, which is an error.)
pub proof fn lemma_whitespace_only_empty(s: Seq<u8>)
    requires
        s.len() <= 1,
        forall|i: int| 0 <= i < s.len() ==> is_space(#[trigger] char_at(s, i)),
    ensures
        lex_all(s) == Ok::<Seq<SpecToken>, LexerError>(Seq::empty()),
{
}

} // verus!
