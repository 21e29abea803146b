//! The character source and the tokenizer.
//!
//! The character source is a cursor over a fixed byte buffer with one byte of
//! lookahead; reads past the end yield a NUL sentinel. The tokenizer pulls
//! bytes from the source and classifies maximal runs into tokens, one token
//! per call.

use vstd::prelude::*;
use vstd::string::StringSliceAdditionalSpecFns;
use crate::chars::alpha_end;
use crate::chars::char_at;
use crate::chars::digit_end;
use crate::chars::is_alpha;
use crate::chars::is_alpha_byte;
use crate::chars::is_digit;
use crate::chars::is_digit_byte;
use crate::chars::is_operator;
use crate::chars::is_operator_byte;
use crate::chars::is_space;
use crate::chars::is_space_byte;
use crate::chars::lemma_alpha_end_unique;
use crate::chars::lemma_digit_end_unique;
use crate::chars::lemma_ws_end;
use crate::chars::lemma_ws_end_unique;
use crate::chars::ws_end;
use crate::token::LexerError;
use crate::token::SpecToken;
use crate::token::Token;

verus! {

/// A character source: a monotone cursor over a byte buffer, abstracted by the
/// buffer contents `bytes()` and the cursor position `pos()`. Reads outside
/// the buffer yield the NUL sentinel, never a failure.
pub trait LexerString: Sized {
    /// The bytes the source ranges over. They never change.
    spec fn bytes(&self) -> Seq<u8>;

    /// The position of the current byte; `pos() + 1` is the lookahead.
    spec fn pos(&self) -> int;

    /// The source's internal invariant. It does not bound the cursor by the
    /// buffer: every operation is total over any cursor position, and reads
    /// past the end yield the sentinel.
    spec fn wf(&self) -> bool;

    /// The cursor is never negative, and the buffer fits the machine.
    proof fn lemma_wf_bounds(&self)
        requires
            self.wf(),
        ensures
            0 <= self.pos(),
            self.bytes().len() <= usize::MAX,
    ;

    /// The byte under the cursor, or NUL past the end.
    fn get_current_char(&self) -> (c: u8)
        requires
            self.wf(),
        ensures
            c == char_at(self.bytes(), self.pos()),
    ;

    /// The lookahead byte, or NUL past the end.
    fn get_next_char(&self) -> (c: u8)
        requires
            self.wf(),
        ensures
            c == char_at(self.bytes(), self.pos() + 1),
    ;

    /// Moves the cursor (and its lookahead) forward by one byte. It is
    /// callable at any position, the end of the buffer and beyond included:
    /// advancing past the end just leaves NUL reads thereafter. Only the
    /// machine bounds it, since the new position must still fit a word.
    fn shift_chars(&mut self)
        requires
            old(self).wf(),
            old(self).pos() < usize::MAX,
        ensures
            final(self).wf(),
            final(self).bytes() == old(self).bytes(),
            final(self).pos() == old(self).pos() + 1,
    ;

    /// Consumes the maximal run of bytes satisfying `char_type` and returns
    /// it; the cursor ends on the first byte (NUL sentinel included) that the
    /// predicate rejects. The predicate must be callable on every byte and
    /// must reject NUL, so that the run ends at the end of the buffer.
    fn consume_char_type<F: Fn(u8) -> bool>(&mut self, char_type: F) -> (content: Vec<u8>)
        requires
            old(self).wf(),
            forall|c: u8| #[trigger] call_requires(char_type, (c,)),
            forall|r: bool| call_ensures(char_type, (0u8,), r) ==> !r,
        ensures
            final(self).wf(),
            final(self).bytes() == old(self).bytes(),
            old(self).pos() <= final(self).pos(),
            old(self).pos() <= old(self).bytes().len() ==> final(self).pos() <= old(
                self,
            ).bytes().len(),
            content@.len() == final(self).pos() - old(self).pos(),
            forall|k: int|
                old(self).pos() <= k < final(self).pos() ==> content@[k - old(self).pos()]
                    == #[trigger] char_at(old(self).bytes(), k),
            forall|k: int|
                old(self).pos() <= k < final(self).pos() ==> call_ensures(
                    char_type,
                    (#[trigger] char_at(old(self).bytes(), k),),
                    true,
                ),
            call_ensures(char_type, (char_at(final(self).bytes(), final(self).pos()),), false),
    ;

    /// Moves the cursor past the whitespace run under it; reports whether it
    /// moved at all.
    fn skip_whitespace(&mut self) -> (skipped: bool)
        requires
            old(self).wf(),
        ensures
            final(self).wf(),
            final(self).bytes() == old(self).bytes(),
            final(self).pos() == ws_end(old(self).bytes(), old(self).pos()),
            skipped == (final(self).pos() != old(self).pos()),
    ;

    /// The near-end check: true when fewer than two bytes remain unread, that
    /// is when the lookahead already sits at or past the end of the buffer.
    fn eof(&self) -> (r: bool)
        requires
            self.wf(),
        ensures
            r == (self.pos() + 1 >= self.bytes().len()),
    ;
}

/// The in-memory character source: a byte buffer and the two cursors.
pub struct VecLexerString {
    string: Vec<u8>,
    current_char: usize,
    next_char: usize,
}

impl LexerString for VecLexerString {
    closed spec fn bytes(&self) -> Seq<u8> {
        self.string@
    }

    closed spec fn pos(&self) -> int {
        self.current_char as int
    }

    // The lookahead always sits one byte after the cursor; it saturates at the
    // top of `usize`, where the cursor itself can advance no further.
    closed spec fn wf(&self) -> bool {
        self.next_char == self.current_char + 1 || (self.current_char == usize::MAX
            && self.next_char == usize::MAX)
    }

    proof fn lemma_wf_bounds(&self) {
        // The buffer's ghost length is the `usize` that `Vec::len` returns.
        assert(self.string@.len() == vstd::std_specs::vec::spec_vec_len(&self.string));
    }

    fn get_current_char(&self) -> (c: u8) {
        if self.current_char >= self.string.len() {
            return 0;
        }
        self.string[self.current_char]
    }

    fn get_next_char(&self) -> (c: u8) {
        if self.next_char >= self.string.len() {
            return 0;
        }
        self.string[self.next_char]
    }

    fn shift_chars(&mut self) {
        self.current_char = self.current_char + 1;
        if self.next_char < usize::MAX {
            self.next_char = self.next_char + 1;
        }
    }

    fn consume_char_type<F: Fn(u8) -> bool>(&mut self, char_type: F) -> (content: Vec<u8>) {
        let ghost s0 = *self;
        let mut content: Vec<u8> = Vec::new();
        while char_type(self.get_current_char())
            invariant
                self.wf(),
                self.bytes() == s0.bytes(),
                s0.pos() <= self.pos(),
                s0.pos() <= s0.bytes().len() ==> self.pos() <= s0.bytes().len(),
                content@.len() == self.pos() - s0.pos(),
                forall|k: int|
                    s0.pos() <= k < self.pos() ==> content@[k - s0.pos()] == #[trigger] char_at(
                        s0.bytes(),
                        k,
                    ),
                forall|k: int|
                    s0.pos() <= k < self.pos() ==> call_ensures(
                        char_type,
                        (#[trigger] char_at(s0.bytes(), k),),
                        true,
                    ),
                forall|c: u8| #[trigger] call_requires(char_type, (c,)),
                forall|r: bool| call_ensures(char_type, (0u8,), r) ==> !r,
            decreases self.bytes().len() - self.pos(),
        {
            let c = self.get_current_char();
            assert(c != 0);
            proof {
                // A non-sentinel byte puts the cursor inside the buffer, whose
                // length is a machine word: the shift below stays in bounds.
                assert(self.string@.len() == vstd::std_specs::vec::spec_vec_len(&self.string));
            }
            content.push(c);
            self.shift_chars();
        }
        content
    }

    fn skip_whitespace(&mut self) -> (skipped: bool) {
        let ghost s0 = *self;
        let mut skipped = false;
        while is_space_byte(self.get_current_char())
            invariant
                self.wf(),
                self.bytes() == s0.bytes(),
                s0.pos() <= self.pos(),
                forall|k: int| s0.pos() <= k < self.pos() ==> is_space(#[trigger] char_at(s0.bytes(), k)),
                skipped == (self.pos() != s0.pos()),
            decreases self.bytes().len() - self.pos(),
        {
            skipped = true;
            proof {
                // A whitespace byte puts the cursor inside the buffer, whose
                // length is a machine word: the shift below stays in bounds.
                assert(self.string@.len() == vstd::std_specs::vec::spec_vec_len(&self.string));
            }
            self.shift_chars();
        }
        proof {
            lemma_ws_end_unique(s0.bytes(), s0.pos(), self.pos());
        }
        skipped
    }

    fn eof(&self) -> (r: bool) {
        if self.string.len() == 0 {
            return true;
        }
        self.current_char >= self.string.len() - 1
    }
}

/// What one call of `next_token` leaves the cursor at, as a function of the
/// buffer and the cursor position before the call: whitespace is skipped,
/// then a digit run, an alphabetic run, or a single operator byte is
/// consumed; an unrecognized byte leaves the cursor on itself.
pub open spec fn lex_step_pos(s: Seq<u8>, p: int) -> int {
    let j = ws_end(s, p);
    let c = char_at(s, j);
    if is_digit(c) {
        digit_end(s, j)
    } else if is_alpha(c) {
        alpha_end(s, j)
    } else if is_operator(c) {
        j + 1
    } else {
        j
    }
}

/// What one call of `next_token` returns, as a function of the buffer and the
/// cursor position before the call: a `Number` holding the maximal digit run,
/// no token for an alphabetic run, an `Operator` holding one operator byte,
/// and the error for any other byte (the NUL sentinel past the end included).
pub open spec fn lex_step_result(s: Seq<u8>, p: int) -> Result<Option<SpecToken>, LexerError> {
    let j = ws_end(s, p);
    let c = char_at(s, j);
    if is_digit(c) {
        Ok(Some(SpecToken::Number(s.subrange(j, digit_end(s, j)))))
    } else if is_alpha(c) {
        Ok(None)
    } else if is_operator(c) {
        Ok(Some(SpecToken::Operator(seq![c])))
    } else {
        Err(LexerError {  })
    }
}

/// The model of a `next_token` return value.
pub open spec fn token_result_model(r: Result<Option<Token>, LexerError>) -> Result<
    Option<SpecToken>,
    LexerError,
> {
    match r {
        Ok(Some(t)) => Ok(Some(t@)),
        Ok(None) => Ok(None),
        Err(e) => Err(e),
    }
}

/// The tokenizer: owns a character source and classifies the byte runs under
/// its cursor into tokens.
pub struct Lexer<T: LexerString> {
    string: T,
}

impl<T: LexerString> Lexer<T> {
    /// The bytes being tokenized.
    pub closed spec fn bytes(&self) -> Seq<u8> {
        self.string.bytes()
    }

    /// The cursor position of the underlying source.
    pub closed spec fn pos(&self) -> int {
        self.string.pos()
    }

    /// The tokenizer's invariant: its source's, and the cursor inside the
    /// buffer — the tokenizer starts at the beginning, and every step it
    /// takes ends at or before the end of the buffer.
    pub closed spec fn wf(&self) -> bool {
        &&& self.string.wf()
        &&& 0 <= self.string.pos() <= self.string.bytes().len()
    }

    /// The cursor never leaves the buffer: what the laws about the scan need
    /// to speak of any reachable tokenizer state.
    pub proof fn lemma_wf_bounds(&self)
        requires
            self.wf(),
        ensures
            0 <= self.pos() <= self.bytes().len(),
    {
    }

    /// Skips whitespace, then classifies the byte run under the cursor:
    /// `Ok(Some(Token::Number(run)))` for a digit run, `Ok(None)` for an
    /// alphabetic run (recognized but deliberately discarded),
    /// `Ok(Some(Token::Operator(byte)))` for one of `+ - * /`, and
    /// `Err(LexerError)` for any other byte, the NUL sentinel included.
    pub fn next_token(&mut self) -> (r: Result<Option<Token>, LexerError>)
        requires
            old(self).wf(),
        ensures
            final(self).wf(),
            final(self).bytes() == old(self).bytes(),
            final(self).pos() == lex_step_pos(old(self).bytes(), old(self).pos()),
            token_result_model(r) == lex_step_result(old(self).bytes(), old(self).pos()),
    {
        let ghost s = old(self).bytes();
        proof {
            lemma_ws_end(s, old(self).pos());
        }
        self.string.skip_whitespace();
        let ghost j = self.string.pos();
        let mut token: Option<Token> = None;
        if is_digit_byte(self.string.get_current_char()) {
            let mut content: Vec<u8> = Vec::new();
            let mut run = self.string.consume_char_type(is_digit_byte);
            content.append(&mut run);
            proof {
                let fp = self.string.pos();
                assert forall|k: int| j <= k < fp implies is_digit(#[trigger] char_at(s, k)) by {}
                lemma_digit_end_unique(s, j, fp);
                assert(content@ =~= s.subrange(j, fp)) by {
                    assert forall|i: int| 0 <= i < content@.len() implies content@[i] == s.subrange(
                        j,
                        fp,
                    )[i] by {
                        assert(content@[i] == char_at(s, j + i));
                    }
                }
            }
            token = Some(Token::Number(content));
        } else if is_alpha_byte(self.string.get_current_char()) {
            // An alphabetic run is recognized and consumed, but its content is
            // discarded: no token is produced for it.
            let _run = self.string.consume_char_type(is_alpha_byte);
            proof {
                lemma_alpha_end_unique(s, j, self.string.pos());
            }
        } else if is_operator_byte(self.string.get_current_char()) {
            let mut content: Vec<u8> = Vec::new();
            content.push(self.string.get_current_char());
            proof {
                assert(content@ =~= seq![char_at(s, j)]);
            }
            token = Some(Token::Operator(content));
            proof {
                self.string.lemma_wf_bounds();
            }
            self.string.shift_chars();
        } else {
            return Err(LexerError::new());
        }
        Ok(token)
    }

    /// The driving loop's termination check: delegates the near-end check to
    /// the character source.
    pub fn eof(&self) -> (r: bool)
        requires
            self.wf(),
        ensures
            r == (self.pos() + 1 >= self.bytes().len()),
    {
        self.string.eof()
    }
}

impl Lexer<VecLexerString> {
    /// Builds a tokenizer whose source holds the bytes of `input`, with the
    /// cursor at the start.
    pub fn new(input: &str) -> (lexer: Lexer<VecLexerString>)
        ensures
            lexer.wf(),
            lexer.bytes() == input.spec_bytes(),
            lexer.pos() == 0,
    {
        Lexer {
            string: VecLexerString {
                string: vstd::slice::slice_to_vec(input.as_bytes()),
                current_char: 0,
                next_char: 1,
            },
        }
    }
}

} // verus!
