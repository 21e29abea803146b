//! Byte classification for the lexer, with the run-end spec functions that the
//! cursor contracts are stated over.

use vstd::prelude::*;

verus! {

/// ASCII decimal digit.
pub open spec fn is_digit(c: u8) -> bool {
    48 <= c && c <= 57
}

/// ASCII letter.
pub open spec fn is_alpha(c: u8) -> bool {
    (65 <= c && c <= 90) || (97 <= c && c <= 122)
}

/// One of the four arithmetic operator bytes.
pub open spec fn is_operator(c: u8) -> bool {
    c == 43 || c == 45 || c == 42 || c == 47
}

/// ASCII whitespace: space, tab, line feed, form feed, carriage return.
pub open spec fn is_space(c: u8) -> bool {
    c == 32 || c == 9 || c == 10 || c == 12 || c == 13
}

/// Byte at position `i`, with a NUL sentinel outside the buffer.
pub open spec fn char_at(s: Seq<u8>, i: int) -> u8 {
    if 0 <= i && i < s.len() {
        s[i]
    } else {
        0
    }
}

/// Where the whitespace run starting at `i` ends: the first position at or
/// after `i` whose byte (NUL sentinel included) is not whitespace. Total over
/// any position: outside the buffer the sentinel ends the run at once.
pub open spec fn ws_end(s: Seq<u8>, i: int) -> int
    decreases s.len() - i,
{
    if is_space(char_at(s, i)) {
        ws_end(s, i + 1)
    } else {
        i
    }
}

/// Where the digit run starting at `i` ends.
pub open spec fn digit_end(s: Seq<u8>, i: int) -> int
    decreases s.len() - i,
{
    if is_digit(char_at(s, i)) {
        digit_end(s, i + 1)
    } else {
        i
    }
}

/// Where the alphabetic run starting at `i` ends.
pub open spec fn alpha_end(s: Seq<u8>, i: int) -> int
    decreases s.len() - i,
{
    if is_alpha(char_at(s, i)) {
        alpha_end(s, i + 1)
    } else {
        i
    }
}

/// The whitespace run ends inside the buffer, covers only whitespace, and
/// stops at the first byte that is not whitespace.
pub proof fn lemma_ws_end(s: Seq<u8>, i: int)
    requires
        0 <= i <= s.len(),
    ensures
        i <= ws_end(s, i) <= s.len(),
        forall|k: int| i <= k < ws_end(s, i) ==> is_space(#[trigger] char_at(s, k)),
        !is_space(char_at(s, ws_end(s, i))),
    decreases s.len() - i,
{
    if is_space(char_at(s, i)) {
        lemma_ws_end(s, i + 1);
    }
}

/// A stretch of whitespace that ends at a non-whitespace byte is exactly the
/// whitespace run.
pub proof fn lemma_ws_end_unique(s: Seq<u8>, i: int, j: int)
    requires
        i <= j,
        forall|k: int| i <= k < j ==> is_space(#[trigger] char_at(s, k)),
        !is_space(char_at(s, j)),
    ensures
        ws_end(s, i) == j,
    decreases j - i,
{
    if i < j {
        assert(is_space(char_at(s, i)));
        lemma_ws_end_unique(s, i + 1, j);
    }
}

/// The digit run ends inside the buffer, covers only digits, and stops at the
/// first byte that is not a digit.
pub proof fn lemma_digit_end(s: Seq<u8>, i: int)
    requires
        0 <= i <= s.len(),
    ensures
        i <= digit_end(s, i) <= s.len(),
        forall|k: int| i <= k < digit_end(s, i) ==> is_digit(#[trigger] char_at(s, k)),
        !is_digit(char_at(s, digit_end(s, i))),
    decreases s.len() - i,
{
    if is_digit(char_at(s, i)) {
        lemma_digit_end(s, i + 1);
    }
}

/// A stretch of digits that ends at a non-digit byte is exactly the digit run.
pub proof fn lemma_digit_end_unique(s: Seq<u8>, i: int, j: int)
    requires
        i <= j,
        forall|k: int| i <= k < j ==> is_digit(#[trigger] char_at(s, k)),
        !is_digit(char_at(s, j)),
    ensures
        digit_end(s, i) == j,
    decreases j - i,
{
    if i < j {
        assert(is_digit(char_at(s, i)));
        lemma_digit_end_unique(s, i + 1, j);
    }
}

/// The alphabetic run ends inside the buffer, covers only letters, and stops
/// at the first byte that is not a letter.
pub proof fn lemma_alpha_end(s: Seq<u8>, i: int)
    requires
        0 <= i <= s.len(),
    ensures
        i <= alpha_end(s, i) <= s.len(),
        forall|k: int| i <= k < alpha_end(s, i) ==> is_alpha(#[trigger] char_at(s, k)),
        !is_alpha(char_at(s, alpha_end(s, i))),
    decreases s.len() - i,
{
    if is_alpha(char_at(s, i)) {
        lemma_alpha_end(s, i + 1);
    }
}

/// A stretch of letters that ends at a non-letter byte is exactly the
/// alphabetic run.
pub proof fn lemma_alpha_end_unique(s: Seq<u8>, i: int, j: int)
    requires
        i <= j,
        forall|k: int| i <= k < j ==> is_alpha(#[trigger] char_at(s, k)),
        !is_alpha(char_at(s, j)),
    ensures
        alpha_end(s, i) == j,
    decreases j - i,
{
    if i < j {
        assert(is_alpha(char_at(s, i)));
        lemma_alpha_end_unique(s, i + 1, j);
    }
}

/// Executable check for `is_digit`.
pub fn is_digit_byte(c: u8) -> (r: bool)
    ensures
        r == is_digit(c),
{
    48 <= c && c <= 57
}

/// Executable check for `is_alpha`.
pub fn is_alpha_byte(c: u8) -> (r: bool)
    ensures
        r == is_alpha(c),
{
    (65 <= c && c <= 90) || (97 <= c && c <= 122)
}

/// Executable check for `is_operator`.
pub fn is_operator_byte(c: u8) -> (r: bool)
    ensures
        r == is_operator(c),
{
    c == 43 || c == 45 || c == 42 || c == 47
}

/// Executable check for `is_space`.
pub fn is_space_byte(c: u8) -> (r: bool)
    ensures
        r == is_space(c),
{
    c == 32 || c == 9 || c == 10 || c == 12 || c == 13
}

} // verus!
