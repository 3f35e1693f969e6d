//! The positional scanner shared by the HTML and the CSS parser.
//!
//! A [`Cursor`] owns an immutable input buffer and a current character
//! offset.  All higher-level "skip whitespace" / "read identifier" /
//! "read digits" operations are built from its consume/peek primitives.
//! Offsets count characters of the input (the view of a `String` is a
//! `Seq<char>`), so multi-byte characters advance the offset by exactly one.

use vstd::prelude::*;

use crate::ParseError;

verus! {

/// Whether a character has the Unicode `White_Space` property, exactly as
/// `char::is_whitespace` reports it.
pub uninterp spec fn is_whitespace_char(c: char) -> bool;

/// Relies on `char::is_whitespace`: the result depends on the character
/// alone, and is given a name here rather than spelling out the Unicode
/// white-space table.
pub assume_specification[ char::is_whitespace ](c: char) -> (r: bool)
    ensures
        r == is_whitespace_char(c),
;

/// An ASCII letter or digit: the characters of a tag or attribute name.
pub open spec fn is_tag_name_char(c: char) -> bool {
    ('a' as u32 <= c as u32 && c as u32 <= 'z' as u32)
    || ('A' as u32 <= c as u32 && c as u32 <= 'Z' as u32)
    || ('0' as u32 <= c as u32 && c as u32 <= '9' as u32)
}

/// An ASCII letter, digit, `-` or `_`: the characters of a CSS identifier.
pub open spec fn is_identifier_char(c: char) -> bool {
    is_tag_name_char(c) || c == '-' || c == '_'
}

/// A decimal digit or `.`: the characters of a numeric literal.
pub open spec fn is_number_char(c: char) -> bool {
    ('0' as u32 <= c as u32 && c as u32 <= '9' as u32) || c == '.'
}

/// The classes of characters that [`Cursor::consume_while`] can match.
#[derive(Debug, Clone, Copy, PartialEq, Eq, Structural)]
pub enum CharClass {
    /// Unicode whitespace.
    Whitespace,
    /// ASCII letters and digits.
    TagName,
    /// ASCII letters, digits, `-` and `_`.
    Identifier,
    /// Decimal digits and `.`.
    Number,
    /// Any character other than the given one.
    NotChar(char),
}

/// Whether `c` belongs to the class `cl`.
pub open spec fn class_matches(cl: CharClass, c: char) -> bool {
    match cl {
        CharClass::Whitespace => is_whitespace_char(c),
        CharClass::TagName => is_tag_name_char(c),
        CharClass::Identifier => is_identifier_char(c),
        CharClass::Number => is_number_char(c),
        CharClass::NotChar(q) => c != q,
    }
}

/// Executable test for [`class_matches`].
pub fn char_matches(cl: CharClass, c: char) -> (r: bool)
    ensures
        r == class_matches(cl, c),
{
    match cl {
        CharClass::Whitespace => c.is_whitespace(),
        CharClass::TagName => {
            let u = c as u32;
            ('a' as u32 <= u && u <= 'z' as u32)
            || ('A' as u32 <= u && u <= 'Z' as u32)
            || ('0' as u32 <= u && u <= '9' as u32)
        },
        CharClass::Identifier => {
            let u = c as u32;
            ('a' as u32 <= u && u <= 'z' as u32)
            || ('A' as u32 <= u && u <= 'Z' as u32)
            || ('0' as u32 <= u && u <= '9' as u32)
            || c == '-' || c == '_'
        },
        CharClass::Number => {
            let u = c as u32;
            ('0' as u32 <= u && u <= '9' as u32) || c == '.'
        },
        CharClass::NotChar(q) => c != q,
    }
}

/// The length of the maximal run of characters of class `cl` in `s`
/// starting at `pos`.
pub open spec fn run_len(s: Seq<char>, pos: int, cl: CharClass) -> nat
    decreases s.len() - pos,
{
    if pos < 0 || pos >= s.len() || !class_matches(cl, s[pos]) {
        0
    } else {
        (1 + run_len(s, pos + 1, cl)) as nat
    }
}

/// A run starting inside the input ends no later than the input does.
pub proof fn lemma_run_len_bound(s: Seq<char>, pos: int, cl: CharClass)
    requires
        0 <= pos <= s.len(),
    ensures
        pos + run_len(s, pos, cl) <= s.len(),
    decreases s.len() - pos,
{
    if pos < s.len() && class_matches(cl, s[pos]) {
        lemma_run_len_bound(s, pos + 1, cl);
    }
}

/// Whether the text of `s` starting at `pos` begins with `pat`.
pub open spec fn spec_starts_with(s: Seq<char>, pos: int, pat: Seq<char>) -> bool {
    pos + pat.len() <= s.len() && s.subrange(pos, pos + pat.len()) == pat
}

/// What a successful single-character expectation yields: the position just
/// past the required character, or the error that the input earns instead.
pub open spec fn spec_expect(s: Seq<char>, pos: int, c: char) -> Result<int, ParseError> {
    if pos >= s.len() {
        Err(ParseError::UnexpectedEndOfInput)
    } else if s[pos] != c {
        Err(ParseError::UnexpectedCharacter)
    } else {
        Ok(pos + 1)
    }
}

/// A positional scanner over an immutable input buffer.
pub struct Cursor {
    /// The input text, read-only for the parse lifetime.
    pub input: String,
    /// The number of characters of `input`, computed once at construction.
    pub length: usize,
    /// The current character offset; `length` means end-of-input.
    pub position: usize,
}

impl Cursor {
    /// The cursor's invariant: the cached length is the character count of
    /// the input and the offset never passes the end of the input.
    pub open spec fn wf(self) -> bool {
        self.length == self.input@.len() && self.position <= self.length
    }

    /// Make a cursor standing at the start of `input`.
    pub fn new(input: String) -> (c: Cursor)
        ensures
            c.wf(),
            c.input@ == input@,
            c.position == 0,
    {
        let length = input.as_str().unicode_len();
        Cursor { input, length, position: 0 }
    }

    /// True iff all input is consumed.
    pub fn eof(&self) -> (r: bool)
        requires
            self.wf(),
        ensures
            r == (self.position >= self.input@.len()),
    {
        self.position >= self.length
    }

    /// Read the current character without consuming it.
    pub fn next_char(&self) -> (c: char)
        requires
            self.wf(),
            self.position < self.input@.len(),
        ensures
            c == self.input@[self.position as int],
    {
        self.input.as_str().get_char(self.position)
    }

    /// Do the unconsumed characters start with the given string?
    #[verifier::loop_isolation(false)]
    pub fn starts_with(&self, pat: &str) -> (r: bool)
        requires
            self.wf(),
        ensures
            r == spec_starts_with(self.input@, self.position as int, pat@),
    {
        let n = pat.unicode_len();
        if n > self.length || self.position > self.length - n {
            proof {
                assert(self.position + pat@.len() > self.input@.len());
            }
            return false;
        }
        let mut i: usize = 0;
        while i < n
            invariant
                i <= n,
                forall|j: int| 0 <= j < i ==> self.input@[self.position + j] == pat@[j],
            decreases n - i,
        {
            if self.input.as_str().get_char(self.position + i) != pat.get_char(i) {
                proof {
                    assert(self.input@.subrange(
                        self.position as int,
                        self.position + pat@.len(),
                    )[i as int] != pat@[i as int]);
                }
                return false;
            }
            i = i + 1;
        }
        proof {
            assert(self.input@.subrange(self.position as int, self.position + pat@.len())
                =~= pat@);
        }
        true
    }

    /// Return the current character and advance past it.
    pub fn consume_char(&mut self) -> (c: char)
        requires
            old(self).wf(),
            old(self).position < old(self).input@.len(),
        ensures
            final(self).wf(),
            final(self).input == old(self).input,
            final(self).position == old(self).position + 1,
            c == final(self).input@[old(self).position as int],
    {
        let c = self.input.as_str().get_char(self.position);
        self.position = self.position + 1;
        c
    }

    /// Consume characters while they match `cl`; return the consumed run.
    #[verifier::loop_isolation(false)]
    pub fn consume_while(&mut self, cl: CharClass) -> (r: String)
        requires
            old(self).wf(),
        ensures
            final(self).wf(),
            final(self).input == old(self).input,
            final(self).position == old(self).position + run_len(
                final(self).input@,
                old(self).position as int,
                cl,
            ),
            r@ == final(self).input@.subrange(
                old(self).position as int,
                final(self).position as int,
            ),
    {
        let start = self.position;
        while !self.eof() && char_matches(cl, self.next_char())
            invariant
                self.wf(),
                self.input == old(self).input,
                start <= self.position,
                run_len(self.input@, start as int, cl) == self.position - start + run_len(
                    self.input@,
                    self.position as int,
                    cl,
                ),
            decreases self.input@.len() - self.position,
        {
            self.position = self.position + 1;
        }
        let sub = self.input.as_str().substring_char(start, self.position);
        sub.to_owned()
    }

    /// Consume and discard zero or more whitespace characters.
    pub fn consume_whitespace(&mut self)
        requires
            old(self).wf(),
        ensures
            final(self).wf(),
            final(self).input == old(self).input,
            final(self).position == old(self).position + run_len(
                final(self).input@,
                old(self).position as int,
                CharClass::Whitespace,
            ),
    {
        let _ = self.consume_while(CharClass::Whitespace);
    }

    /// Consume one character that must be `c`; any other input is an error.
    pub fn expect(&mut self, c: char) -> (r: Result<(), ParseError>)
        requires
            old(self).wf(),
        ensures
            final(self).wf(),
            final(self).input == old(self).input,
            match r {
                Ok(()) => spec_expect(final(self).input@, old(self).position as int, c)
                    == Ok::<int, ParseError>(final(self).position as int),
                Err(e) => spec_expect(final(self).input@, old(self).position as int, c)
                    == Err::<int, ParseError>(e)
                    && final(self).position == old(self).position,
            },
    {
        if self.eof() {
            Err(ParseError::UnexpectedEndOfInput)
        } else if self.next_char() != c {
            Err(ParseError::UnexpectedCharacter)
        } else {
            let _ = self.consume_char();
            Ok(())
        }
    }
}

} // verus!
