//! The character cursor: the single source of truth for "what character comes
//! next" and "how far have we read", so that every parsing rule can report
//! accurate positions without keeping counters of its own.

use vstd::prelude::*;

use crate::error::ParseError;
use crate::error::is_unexpected_character;

verus! {

/// The JSON whitespace characters: space, line feed, carriage return, tab.
pub open spec fn is_ws_char(c: char) -> bool {
    c == ' ' || c == '\n' || c == '\r' || c == '\t'
}

/// Whether `c` is JSON whitespace.
pub fn is_json_whitespace(c: char) -> (r: bool)
    ensures
        r == is_ws_char(c),
{
    c == ' ' || c == '\n' || c == '\r' || c == '\t'
}

/// The index of the first non-whitespace character of `s` at or after `pos`,
/// if one exists.
pub open spec fn first_non_ws(s: Seq<char>, pos: int) -> Option<int>
    decreases s.len() - pos,
{
    if pos < 0 || pos >= s.len() {
        None
    } else if !is_ws_char(s[pos]) {
        Some(pos)
    } else {
        first_non_ws(s, pos + 1)
    }
}

/// Where the first non-whitespace character lies: at or after `pos`, before
/// the end, itself not whitespace, with only whitespace before it. When none
/// exists, everything from `pos` on is whitespace.
pub proof fn lemma_first_non_ws(s: Seq<char>, pos: int)
    requires
        0 <= pos,
    ensures
        match first_non_ws(s, pos) {
            Some(j) => pos <= j < s.len() && !is_ws_char(s[j]) && (forall|t: int|
                pos <= t < j ==> is_ws_char(s[t])),
            None => forall|t: int| pos <= t < s.len() ==> is_ws_char(s[t]),
        },
    decreases s.len() - pos,
{
    if pos < s.len() && is_ws_char(s[pos]) {
        lemma_first_non_ws(s, pos + 1);
    }
}

/// A cursor over the input: the characters, the index of the next unconsumed
/// character, and the 0-based index of the most recently consumed character
/// (`None` before anything was consumed).
pub struct WhitespaceSkippingIndexTrackingIter {
    pub chars: Vec<char>,
    pub next_pos: usize,
    pub previously_outputted_index: Option<usize>,
}

impl WhitespaceSkippingIndexTrackingIter {
    /// The whole input.
    pub open spec fn src(&self) -> Seq<char> {
        self.chars@
    }

    /// The index of the next unconsumed character.
    pub open spec fn at(&self) -> int {
        self.next_pos as int
    }

    /// The tracked index always equals the count of consumed characters
    /// minus one, and nothing past the end has been consumed.
    pub open spec fn wf(&self) -> bool {
        &&& self.next_pos <= self.chars@.len()
        &&& (self.next_pos == 0 ==> self.previously_outputted_index is None)
        &&& (self.next_pos > 0 ==> self.previously_outputted_index == Some((self.next_pos
            - 1) as usize))
    }

    pub fn new(chars: Vec<char>) -> (r: Self)
        ensures
            r.wf(),
            r.src() == chars@,
            r.at() == 0,
    {
        Self { chars, next_pos: 0, previously_outputted_index: None }
    }

    /// Steps the tracked index: `None` becomes `Some(0)`, `Some(i)` becomes
    /// `Some(i + 1)`.
    pub fn inc_index(&mut self)
        requires
            old(self).previously_outputted_index matches Some(i) ==> i < usize::MAX,
        ensures
            final(self).chars == old(self).chars,
            final(self).next_pos == old(self).next_pos,
            final(self).previously_outputted_index == match old(self).previously_outputted_index {
                None => Some(0usize),
                Some(i) => Some((i + 1) as usize),
            },
    {
        match &mut (self.previously_outputted_index) {
            None => self.previously_outputted_index = Some(0),
            Some(i) => *i += 1,
        }
    }

    /// Consumes and returns the next character, whatever it is; `None` at the
    /// end of the input.
    pub fn next_any(&mut self) -> (r: Option<char>)
        requires
            old(self).wf(),
        ensures
            final(self).wf(),
            final(self).src() == old(self).src(),
            match r {
                Some(c) => old(self).at() < old(self).src().len()
                    && c == old(self).src()[old(self).at()]
                    && final(self).at() == old(self).at() + 1,
                None => old(self).at() == old(self).src().len()
                    && final(self).at() == old(self).at(),
            },
    {
        if self.next_pos < self.chars.len() {
            let c = self.chars[self.next_pos];
            self.next_pos += 1;
            self.inc_index();
            Some(c)
        } else {
            None
        }
    }

    /// Consumes characters until one that is not JSON whitespace comes out;
    /// `None` when the rest of the input is whitespace (it is all consumed).
    pub fn next_non_whitespace(&mut self) -> (r: Option<char>)
        requires
            old(self).wf(),
        ensures
            final(self).wf(),
            final(self).src() == old(self).src(),
            old(self).at() <= final(self).at(),
            match first_non_ws(old(self).src(), old(self).at()) {
                Some(j) => r == Some(old(self).src()[j]) && final(self).at() == j + 1,
                None => r is None && final(self).at() == old(self).src().len(),
            },
    {
        loop
            invariant
                self.wf(),
                self.src() == old(self).src(),
                old(self).at() <= self.at(),
                first_non_ws(self.src(), self.at()) == first_non_ws(
                    old(self).src(),
                    old(self).at(),
                ),
            decreases self.src().len() - self.at(),
        {
            match self.next_any() {
                None => {
                    return None;
                },
                Some(c) => {
                    if !is_json_whitespace(c) {
                        return Some(c);
                    }
                },
            }
        }
    }

    /// Skips whitespace, consuming it, and consumes the first significant
    /// character only if it equals `expected`; otherwise that character is
    /// left unconsumed and `None` comes back. Whitespace is consumed even on
    /// a non-match.
    pub fn next_non_whitespace_if_eq(&mut self, expected: char) -> (r: Option<char>)
        requires
            old(self).wf(),
        ensures
            final(self).wf(),
            final(self).src() == old(self).src(),
            old(self).at() <= final(self).at(),
            match first_non_ws(old(self).src(), old(self).at()) {
                Some(j) => if old(self).src()[j] == expected {
                    r == Some(expected) && final(self).at() == j + 1
                } else {
                    r is None && final(self).at() == j
                },
                None => r is None && final(self).at() == old(self).src().len(),
            },
    {
        loop
            invariant
                self.wf(),
                self.src() == old(self).src(),
                old(self).at() <= self.at(),
                first_non_ws(self.src(), self.at()) == first_non_ws(
                    old(self).src(),
                    old(self).at(),
                ),
            decreases self.src().len() - self.at(),
        {
            if self.next_pos >= self.chars.len() {
                return None;
            }
            let c = self.chars[self.next_pos];
            if is_json_whitespace(c) {
                self.next_pos += 1;
                self.inc_index();
            } else if c == expected {
                self.next_pos += 1;
                self.inc_index();
                return Some(c);
            } else {
                return None;
            }
        }
    }

    /// The next character, left unconsumed; `None` at the end of the input.
    pub fn peek(&self) -> (r: Option<char>)
        requires
            self.wf(),
        ensures
            match r {
                Some(c) => self.at() < self.src().len() && c == self.src()[self.at()],
                None => self.at() == self.src().len(),
            },
    {
        if self.next_pos < self.chars.len() {
            Some(self.chars[self.next_pos])
        } else {
            None
        }
    }

    /// Consumes whitespace and returns the first significant character
    /// without consuming it; `None` when only whitespace remains (it is all
    /// consumed).
    pub fn peek_non_whitespace(&mut self) -> (r: Option<char>)
        requires
            old(self).wf(),
        ensures
            final(self).wf(),
            final(self).src() == old(self).src(),
            old(self).at() <= final(self).at(),
            match first_non_ws(old(self).src(), old(self).at()) {
                Some(j) => r == Some(old(self).src()[j]) && final(self).at() == j,
                None => r is None && final(self).at() == old(self).src().len(),
            },
    {
        loop
            invariant
                self.wf(),
                self.src() == old(self).src(),
                old(self).at() <= self.at(),
                first_non_ws(self.src(), self.at()) == first_non_ws(
                    old(self).src(),
                    old(self).at(),
                ),
            decreases self.src().len() - self.at(),
        {
            if self.next_pos >= self.chars.len() {
                return None;
            }
            let c = self.chars[self.next_pos];
            if is_json_whitespace(c) {
                self.next_pos += 1;
                self.inc_index();
            } else {
                return Some(c);
            }
        }
    }

    /// Consumes the next character unconditionally and demands that it be
    /// `expected`; a different character is reported with its index, and a
    /// missing one as the end of the input.
    pub fn expect_specific_char(&mut self, expected: char) -> (r: Result<(), ParseError>)
        requires
            old(self).wf(),
        ensures
            final(self).wf(),
            final(self).src() == old(self).src(),
            if old(self).at() < old(self).src().len() {
                final(self).at() == old(self).at() + 1 && (if old(self).src()[old(self).at()]
                    == expected {
                    r is Ok
                } else {
                    r matches Err(e) && is_unexpected_character(
                        e,
                        old(self).src()[old(self).at()],
                        old(self).at(),
                        seq![expected],
                    )
                })
            } else {
                r == Err::<(), ParseError>(ParseError::UnexpectedEndOfString) && final(self).at()
                    == old(self).at()
            },
    {
        match self.next_any() {
            None => Err(ParseError::UnexpectedEndOfString),
            Some(c) => {
                if c == expected {
                    Ok(())
                } else {
                    let mut expected_characters: Vec<char> = Vec::new();
                    expected_characters.push(expected);
                    Err(
                        ParseError::UnexpectedCharacter {
                            character: c,
                            index: self.next_pos - 1,
                            expected_characters,
                        },
                    )
                }
            },
        }
    }

    /// Like `expect_specific_char`, but whitespace before the decisive
    /// character is skipped and consumed first.
    pub fn expect_specific_char_ignore_whitespace(&mut self, expected: char) -> (r: Result<
        (),
        ParseError,
    >)
        requires
            old(self).wf(),
        ensures
            final(self).wf(),
            final(self).src() == old(self).src(),
            old(self).at() <= final(self).at(),
            match first_non_ws(old(self).src(), old(self).at()) {
                Some(j) => final(self).at() == j + 1 && (if old(self).src()[j] == expected {
                    r is Ok
                } else {
                    r matches Err(e) && is_unexpected_character(
                        e,
                        old(self).src()[j],
                        j,
                        seq![expected],
                    )
                }),
                None => r == Err::<(), ParseError>(ParseError::UnexpectedEndOfString)
                    && final(self).at() == old(self).src().len(),
            },
    {
        proof {
            lemma_first_non_ws(old(self).src(), old(self).at());
        }
        match self.next_non_whitespace() {
            None => Err(ParseError::UnexpectedEndOfString),
            Some(c) => {
                if c == expected {
                    Ok(())
                } else {
                    let mut expected_characters: Vec<char> = Vec::new();
                    expected_characters.push(expected);
                    Err(
                        ParseError::UnexpectedCharacter {
                            character: c,
                            index: self.next_pos - 1,
                            expected_characters,
                        },
                    )
                }
            },
        }
    }
}

/// Skipping from a position inside a whitespace run lands where skipping
/// from its end lands.
pub proof fn lemma_first_non_ws_ws_run(s: Seq<char>, a: int, b: int)
    requires
        0 <= a <= b <= s.len(),
        forall|t: int| a <= t < b ==> is_ws_char(s[t]),
    ensures
        first_non_ws(s, a) == first_non_ws(s, b),
    decreases b - a,
{
    if a < b {
        lemma_first_non_ws_ws_run(s, a + 1, b);
    }
}

/// Positions shift with a prefix: looking for the first significant
/// character of `w + s` from `w.len() + k` is looking in `s` from `k`.
pub proof fn lemma_first_non_ws_shift(w: Seq<char>, s: Seq<char>, k: int)
    requires
        0 <= k,
    ensures
        match first_non_ws(s, k) {
            Some(j) => first_non_ws(w + s, w.len() + k) == Some(w.len() + j),
            None => first_non_ws(w + s, w.len() + k) is None,
        },
    decreases s.len() - k,
{
    assert((w + s).len() == w.len() + s.len());
    if k < s.len() {
        assert((w + s)[w.len() + k] == s[k]);
        if is_ws_char(s[k]) {
            lemma_first_non_ws_shift(w, s, k + 1);
        }
    }
}

/// Whitespace insensitivity at the cursor: putting a run of JSON whitespace
/// in front of the input moves the first significant character by the run's
/// length and never changes which character it is. Every structural token is
/// consumed through the whitespace-skipping operations, whose contracts are
/// stated over `first_non_ws`, so whitespace inserted before such a token
/// never changes what a parsing rule sees.
pub proof fn lemma_ws_prefix_insensitive(w: Seq<char>, s: Seq<char>)
    requires
        forall|t: int| 0 <= t < w.len() ==> is_ws_char(w[t]),
    ensures
        match first_non_ws(s, 0) {
            Some(j) => first_non_ws(w + s, 0) == Some(w.len() + j) && (w + s)[w.len() + j] == s[j],
            None => first_non_ws(w + s, 0) is None,
        },
{
    let ws = w + s;
    assert(forall|t: int| 0 <= t < w.len() ==> is_ws_char(ws[t]));
    lemma_first_non_ws_ws_run(ws, 0, w.len() as int);
    lemma_first_non_ws_shift(w, s, 0);
    if let Some(j) = first_non_ws(s, 0) {
        lemma_first_non_ws(s, 0);
        assert(ws[w.len() + j] == s[j]);
    }
}

} // verus!
