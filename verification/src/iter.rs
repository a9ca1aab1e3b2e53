//! Transliteration of Unicode to ASCII, one character at a time.
//!
//! Only alphanumeric characters are transliterated. One character may become
//! several: `æ` becomes `ae`, and `½` becomes `1/2`. Nothing here allocates.

use crate::classify::{
    alphanumeric, ascii, ascii_alphanumeric, ascii_lowercase, is_alphanumeric, is_ascii,
    is_ascii_alphanumeric, to_ascii_lowercase,
};
use std::str::Chars;
use vstd::prelude::*;
use vstd::slice::slice_subrange;
use vstd::std_specs::iter::IteratorSpec;

verus! {

/// The ASCII bytes that the transliteration table holds for `c`; none where it
/// has no entry.
pub uninterp spec fn transliteration(c: char) -> Seq<u8>;

/// Trusted: calls `any_ascii::any_ascii_char` and hands out the bytes of the
/// string it returns. That string is read from a table and depends on the
/// character alone, so its bytes are given the name [`transliteration`];
/// nothing else is claimed of them.
#[verifier::external_body]
pub(crate) fn transliterate(c: char) -> (r: &'static [u8])
    ensures
        r@ == transliteration(c),
{
    any_ascii::any_ascii_char(c).as_bytes()
}

/// `c` is a combining diacritical mark.
pub open spec fn combining_diacritical_mark(c: char) -> bool {
    '\u{300}' <= c && c <= '\u{36F}'
}

/// The characters that stand for table bytes `bytes`: each byte as a
/// character, in ASCII lower case.
pub open spec fn lowered(bytes: Seq<u8>) -> Seq<char> {
    bytes.map_values(|b: u8| ascii_lowercase(b as char))
}

/// What an alphanumeric character `c` outside ASCII becomes, given its table
/// entry `bytes`: the entry in lower case, or `c` itself where the entry is
/// empty.
pub open spec fn transliterated(c: char, bytes: Seq<u8>) -> Seq<char> {
    if bytes.len() == 0 {
        seq![c]
    } else {
        lowered(bytes)
    }
}

/// What a character `c` outside ASCII becomes, where `alnum` says whether it is
/// alphanumeric.
///
/// An alphanumeric character is transliterated. Of the others a combining
/// diacritical mark becomes nothing; the rest stay as they are, or become
/// nothing with `only_alnum`.
pub open spec fn non_ascii_char(c: char, alnum: bool, only_alnum: bool) -> Seq<char> {
    if alnum {
        transliterated(c, transliteration(c))
    } else if only_alnum || combining_diacritical_mark(c) {
        Seq::empty()
    } else {
        seq![c]
    }
}

/// The characters that `c` contributes to a lexical comparison.
///
/// An ASCII character is put in lower case; with `only_alnum` it contributes
/// nothing unless it is a letter or a digit. A character outside ASCII
/// becomes what [`non_ascii_char`] says.
pub open spec fn lexical_char(c: char, only_alnum: bool) -> Seq<char> {
    if ascii(c) {
        if only_alnum && !ascii_alphanumeric(c) {
            Seq::empty()
        } else {
            seq![ascii_lowercase(c)]
        }
    } else {
        non_ascii_char(c, alphanumeric(c), only_alnum)
    }
}

enum CharOrSlice {
    Char(char),
    Slice(&'static [u8]),
}

/// An iterator over what one character becomes: the character in lower case
/// and transliterated to ASCII, if it is alphanumeric.
///
/// Made by [`iterate_lexical_char`] and [`iterate_lexical_char_only_alnum`].
pub struct LexicalChar(CharOrSlice);

impl LexicalChar {
    /// The characters still to come, in order.
    pub closed spec fn view(&self) -> Seq<char> {
        match self.0 {
            CharOrSlice::Char(c) => seq![c],
            CharOrSlice::Slice(s) => lowered(s@),
        }
    }

    pub(crate) fn from_char(c: char) -> (r: Self)
        ensures
            r@ == seq![c],
    {
        LexicalChar(CharOrSlice::Char(c))
    }

    pub(crate) fn from_slice(s: &'static [u8]) -> (r: Self)
        ensures
            r@ == lowered(s@),
    {
        LexicalChar(CharOrSlice::Slice(s))
    }

    pub(crate) fn empty() -> (r: Self)
        ensures
            r@ == Seq::<char>::empty(),
    {
        let r = LexicalChar(CharOrSlice::Slice(&[]));
        assert(r@ =~= Seq::<char>::empty());
        r
    }

    /// An iterator over `c` itself where `keep` holds, else over nothing.
    pub fn verbatim_if(c: char, keep: bool) -> (r: Self)
        ensures
            r@ == verbatim(c, keep),
    {
        if keep {
            LexicalChar::from_char(c)
        } else {
            LexicalChar::empty()
        }
    }

    /// What an alphanumeric character `c` outside ASCII becomes, given its
    /// table entry `bytes`.
    pub fn from_transliteration(c: char, bytes: &'static [u8]) -> (r: Self)
        ensures
            r@ == transliterated(c, bytes@),
    {
        if bytes.len() == 0 {
            LexicalChar::from_char(c)
        } else {
            LexicalChar::from_slice(bytes)
        }
    }

    /// Takes the first of the characters still to come.
    pub fn next(&mut self) -> (r: Option<char>)
        ensures
            old(self)@.len() > 0 ==> r == Some(old(self)@[0]) && final(self)@ == old(self)@.drop_first(),
            old(self)@.len() == 0 ==> r.is_none() && final(self)@ == old(self)@,
    {
        match self.0 {
            CharOrSlice::Char(c) => {
                *self = LexicalChar::empty();
                assert(self@ =~= old(self)@.drop_first());
                Some(c)
            },
            CharOrSlice::Slice(s) => {
                if s.len() > 0 {
                    let b: u8 = s[0];
                    self.0 = CharOrSlice::Slice(slice_subrange(s, 1, s.len()));
                    assert(self@ =~= old(self)@.drop_first());
                    Some(to_ascii_lowercase(b as char))
                } else {
                    None
                }
            },
        }
    }

    /// The number of characters still to come, as both bounds.
    pub fn size_hint(&self) -> (r: (usize, Option<usize>))
        ensures
            r.0 == self@.len(),
            r.1 == Some(r.0),
    {
        match self.0 {
            CharOrSlice::Char(_) => (1, Some(1)),
            CharOrSlice::Slice(s) => (s.len(), Some(s.len())),
        }
    }

    /// Hands out the character at position `n` of those still to come.
    ///
    /// Whatever `n` is, at most the first character is taken away; where
    /// there is no character at position `n`, none is.
    pub fn nth(&mut self, n: usize) -> (r: Option<char>)
        ensures
            n < old(self)@.len() ==> r == Some(old(self)@[n as int]) && final(self)@ == old(self)@.drop_first(),
            n >= old(self)@.len() ==> r.is_none() && final(self)@ == old(self)@,
    {
        if n == 0 {
            self.next()
        } else {
            match self.0 {
                CharOrSlice::Char(_) => None,
                CharOrSlice::Slice(s) => {
                    if n < s.len() {
                        let b: u8 = s[n];
                        self.0 = CharOrSlice::Slice(slice_subrange(s, 1, s.len()));
                        assert(self@ =~= old(self)@.drop_first());
                        Some(to_ascii_lowercase(b as char))
                    } else {
                        None
                    }
                },
            }
        }
    }

    /// Takes the last of the characters still to come.
    pub fn next_back(&mut self) -> (r: Option<char>)
        ensures
            old(self)@.len() > 0 ==> r == Some(old(self)@.last()) && final(self)@ == old(self)@.drop_last(),
            old(self)@.len() == 0 ==> r.is_none() && final(self)@ == old(self)@,
    {
        match self.0 {
            CharOrSlice::Char(c) => {
                *self = LexicalChar::empty();
                assert(self@ =~= old(self)@.drop_last());
                Some(c)
            },
            CharOrSlice::Slice(s) => {
                if s.len() > 0 {
                    let ix: usize = s.len() - 1;
                    let b: u8 = s[ix];
                    self.0 = CharOrSlice::Slice(slice_subrange(s, 0, ix));
                    assert(self@ =~= old(self)@.drop_last());
                    Some(to_ascii_lowercase(b as char))
                } else {
                    None
                }
            },
        }
    }
}

/// `true` for combining diacritical marks.
pub fn combining_diacritical(c: char) -> (r: bool)
    ensures
        r == combining_diacritical_mark(c),
{
    c >= '\u{300}' && c <= '\u{36F}'
}

/// Returns an iterator over what a character `c` outside ASCII becomes, where
/// `alnum` says whether it is alphanumeric.
pub fn iterate_non_ascii_char(c: char, alnum: bool, only_alnum: bool) -> (r: LexicalChar)
    ensures
        r@ == non_ascii_char(c, alnum, only_alnum),
{
    if alnum {
        LexicalChar::from_transliteration(c, transliterate(c))
    } else if only_alnum || combining_diacritical(c) {
        LexicalChar::empty()
    } else {
        LexicalChar::from_char(c)
    }
}

/// Returns an iterator over one `char`, converted to lower case and
/// transliterated to ASCII, if it is alphanumeric.
pub fn iterate_lexical_char(c: char) -> (r: LexicalChar)
    ensures
        r@ == lexical_char(c, false),
{
    if is_ascii(c) {
        LexicalChar::from_char(to_ascii_lowercase(c))
    } else {
        iterate_non_ascii_char(c, is_alphanumeric(c), false)
    }
}

/// Returns an iterator over one `char`, converted to lower case and
/// transliterated to ASCII, if it is alphanumeric; over nothing, if it is not.
pub fn iterate_lexical_char_only_alnum(c: char) -> (r: LexicalChar)
    ensures
        r@ == lexical_char(c, true),
{
    if is_ascii(c) {
        if is_ascii_alphanumeric(c) {
            LexicalChar::from_char(to_ascii_lowercase(c))
        } else {
            LexicalChar::empty()
        }
    } else {
        iterate_non_ascii_char(c, is_alphanumeric(c), true)
    }
}

/// `c` itself where `keep` holds, else nothing.
pub open spec fn verbatim(c: char, keep: bool) -> Seq<char> {
    if keep {
        seq![c]
    } else {
        Seq::empty()
    }
}

/// The characters that `c` contributes to a comparison: what it becomes in a
/// lexical one, else `c` itself; nothing where only alphanumeric characters
/// count and `c` is none.
pub open spec fn unit(c: char, lexical: bool, only_alnum: bool) -> Seq<char> {
    if lexical {
        lexical_char(c, only_alnum)
    } else if only_alnum {
        verbatim(c, alphanumeric(c))
    } else {
        seq![c]
    }
}

/// The characters that a text contributes to a comparison: those of its
/// characters, one after the other.
pub open spec fn units(text: Seq<char>, lexical: bool, only_alnum: bool) -> Seq<char>
    decreases text.len(),
{
    if text.len() == 0 {
        Seq::empty()
    } else {
        unit(text[0], lexical, only_alnum) + units(text.drop_first(), lexical, only_alnum)
    }
}

/// An iterator over the characters that a text contributes to a comparison,
/// which can look at its next character without taking it.
///
/// The text is read one character at a time, and nothing is stored but what
/// the character read last has left to give.
///
/// What is left of the text is `chars.remaining()`, which only a contract can
/// name. So the fields are public, the contracts below speak of
/// `self.pending(self.chars.remaining())`, and no `view` stands for it.
pub struct CharStream<'a> {
    /// The part of the text not read yet.
    pub chars: Chars<'a>,
    /// What is left of the character read last.
    pub current: LexicalChar,
    /// A character that was looked at and not taken yet.
    pub peeked: Option<char>,
    /// Whether characters are transliterated and put in lower case.
    pub lexical: bool,
    /// Whether characters that are not alphanumeric are left out.
    pub only_alnum: bool,
}

impl<'a> CharStream<'a> {
    /// The stream can tell how much of its text is left to read.
    pub open spec fn wf(&self) -> bool {
        self.chars.decrease() is Some
    }

    /// The characters that were produced and not handed out yet.
    pub open spec fn buffered(&self) -> Seq<char> {
        match self.peeked {
            Some(c) => seq![c] + self.current@,
            None => self.current@,
        }
    }

    /// The characters still to come, where `rest` is the part of the text not
    /// read yet.
    pub open spec fn pending(&self, rest: Seq<char>) -> Seq<char> {
        self.buffered() + units(rest, self.lexical, self.only_alnum)
    }

    /// A bound on the characters of the text that are left to read.
    pub open spec fn unread(&self) -> nat {
        self.chars.decrease()->0
    }

    /// 1 while a character is looked at and not taken, else 0.
    pub open spec fn held(&self) -> nat {
        if self.peeked is Some {
            1
        } else {
            0
        }
    }

    /// `self` is no further from its end than `before`: in the order of
    /// `unread`, then of what `current` has left, then of `held`.
    pub open spec fn no_further_than(&self, before: &Self) -> bool {
        ||| self.unread() < before.unread()
        ||| (self.unread() == before.unread() && self.current@.len() < before.current@.len())
        ||| (self.unread() == before.unread() && self.current@.len() == before.current@.len()
            && self.held() <= before.held())
    }

    /// `self` is nearer to its end than `before`, in the same order.
    pub open spec fn nearer_than(&self, before: &Self) -> bool {
        ||| self.unread() < before.unread()
        ||| (self.unread() == before.unread() && self.current@.len() < before.current@.len())
        ||| (self.unread() == before.unread() && self.current@.len() == before.current@.len()
            && self.held() < before.held())
    }

    /// A stream over `text` that has read nothing yet.
    pub fn new(text: &'a str, lexical: bool, only_alnum: bool) -> (r: Self)
        ensures
            r.wf(),
            r.lexical == lexical,
            r.only_alnum == only_alnum,
            r.buffered() == Seq::<char>::empty(),
            r.chars.remaining() == text@,
            r.pending(r.chars.remaining()) == units(text@, lexical, only_alnum),
    {
        broadcast use vstd::string::group_string_axioms;

        CharStream {
            chars: text.chars(),
            current: LexicalChar::empty(),
            peeked: None,
            lexical,
            only_alnum,
        }
    }

    /// What the character `c`, just read, contributes.
    fn produce(c: char, lexical: bool, only_alnum: bool) -> (r: LexicalChar)
        ensures
            r@ == unit(c, lexical, only_alnum),
    {
        if lexical {
            if only_alnum {
                iterate_lexical_char_only_alnum(c)
            } else {
                iterate_lexical_char(c)
            }
        } else if only_alnum {
            LexicalChar::verbatim_if(c, is_alphanumeric(c))
        } else {
            LexicalChar::from_char(c)
        }
    }

    /// Produces the next character, reading on in the text as far as needed.
    fn pull(&mut self) -> (r: Option<char>)
        requires
            old(self).wf(),
            old(self).peeked is None,
        ensures
            final(self).wf(),
            final(self).peeked is None,
            final(self).lexical == old(self).lexical,
            final(self).only_alnum == old(self).only_alnum,
            ({
                let before = old(self).pending(old(self).chars.remaining());
                let after = final(self).pending(final(self).chars.remaining());
                if before.len() > 0 {
                    r == Some(before[0]) && after == before.drop_first()
                } else {
                    r.is_none() && after == before
                }
            }),
            r is Some ==> final(self).nearer_than(old(self)),
    {
        broadcast use vstd::string::group_string_axioms;

        loop
            invariant
                self.wf(),
                self.peeked is None,
                self.lexical == old(self).lexical,
                self.only_alnum == old(self).only_alnum,
                self.pending(self.chars.remaining()) == old(self).pending(
                    old(self).chars.remaining(),
                ),
                self.unread() < old(self).unread() || (self.unread() == old(self).unread()
                    && self.current@ == old(self).current@),
            decreases self.unread(),
        {
            let ghost before = self.pending(self.chars.remaining());
            match self.current.next() {
                Some(c) => {
                    assert(self.pending(self.chars.remaining()) =~= before.drop_first());
                    return Some(c);
                },
                None => {},
            }
            match self.chars.next() {
                None => {
                    return None;
                },
                Some(c) => {
                    self.current = Self::produce(c, self.lexical, self.only_alnum);
                    assert(self.pending(self.chars.remaining()) =~= before);
                },
            }
        }
    }

    /// Takes the next character.
    pub fn next(&mut self) -> (r: Option<char>)
        requires
            old(self).wf(),
        ensures
            final(self).wf(),
            final(self).lexical == old(self).lexical,
            final(self).only_alnum == old(self).only_alnum,
            ({
                let before = old(self).pending(old(self).chars.remaining());
                let after = final(self).pending(final(self).chars.remaining());
                if before.len() > 0 {
                    r == Some(before[0]) && after == before.drop_first()
                } else {
                    r.is_none() && after == before
                }
            }),
            r is Some ==> final(self).nearer_than(old(self)),
    {
        match self.peeked {
            Some(c) => {
                self.peeked = None;
                assert(self.pending(self.chars.remaining()) =~= old(self).pending(
                    old(self).chars.remaining(),
                ).drop_first());
                Some(c)
            },
            None => self.pull(),
        }
    }

    /// Looks at the next character without taking it.
    pub fn peek(&mut self) -> (r: Option<char>)
        requires
            old(self).wf(),
        ensures
            final(self).wf(),
            final(self).lexical == old(self).lexical,
            final(self).only_alnum == old(self).only_alnum,
            final(self).pending(final(self).chars.remaining()) == old(self).pending(
                old(self).chars.remaining(),
            ),
            ({
                let before = old(self).pending(old(self).chars.remaining());
                if before.len() > 0 {
                    r == Some(before[0])
                } else {
                    r.is_none()
                }
            }),
            r is Some ==> final(self).no_further_than(old(self)),
    {
        match self.peeked {
            Some(c) => Some(c),
            None => {
                let ghost before = self.pending(self.chars.remaining());
                let r = self.pull();
                let ghost pulled = self.pending(self.chars.remaining());
                self.peeked = r;
                assert(self.pending(self.chars.remaining()) =~= before) by {
                    if r is Some {
                        assert(before =~= seq![before[0]] + before.drop_first());
                        assert(self.pending(self.chars.remaining()) =~= seq![r->0] + pulled);
                    }
                }
                r
            },
        }
    }
}

/// Returns an iterator over the characters of a string, converted to lower
/// case and transliterated to ASCII, if they are alphanumeric.
pub fn iterate_lexical(s: &str) -> (r: CharStream<'_>)
    ensures
        r.wf(),
        r.lexical,
        !r.only_alnum,
        r.pending(r.chars.remaining()) == units(s@, true, false),
{
    CharStream::new(s, true, false)
}

/// Returns an iterator over the characters of a string, converted to lower
/// case and transliterated to ASCII. Characters that are not alphanumeric are
/// skipped.
pub fn iterate_lexical_only_alnum(s: &str) -> (r: CharStream<'_>)
    ensures
        r.wf(),
        r.lexical,
        r.only_alnum,
        r.pending(r.chars.remaining()) == units(s@, true, true),
{
    CharStream::new(s, true, true)
}

} // verus!
