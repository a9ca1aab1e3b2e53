//! The comparisons.

use crate::classify::{is_alphanumeric, is_ascii_digit};
use crate::iter::CharStream;
use crate::lemmas::{
    lemma_codepoint_prefix_step, lemma_leading_zeros, lemma_lockstep_verdict,
    lemma_natural_order_step, lemma_paired_digits_bound, lemma_units_verbatim,
};
use crate::lockstep::{
    digits_taken, facing_digit, leading_zeros, lockstep_verdict, paired_digits, past, run_order,
    significant,
};
use crate::order::{
    alnum_last_order, both_digits, char_order, codepoint_order, digit_verdict, natural_order,
    reversed, seq_order, text_order, undecided, Axes,
};
use std::cmp::Ordering;
use vstd::prelude::*;
use vstd::std_specs::iter::IteratorSpec;

verus! {

/// The order with `Less` and `Greater` exchanged.
pub fn reverse(o: Ordering) -> (r: Ordering)
    ensures
        r == reversed(o),
{
    match o {
        Ordering::Less => Ordering::Greater,
        Ordering::Equal => Ordering::Equal,
        Ordering::Greater => Ordering::Less,
    }
}

/// The order of two characters by code point.
pub fn codepoint_cmp(lhs: char, rhs: char) -> (r: Ordering)
    ensures
        r == codepoint_order(lhs, rhs),
{
    if lhs < rhs {
        Ordering::Less
    } else if lhs == rhs {
        Ordering::Equal
    } else {
        Ordering::Greater
    }
}

/// The order of two characters of which `lhs_alnum` and `rhs_alnum` say
/// whether they are alphanumeric: an alphanumeric one comes after one that is
/// not, and two of the same class go by code point.
pub fn alnum_last_cmp(lhs: char, lhs_alnum: bool, rhs: char, rhs_alnum: bool) -> (r: Ordering)
    ensures
        r == alnum_last_order(lhs, lhs_alnum, rhs, rhs_alnum),
{
    if lhs_alnum == rhs_alnum {
        codepoint_cmp(lhs, rhs)
    } else if lhs_alnum {
        Ordering::Greater
    } else {
        Ordering::Less
    }
}

/// The order of two characters where alphanumeric characters come after all
/// others.
pub fn ret_ordering(lhs: char, rhs: char) -> (r: Ordering)
    ensures
        r == char_order(lhs, rhs, true),
{
    let is_lhs_alnum = is_alphanumeric(lhs);
    let is_rhs_alnum = is_alphanumeric(rhs);
    alnum_last_cmp(lhs, is_lhs_alnum, rhs, is_rhs_alnum)
}

/// The order of a side whose digits have ended at a character that is no
/// digit, against a side that goes on with a digit; `run` is the order of the
/// digits paired before, and `alnum` says whether the character is
/// alphanumeric.
pub fn facing_digit_cmp(run: Option<Ordering>, alnum: bool) -> (r: Ordering)
    ensures
        r == facing_digit(run, alnum),
{
    if run.is_none() && alnum {
        Ordering::Greater
    } else {
        Ordering::Less
    }
}

/// The digits have decided the order.
fn decided(verdict: Option<Ordering>) -> (r: bool)
    ensures
        r == !undecided(verdict),
{
    match verdict {
        None => false,
        Some(Ordering::Equal) => false,
        Some(_) => true,
    }
}

/// Takes the `0`s that the stream begins with.
fn skip_zeros(stream: &mut CharStream<'_>)
    requires
        old(stream).wf(),
    ensures
        final(stream).wf(),
        final(stream).lexical == old(stream).lexical,
        final(stream).only_alnum == old(stream).only_alnum,
        ({
            let s = old(stream).pending(old(stream).chars.remaining());
            final(stream).pending(final(stream).chars.remaining()) == s.skip(leading_zeros(s))
        }),
        final(stream).pending(final(stream).chars.remaining()).len() > 0
            ==> final(stream).no_further_than(old(stream)),
{
    let ghost s = stream.pending(stream.chars.remaining());
    let ghost mut i: int = 0;
    assert(s.skip(0) =~= s);
    loop
        invariant
            stream.wf(),
            stream.lexical == old(stream).lexical,
            stream.only_alnum == old(stream).only_alnum,
            s == old(stream).pending(old(stream).chars.remaining()),
            0 <= i <= s.len(),
            stream.pending(stream.chars.remaining()) == s.skip(i),
            leading_zeros(s) == i + leading_zeros(s.skip(i)),
            stream.no_further_than(old(stream)),
        decreases stream.unread(), stream.current@.len(), stream.held(),
    {
        match stream.peek() {
            Some(c) => {
                assert(c == s.skip(i)[0]);
                if c == '0' {
                    let _ = stream.next();
                    proof {
                        assert(s.skip(i).drop_first() =~= s.skip(i + 1));
                        i = i + 1;
                    }
                } else {
                    return ;
                }
            },
            None => {
                return ;
            },
        }
    }
}

/// Reads the ASCII digits at the start of both streams and says what they
/// decide.
///
/// Where both streams show a digit, the `0`s that each begins with are taken
/// first. Then, while both streams show a digit, one is taken from each.
/// Where after that one stream shows a digit and the other does not, or the
/// digits do not differ and one stream has ended and the other has not, one
/// more character is taken from each stream that has one. A result other
/// than `None` and `Some(Equal)` ends the comparison.
pub fn cmp_ascii_digits(lhs: &mut CharStream<'_>, rhs: &mut CharStream<'_>) -> (r: Option<Ordering>)
    requires
        old(lhs).wf(),
        old(rhs).wf(),
    ensures
        final(lhs).wf(),
        final(rhs).wf(),
        final(lhs).lexical == old(lhs).lexical,
        final(lhs).only_alnum == old(lhs).only_alnum,
        final(rhs).lexical == old(rhs).lexical,
        final(rhs).only_alnum == old(rhs).only_alnum,
        ({
            let a = old(lhs).pending(old(lhs).chars.remaining());
            let b = old(rhs).pending(old(rhs).chars.remaining());
            &&& r == digit_verdict(a, b)
            &&& final(lhs).pending(final(lhs).chars.remaining()) == past(
                significant(a, b),
                digits_taken(a, b),
            )
            &&& final(rhs).pending(final(rhs).chars.remaining()) == past(
                significant(b, a),
                digits_taken(a, b),
            )
        }),
        final(lhs).pending(final(lhs).chars.remaining()).len() > 0 ==> final(lhs).no_further_than(
            old(lhs),
        ),
        final(rhs).pending(final(rhs).chars.remaining()).len() > 0 ==> final(rhs).no_further_than(
            old(rhs),
        ),
{
    let ghost a0 = lhs.pending(lhs.chars.remaining());
    let ghost b0 = rhs.pending(rhs.chars.remaining());
    proof {
        lemma_lockstep_verdict(a0, b0);
    }
    let started = match (lhs.peek(), rhs.peek()) {
        (Some(p), Some(q)) => is_ascii_digit(p) && is_ascii_digit(q),
        _ => false,
    };
    let mut current: Option<Ordering> = None;
    if started {
        // Two runs of digits: the zeros in front of them do not count.
        skip_zeros(lhs);
        skip_zeros(rhs);
        current = Some(Ordering::Equal);
    }
    let ghost a = lhs.pending(lhs.chars.remaining());
    let ghost b = rhs.pending(rhs.chars.remaining());
    let ghost mut i: int = 0;
    proof {
        assert(started == both_digits(a0, b0));
        assert(a == significant(a0, b0));
        assert(b == significant(b0, a0));
        assert(a.skip(0) =~= a && b.skip(0) =~= b);
        assert(a.take(0).len() == 0 && b.take(0).len() == 0);
        lemma_leading_zeros(a0);
        lemma_leading_zeros(b0);
    }
    loop
        invariant
            lhs.wf(),
            rhs.wf(),
            lhs.lexical == old(lhs).lexical,
            lhs.only_alnum == old(lhs).only_alnum,
            rhs.lexical == old(rhs).lexical,
            rhs.only_alnum == old(rhs).only_alnum,
            a0 == old(lhs).pending(old(lhs).chars.remaining()),
            b0 == old(rhs).pending(old(rhs).chars.remaining()),
            a == significant(a0, b0),
            b == significant(b0, a0),
            started == both_digits(a0, b0),
            lockstep_verdict(a0, b0) == digit_verdict(a0, b0),
            0 <= i <= a.len(),
            i <= b.len(),
            lhs.pending(lhs.chars.remaining()) == a.skip(i),
            rhs.pending(rhs.chars.remaining()) == b.skip(i),
            paired_digits(a, b) == i + paired_digits(a.skip(i), b.skip(i)),
            current == run_order(a, b, i, started),
            lhs.pending(lhs.chars.remaining()).len() > 0 ==> lhs.no_further_than(old(lhs)),
            rhs.pending(rhs.chars.remaining()).len() > 0 ==> rhs.no_further_than(old(rhs)),
        decreases lhs.unread(), lhs.current@.len(), lhs.held(),
    {
        proof {
            lemma_paired_digits_bound(a.skip(i), b.skip(i));
        }
        let x = lhs.peek();
        let y = rhs.peek();
        match (x, y) {
            (Some(p), Some(q)) => {
                let p_digit = is_ascii_digit(p);
                let q_digit = is_ascii_digit(q);
                assert(p == a.skip(i)[0] && q == b.skip(i)[0]);
                if p_digit && q_digit {
                    // Only the first pair of digits that differ decides.
                    current =
                    match current {
                        None => Some(codepoint_cmp(p, q)),
                        Some(Ordering::Equal) => Some(codepoint_cmp(p, q)),
                        Some(decided) => Some(decided),
                    };
                    let _ = lhs.next();
                    let _ = rhs.next();
                    proof {
                        assert(started) by {
                            if !started {
                                assert(a == a0 && b == b0);
                                assert(paired_digits(a, b) == 0);
                            }
                        }
                        lemma_codepoint_prefix_step(a, b, i);
                        assert(a.skip(i).drop_first() =~= a.skip(i + 1));
                        assert(b.skip(i).drop_first() =~= b.skip(i + 1));
                        i = i + 1;
                    }
                } else if q_digit {
                    let alnum = is_alphanumeric(p);
                    let _ = lhs.next();
                    let _ = rhs.next();
                    proof {
                        assert(a.skip(i).drop_first() =~= a.skip(i + 1));
                        assert(b.skip(i).drop_first() =~= b.skip(i + 1));
                    }
                    return Some(facing_digit_cmp(current, alnum));
                } else if p_digit {
                    let alnum = is_alphanumeric(q);
                    let _ = lhs.next();
                    let _ = rhs.next();
                    proof {
                        assert(a.skip(i).drop_first() =~= a.skip(i + 1));
                        assert(b.skip(i).drop_first() =~= b.skip(i + 1));
                    }
                    return Some(reverse(facing_digit_cmp(current, alnum)));
                } else {
                    return current;
                }
            },
            (Some(p), None) => {
                assert(p == a.skip(i)[0]);
                assert(b.skip(i) =~= Seq::<char>::empty());
                if !is_ascii_digit(p) && decided(current) {
                    // Two runs of one length that differ.
                    return current;
                }
                let _ = lhs.next();
                proof {
                    assert(a.skip(i).drop_first() =~= a.skip(i + 1));
                }
                return Some(Ordering::Greater);
            },
            (None, Some(q)) => {
                assert(q == b.skip(i)[0]);
                assert(a.skip(i) =~= Seq::<char>::empty());
                if !is_ascii_digit(q) && decided(current) {
                    // Two runs of one length that differ.
                    return current;
                }
                let _ = rhs.next();
                proof {
                    assert(b.skip(i).drop_first() =~= b.skip(i + 1));
                }
                return Some(Ordering::Less);
            },
            (None, None) => {
                return current;
            },
        }
    }
}

/// The order of two characters of the compared streams: alphanumeric after
/// the others where `alnum_last` holds, else by code point.
fn cmp_chars(lhs: char, rhs: char, alnum_last: bool) -> (r: Ordering)
    ensures
        r == char_order(lhs, rhs, alnum_last),
{
    if alnum_last {
        ret_ordering(lhs, rhs)
    } else {
        codepoint_cmp(lhs, rhs)
    }
}

/// Compares what two streams still hold, character by character.
fn cmp_streams(lhs: CharStream<'_>, rhs: CharStream<'_>, alnum_last: bool) -> (r: Ordering)
    requires
        lhs.wf(),
        rhs.wf(),
    ensures
        r == seq_order(
            lhs.pending(lhs.chars.remaining()),
            rhs.pending(rhs.chars.remaining()),
            alnum_last,
        ),
{
    let mut iter1 = lhs;
    let mut iter2 = rhs;
    loop
        invariant
            iter1.wf(),
            iter2.wf(),
            seq_order(
                iter1.pending(iter1.chars.remaining()),
                iter2.pending(iter2.chars.remaining()),
                alnum_last,
            ) == seq_order(
                lhs.pending(lhs.chars.remaining()),
                rhs.pending(rhs.chars.remaining()),
                alnum_last,
            ),
        decreases iter1.unread(), iter1.current@.len(), iter1.held(),
    {
        let x = iter1.next();
        let y = iter2.next();
        match (x, y) {
            (Some(p), Some(q)) => {
                if p != q {
                    return cmp_chars(p, q, alnum_last);
                }
            },
            (Some(_), None) => {
                return Ordering::Greater;
            },
            (None, Some(_)) => {
                return Ordering::Less;
            },
            (None, None) => {
                return Ordering::Equal;
            },
        }
    }
}

/// Compares what two streams still hold in natural order: the digits at
/// their start, then one character, and so on.
fn natural_cmp_streams(lhs: CharStream<'_>, rhs: CharStream<'_>, alnum_last: bool) -> (r: Ordering)
    requires
        lhs.wf(),
        rhs.wf(),
    ensures
        r == natural_order(
            lhs.pending(lhs.chars.remaining()),
            rhs.pending(rhs.chars.remaining()),
            alnum_last,
        ),
{
    let mut iter1 = lhs;
    let mut iter2 = rhs;
    loop
        invariant
            iter1.wf(),
            iter2.wf(),
            natural_order(
                iter1.pending(iter1.chars.remaining()),
                iter2.pending(iter2.chars.remaining()),
                alnum_last,
            ) == natural_order(
                lhs.pending(lhs.chars.remaining()),
                rhs.pending(rhs.chars.remaining()),
                alnum_last,
            ),
        decreases iter1.unread(), iter1.current@.len(), iter1.held(),
    {
        proof {
            let a = iter1.pending(iter1.chars.remaining());
            let b = iter2.pending(iter2.chars.remaining());
            lemma_lockstep_verdict(a, b);
            lemma_natural_order_step(a, b, alnum_last);
        }
        match cmp_ascii_digits(&mut iter1, &mut iter2) {
            None => {},
            Some(Ordering::Equal) => {},
            Some(result) => {
                return result;
            },
        }
        let x = iter1.next();
        let y = iter2.next();
        match (x, y) {
            (Some(p), Some(q)) => {
                if p != q {
                    return cmp_chars(p, q, alnum_last);
                }
            },
            (Some(_), None) => {
                return Ordering::Greater;
            },
            (None, Some(_)) => {
                return Ordering::Less;
            },
            (None, None) => {
                return Ordering::Equal;
            },
        }
    }
}

/// Compares two texts under the given choices.
///
/// The streams that the texts contribute are compared first. Where they are
/// equal, the texts themselves are compared by code point, so that only a
/// text and itself are equal.
pub fn compare(lhs: &str, rhs: &str, axes: Axes) -> (r: Ordering)
    ensures
        r == text_order(lhs@, rhs@, axes),
{
    let iter1 = CharStream::new(lhs, axes.lexical, axes.only_alnum);
    let iter2 = CharStream::new(rhs, axes.lexical, axes.only_alnum);
    let tie = axes.lexical && !axes.only_alnum;
    let streams = if axes.natural {
        natural_cmp_streams(iter1, iter2, tie)
    } else {
        cmp_streams(iter1, iter2, tie)
    };
    match streams {
        Ordering::Equal => {
            if axes.lexical || axes.only_alnum || axes.natural {
                proof {
                    lemma_units_verbatim(lhs@);
                    lemma_units_verbatim(rhs@);
                }
                cmp_streams(
                    CharStream::new(lhs, false, false),
                    CharStream::new(rhs, false, false),
                    false,
                )
            } else {
                // The streams were the texts themselves, compared by code point.
                proof {
                    lemma_units_verbatim(lhs@);
                    lemma_units_verbatim(rhs@);
                }
                Ordering::Equal
            }
        },
        decided => decided,
    }
}

/// Compares strings lexicographically.
///
/// For example, `"a" < "ä" < "aa"`.
pub fn lexical_cmp(lhs: &str, rhs: &str) -> (r: Ordering)
    ensures
        r == text_order(lhs@, rhs@, (Axes { lexical: true, natural: false, only_alnum: false })),
{
    compare(lhs, rhs, Axes { lexical: true, natural: false, only_alnum: false })
}

/// Compares strings lexicographically, skipping characters that are not
/// alphanumeric.
///
/// For example, `"a" < " ä" < "ä" < "aa"`.
pub fn lexical_only_alnum_cmp(s1: &str, s2: &str) -> (r: Ordering)
    ensures
        r == text_order(s1@, s2@, (Axes { lexical: true, natural: false, only_alnum: true })),
{
    compare(s1, s2, Axes { lexical: true, natural: false, only_alnum: true })
}

/// Compares strings naturally and lexicographically.
///
/// For example, `"a" < "ä" < "aa"`, `"50" < "100"`.
pub fn natural_lexical_cmp(s1: &str, s2: &str) -> (r: Ordering)
    ensures
        r == text_order(s1@, s2@, (Axes { lexical: true, natural: true, only_alnum: false })),
{
    compare(s1, s2, Axes { lexical: true, natural: true, only_alnum: false })
}

/// Compares strings naturally and lexicographically, skipping characters that
/// are not alphanumeric.
///
/// For example, `"a" < " ä" < "ä" < "aa"`, `"50" < "100"`.
pub fn natural_lexical_only_alnum_cmp(s1: &str, s2: &str) -> (r: Ordering)
    ensures
        r == text_order(s1@, s2@, (Axes { lexical: true, natural: true, only_alnum: true })),
{
    compare(s1, s2, Axes { lexical: true, natural: true, only_alnum: true })
}

/// Compares strings naturally.
///
/// For example, `"50" < "100"`.
pub fn natural_cmp(s1: &str, s2: &str) -> (r: Ordering)
    ensures
        r == text_order(s1@, s2@, (Axes { lexical: false, natural: true, only_alnum: false })),
{
    compare(s1, s2, Axes { lexical: false, natural: true, only_alnum: false })
}

/// Compares strings naturally, skipping characters that are not alphanumeric.
///
/// For example, `"a" < " b" < "b"`, `"50" < "100"`.
pub fn natural_only_alnum_cmp(s1: &str, s2: &str) -> (r: Ordering)
    ensures
        r == text_order(s1@, s2@, (Axes { lexical: false, natural: true, only_alnum: true })),
{
    compare(s1, s2, Axes { lexical: false, natural: true, only_alnum: true })
}

/// Compares strings, skipping characters that are not alphanumeric.
///
/// For example, `"a" < " b" < "b"`.
pub fn only_alnum_cmp(s1: &str, s2: &str) -> (r: Ordering)
    ensures
        r == text_order(s1@, s2@, (Axes { lexical: false, natural: false, only_alnum: true })),
{
    compare(s1, s2, Axes { lexical: false, natural: false, only_alnum: true })
}

/// Compares strings by code point: not lexicographically, not naturally, and
/// skipping nothing.
///
/// For example, `"B" < "a" < "b" < "ä"`.
pub fn cmp(s1: &str, s2: &str) -> (r: Ordering)
    ensures
        r == seq_order(s1@, s2@, false),
        r == text_order(s1@, s2@, (Axes { lexical: false, natural: false, only_alnum: false })),
{
    proof {
        lemma_units_verbatim(s1@);
        lemma_units_verbatim(s2@);
    }
    compare(s1, s2, Axes { lexical: false, natural: false, only_alnum: false })
}

} // verus!
