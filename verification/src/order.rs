//! What each comparison returns, stated over sequences of characters.

use crate::classify::{alphanumeric, ascii_digit};
use crate::iter::units;
use std::cmp::Ordering;
use vstd::prelude::*;

verus! {

/// The three choices that tell the eight comparisons apart.
#[derive(Clone, Copy, Debug, PartialEq, Eq, Structural)]
pub struct Axes {
    /// Characters are transliterated to ASCII and put in lower case.
    pub lexical: bool,
    /// Runs of ASCII digits are compared as numbers.
    pub natural: bool,
    /// Characters that are not alphanumeric are skipped.
    pub only_alnum: bool,
}

/// The order with `Less` and `Greater` exchanged.
pub open spec fn reversed(o: Ordering) -> Ordering {
    match o {
        Ordering::Less => Ordering::Greater,
        Ordering::Equal => Ordering::Equal,
        Ordering::Greater => Ordering::Less,
    }
}

/// The order of two characters by code point.
pub open spec fn codepoint_order(a: char, b: char) -> Ordering {
    if a < b {
        Ordering::Less
    } else if a == b {
        Ordering::Equal
    } else {
        Ordering::Greater
    }
}

/// The order of two characters where an alphanumeric one comes after one that
/// is not, whatever their code points; `a_alnum` and `b_alnum` say which of
/// the two is alphanumeric. Two of the same class go by code point.
pub open spec fn alnum_last_order(a: char, a_alnum: bool, b: char, b_alnum: bool) -> Ordering {
    if a_alnum == b_alnum {
        codepoint_order(a, b)
    } else if a_alnum {
        Ordering::Greater
    } else {
        Ordering::Less
    }
}

/// The order of two characters of the compared streams: alphanumeric after
/// the others where `alnum_last` holds, else by code point.
pub open spec fn char_order(a: char, b: char, alnum_last: bool) -> Ordering {
    if alnum_last {
        alnum_last_order(a, alphanumeric(a), b, alphanumeric(b))
    } else {
        codepoint_order(a, b)
    }
}

/// The order of two streams, character by character: the first position at
/// which they differ decides, and a stream that ends there comes first.
pub open spec fn seq_order(a: Seq<char>, b: Seq<char>, alnum_last: bool) -> Ordering
    decreases a.len(),
{
    if a.len() == 0 {
        if b.len() == 0 {
            Ordering::Equal
        } else {
            Ordering::Less
        }
    } else if b.len() == 0 {
        Ordering::Greater
    } else if a[0] != b[0] {
        char_order(a[0], b[0], alnum_last)
    } else {
        seq_order(a.drop_first(), b.drop_first(), alnum_last)
    }
}

/// Both streams begin with an ASCII digit: two runs of digits stand against
/// each other.
pub open spec fn both_digits(a: Seq<char>, b: Seq<char>) -> bool {
    a.len() > 0 && b.len() > 0 && ascii_digit(a[0]) && ascii_digit(b[0])
}

/// The number of ASCII digits that the stream begins with.
pub open spec fn digit_count(s: Seq<char>) -> nat
    decreases s.len(),
{
    if s.len() > 0 && ascii_digit(s[0]) {
        1 + digit_count(s.drop_first())
    } else {
        0
    }
}

/// [`digit_count`] as an index.
pub open spec fn leading_digits(s: Seq<char>) -> int {
    digit_count(s) as int
}

/// The run of ASCII digits that the stream begins with.
pub open spec fn digit_run(s: Seq<char>) -> Seq<char> {
    s.take(leading_digits(s))
}

/// The stream behind the run of ASCII digits that it begins with.
pub open spec fn after_run(s: Seq<char>) -> Seq<char> {
    s.skip(leading_digits(s))
}

/// The value of an ASCII digit.
pub open spec fn digit_value(c: char) -> nat {
    if ascii_digit(c) {
        (c as int - '0' as int) as nat
    } else {
        0
    }
}

/// The number that a run of ASCII digits spells in base ten, however long it
/// is; 0 for no digits.
pub open spec fn number(s: Seq<char>) -> nat
    decreases s.len(),
{
    if s.len() == 0 {
        0
    } else {
        10 * number(s.drop_last()) + digit_value(s.last())
    }
}

/// The order of two numbers.
pub open spec fn number_order(x: nat, y: nat) -> Ordering {
    if x < y {
        Ordering::Less
    } else if x == y {
        Ordering::Equal
    } else {
        Ordering::Greater
    }
}

/// The order of a character that is no digit against an ASCII digit: it
/// comes after the digit if it is alphanumeric, as `alnum` says, and before
/// it if not.
pub open spec fn beside_digit(alnum: bool) -> Ordering {
    if alnum {
        Ordering::Greater
    } else {
        Ordering::Less
    }
}

/// The digits have decided nothing: the comparison goes on behind them.
pub open spec fn undecided(verdict: Option<Ordering>) -> bool {
    verdict is None || verdict == Some(Ordering::Equal)
}

/// What the digits at the start of two streams decide.
///
/// Two runs of digits that stand against each other are in the order of the
/// numbers they spell. Where they spell one number, a stream that ends behind
/// its run comes before one that does not; where neither ends or both do, the
/// answer is `Equal`, and the comparison goes on behind the runs.
///
/// Where there is a digit on one side alone, a stream that has ended comes
/// first, and a character that is no digit comes after the digit if it is
/// alphanumeric, and before it if not. Where there is no digit, nothing is
/// decided, unless one stream has ended and the other has not.
pub open spec fn digit_verdict(a: Seq<char>, b: Seq<char>) -> Option<Ordering> {
    if both_digits(a, b) {
        match number_order(number(digit_run(a)), number(digit_run(b))) {
            Ordering::Equal => if after_run(a).len() == 0 && after_run(b).len() > 0 {
                Some(Ordering::Less)
            } else if after_run(a).len() > 0 && after_run(b).len() == 0 {
                Some(Ordering::Greater)
            } else {
                Some(Ordering::Equal)
            },
            decided => Some(decided),
        }
    } else if a.len() == 0 {
        if b.len() == 0 {
            None
        } else {
            Some(Ordering::Less)
        }
    } else if b.len() == 0 {
        Some(Ordering::Greater)
    } else if ascii_digit(b[0]) {
        Some(beside_digit(alphanumeric(a[0])))
    } else if ascii_digit(a[0]) {
        Some(reversed(beside_digit(alphanumeric(b[0]))))
    } else {
        None
    }
}

/// The natural order of two streams.
///
/// Two runs of ASCII digits that stand against each other are compared as the
/// numbers they spell, and if these are the same, what follows the runs is
/// compared. A digit on one side alone comes before an alphanumeric character
/// and after any other. Else the streams are compared character by character,
/// and a stream that ends comes first.
pub open spec fn natural_order(a: Seq<char>, b: Seq<char>, alnum_last: bool) -> Ordering
    decreases a.len(),
    via natural_order_decreases
{
    if a.len() == 0 {
        if b.len() == 0 {
            Ordering::Equal
        } else {
            Ordering::Less
        }
    } else if b.len() == 0 {
        Ordering::Greater
    } else if ascii_digit(a[0]) && ascii_digit(b[0]) {
        match number_order(number(digit_run(a)), number(digit_run(b))) {
            Ordering::Equal => natural_order(after_run(a), after_run(b), alnum_last),
            decided => decided,
        }
    } else if ascii_digit(b[0]) {
        beside_digit(alphanumeric(a[0]))
    } else if ascii_digit(a[0]) {
        reversed(beside_digit(alphanumeric(b[0])))
    } else if a[0] != b[0] {
        char_order(a[0], b[0], alnum_last)
    } else {
        natural_order(a.drop_first(), b.drop_first(), alnum_last)
    }
}

#[via_fn]
proof fn natural_order_decreases(a: Seq<char>, b: Seq<char>, alnum_last: bool) {
    digit_count_bound(a);
}

/// A stream begins with no more digits than it has characters.
proof fn digit_count_bound(s: Seq<char>)
    ensures
        digit_count(s) <= s.len(),
    decreases s.len(),
{
    if s.len() > 0 && ascii_digit(s[0]) {
        digit_count_bound(s.drop_first());
    }
}

/// The order of two streams under the given choices.
pub open spec fn stream_order(a: Seq<char>, b: Seq<char>, natural: bool, alnum_last: bool) -> Ordering {
    if natural {
        natural_order(a, b, alnum_last)
    } else {
        seq_order(a, b, alnum_last)
    }
}

/// Alphanumeric characters come after the others exactly in the lexical
/// comparisons that skip nothing.
pub open spec fn alnum_last(axes: Axes) -> bool {
    axes.lexical && !axes.only_alnum
}

/// The order of two texts under `axes`: the order of the streams that the
/// texts contribute, and where the streams are equal, the order of the texts
/// themselves by code point.
pub open spec fn text_order(lhs: Seq<char>, rhs: Seq<char>, axes: Axes) -> Ordering {
    match stream_order(
        units(lhs, axes.lexical, axes.only_alnum),
        units(rhs, axes.lexical, axes.only_alnum),
        axes.natural,
        alnum_last(axes),
    ) {
        Ordering::Equal => seq_order(lhs, rhs, false),
        decided => decided,
    }
}

// Kinds of streams that the laws speak of.

/// Every character of the stream is an ASCII digit.
pub open spec fn all_digits(s: Seq<char>) -> bool {
    forall|i: int| 0 <= i < s.len() ==> ascii_digit(#[trigger] s[i])
}

/// No character of the stream is an ASCII digit.
pub open spec fn no_digits(s: Seq<char>) -> bool {
    forall|i: int| 0 <= i < s.len() ==> !ascii_digit(#[trigger] s[i])
}

/// Every character of the stream is an ASCII digit or alphanumeric.
pub open spec fn digits_and_alnum(s: Seq<char>) -> bool {
    forall|i: int| 0 <= i < s.len() ==> ascii_digit(#[trigger] s[i]) || alphanumeric(s[i])
}

/// The stream does not go on with an ASCII digit: it is at its end, or its
/// next character is no digit.
pub open spec fn ends_run(s: Seq<char>) -> bool {
    s.len() > 0 ==> !ascii_digit(s[0])
}

} // verus!
