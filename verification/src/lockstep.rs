//! How the digits at the start of two streams are read: in step, a digit
//! from each stream at a time, with nothing kept in mind but the first two
//! digits that differ.
//!
//! What is found so is what [`digit_verdict`](crate::order::digit_verdict)
//! says; the functions here say how far the streams are read for it.

use crate::classify::{alphanumeric, ascii_digit};
use crate::order::{beside_digit, both_digits, reversed, seq_order, undecided};
use std::cmp::Ordering;
use vstd::prelude::*;

verus! {

/// The number of positions, from the start, at which both streams hold an
/// ASCII digit.
pub open spec fn digit_pairs(a: Seq<char>, b: Seq<char>) -> nat
    decreases a.len(),
{
    if a.len() > 0 && b.len() > 0 && ascii_digit(a[0]) && ascii_digit(b[0]) {
        1 + digit_pairs(a.drop_first(), b.drop_first())
    } else {
        0
    }
}

/// [`digit_pairs`] as an index.
pub open spec fn paired_digits(a: Seq<char>, b: Seq<char>) -> int {
    digit_pairs(a, b) as int
}

/// The stream without its first `n` characters, or without all of them where
/// it has fewer.
pub open spec fn past(s: Seq<char>, n: int) -> Seq<char> {
    if 0 <= n <= s.len() {
        s.skip(n)
    } else {
        Seq::empty()
    }
}

/// The number of `0`s that the stream begins with.
pub open spec fn zero_count(s: Seq<char>) -> nat
    decreases s.len(),
{
    if s.len() > 0 && s[0] == '0' {
        1 + zero_count(s.drop_first())
    } else {
        0
    }
}

/// [`zero_count`] as an index.
pub open spec fn leading_zeros(s: Seq<char>) -> int {
    zero_count(s) as int
}

/// The stream as its digits are read against those of `other`: without the
/// `0`s that it begins with, where both streams begin with a digit; else as
/// it is.
pub open spec fn significant(s: Seq<char>, other: Seq<char>) -> Seq<char> {
    if both_digits(s, other) {
        s.skip(leading_zeros(s))
    } else {
        s
    }
}

/// The order of the first `k` characters of each stream by code point, where
/// two runs of digits have `started`; none where they have not.
pub open spec fn run_order(x: Seq<char>, y: Seq<char>, k: int, started: bool) -> Option<
    Ordering,
> {
    if started {
        Some(seq_order(x.take(k), y.take(k), false))
    } else {
        None
    }
}

/// The order of a side that has no digit where the other side has one. `run`
/// is the order of the digits that were paired before, and `alnum` says
/// whether this side's character is alphanumeric.
///
/// Where two runs stand against each other, the one that ends first is the
/// smaller number. Where there is no run on this side, a character stands
/// against a digit.
pub open spec fn facing_digit(run: Option<Ordering>, alnum: bool) -> Ordering {
    if run is None {
        beside_digit(alnum)
    } else {
        Ordering::Less
    }
}

/// What reading the digits at the start of two streams in step finds: it is
/// what [`digit_verdict`](crate::order::digit_verdict) says.
///
/// Where both streams begin with a digit, the `0`s that each begins with are
/// left out. The streams are then read in step while both hold a digit, and
/// of the digits paired so the first two that differ are kept in mind. Where
/// after that one side goes on with a digit and the other does not, the order
/// is decided there. Else the order of the paired digits is the answer, if
/// they differ. Where they do not, a stream that has ended comes before one
/// that has not; and where neither has ended, nothing is decided.
pub open spec fn lockstep_verdict(a: Seq<char>, b: Seq<char>) -> Option<Ordering> {
    let x = significant(a, b);
    let y = significant(b, a);
    let k = paired_digits(x, y);
    let run = run_order(x, y, k, both_digits(a, b));
    if k < x.len() && k < y.len() {
        if ascii_digit(y[k]) {
            Some(facing_digit(run, alphanumeric(x[k])))
        } else if ascii_digit(x[k]) {
            Some(reversed(facing_digit(run, alphanumeric(y[k]))))
        } else {
            run
        }
    } else if k < x.len() {
        if ascii_digit(x[k]) || undecided(run) {
            Some(Ordering::Greater)
        } else {
            run
        }
    } else if k < y.len() {
        if ascii_digit(y[k]) || undecided(run) {
            Some(Ordering::Less)
        } else {
            run
        }
    } else {
        run
    }
}

/// The number of characters that reading the digits takes from each stream
/// behind the `0`s left out, as far as the stream has that many: the paired
/// digits, and one more where behind them one side goes on with a digit and
/// the other does not, or where the digits do not differ and one side has
/// ended and the other has not.
pub open spec fn digits_taken(a: Seq<char>, b: Seq<char>) -> int {
    let x = significant(a, b);
    let y = significant(b, a);
    let k = paired_digits(x, y);
    let run = run_order(x, y, k, both_digits(a, b));
    if k < x.len() && k < y.len() {
        if ascii_digit(x[k]) || ascii_digit(y[k]) {
            k + 1
        } else {
            k
        }
    } else if k < x.len() {
        if ascii_digit(x[k]) || undecided(run) {
            k + 1
        } else {
            k
        }
    } else if k < y.len() {
        if ascii_digit(y[k]) || undecided(run) {
            k + 1
        } else {
            k
        }
    } else {
        k
    }
}

} // verus!
