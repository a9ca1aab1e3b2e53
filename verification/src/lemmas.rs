//! Facts about the orders that the comparisons and the laws are proved from.

use crate::classify::{alphanumeric, ascii_digit};
use crate::iter::units;
use crate::lockstep::{
    digits_taken, leading_zeros, lockstep_verdict, paired_digits, past, significant,
};
use crate::order::{
    after_run, all_digits, both_digits, char_order, codepoint_order, digit_run, digit_value,
    digit_verdict, digits_and_alnum, ends_run, leading_digits, natural_order, number, number_order,
    reversed, seq_order, undecided,
};
use std::cmp::Ordering;
use vstd::prelude::*;

verus! {

// What texts contribute.

/// A comparison that neither transliterates nor skips compares the text as
/// it is.
pub proof fn lemma_units_verbatim(text: Seq<char>)
    ensures
        units(text, false, false) == text,
    decreases text.len(),
{
    if text.len() > 0 {
        lemma_units_verbatim(text.drop_first());
        assert(units(text, false, false) =~= text);
    }
}

/// What two texts contribute one after the other is what the first
/// contributes and then what the second does.
pub proof fn lemma_units_concat(a: Seq<char>, b: Seq<char>, lexical: bool, only_alnum: bool)
    ensures
        units(a + b, lexical, only_alnum) == units(a, lexical, only_alnum) + units(
            b,
            lexical,
            only_alnum,
        ),
    decreases a.len(),
{
    if a.len() == 0 {
        assert(a + b =~= b);
        assert(units(a, lexical, only_alnum) + units(b, lexical, only_alnum) =~= units(
            b,
            lexical,
            only_alnum,
        ));
    } else {
        lemma_units_concat(a.drop_first(), b, lexical, only_alnum);
        assert((a + b).drop_first() =~= a.drop_first() + b);
        assert(units(a + b, lexical, only_alnum) =~= units(a, lexical, only_alnum) + units(
            b,
            lexical,
            only_alnum,
        ));
    }
}

/// A text of ASCII digits alone contributes itself to a comparison that does
/// not leave out digits.
pub proof fn lemma_units_of_digits(text: Seq<char>, lexical: bool, only_alnum: bool)
    requires
        all_digits(text),
        lexical || !only_alnum,
    ensures
        units(text, lexical, only_alnum) == text,
    decreases text.len(),
{
    if text.len() > 0 {
        assert(ascii_digit(text[0]));
        assert forall|i: int| 0 <= i < text.drop_first().len() implies ascii_digit(
            #[trigger] text.drop_first()[i],
        ) by {
            assert(text.drop_first()[i] == text[i + 1]);
        }
        lemma_units_of_digits(text.drop_first(), lexical, only_alnum);
        assert(units(text, lexical, only_alnum) =~= text);
    }
}

/// Where nothing is transliterated and only alphanumeric characters count,
/// a text contributes alphanumeric characters alone.
pub proof fn lemma_units_only_alnum(text: Seq<char>)
    ensures
        digits_and_alnum(units(text, false, true)),
    decreases text.len(),
{
    if text.len() > 0 {
        let first = crate::iter::unit(text[0], false, true);
        let rest = units(text.drop_first(), false, true);
        lemma_units_only_alnum(text.drop_first());
        assert forall|i: int| 0 <= i < (first + rest).len() implies ascii_digit(
            #[trigger] (first + rest)[i],
        ) || alphanumeric((first + rest)[i]) by {
            if i >= first.len() {
                assert((first + rest)[i] == rest[i - first.len()]);
            }
        }
    }
}

// The orders of characters.

/// Two characters that differ are not equal in either order of characters.
pub proof fn lemma_char_order_equal(a: char, b: char, alnum_last: bool)
    ensures
        char_order(a, b, alnum_last) == Ordering::Equal <==> a == b,
{
}

/// Exchanging two characters reverses their order.
pub proof fn lemma_char_order_antisymmetric(a: char, b: char, alnum_last: bool)
    ensures
        char_order(b, a, alnum_last) == reversed(char_order(a, b, alnum_last)),
{
}

/// Either order of characters is transitive.
pub proof fn lemma_char_order_transitive(x: char, y: char, z: char, alnum_last: bool)
    requires
        char_order(x, y, alnum_last) != Ordering::Greater,
        char_order(y, z, alnum_last) != Ordering::Greater,
    ensures
        char_order(x, z, alnum_last) != Ordering::Greater,
        char_order(x, y, alnum_last) == Ordering::Less || char_order(y, z, alnum_last)
            == Ordering::Less ==> char_order(x, z, alnum_last) == Ordering::Less,
{
}

// The order of streams, character by character.

/// A stream is equal to itself, character by character.
pub proof fn lemma_seq_order_reflexive(a: Seq<char>, alnum_last: bool)
    ensures
        seq_order(a, a, alnum_last) == Ordering::Equal,
    decreases a.len(),
{
    if a.len() > 0 {
        lemma_seq_order_reflexive(a.drop_first(), alnum_last);
    }
}

/// Two streams are equal, character by character, exactly if they are the
/// same.
pub proof fn lemma_seq_order_equal_is_same(a: Seq<char>, b: Seq<char>, alnum_last: bool)
    ensures
        seq_order(a, b, alnum_last) == Ordering::Equal <==> a == b,
    decreases a.len(),
{
    if a.len() > 0 && b.len() > 0 {
        lemma_seq_order_equal_is_same(a.drop_first(), b.drop_first(), alnum_last);
        if a[0] == b[0] && a.drop_first() == b.drop_first() {
            assert(a =~= seq![a[0]] + a.drop_first());
            assert(b =~= seq![b[0]] + b.drop_first());
        }
    } else if a.len() == 0 && b.len() == 0 {
        assert(a =~= b);
    }
}

/// Exchanging two streams reverses their order, character by character.
pub proof fn lemma_seq_order_antisymmetric(a: Seq<char>, b: Seq<char>, alnum_last: bool)
    ensures
        seq_order(b, a, alnum_last) == reversed(seq_order(a, b, alnum_last)),
    decreases a.len(),
{
    if a.len() > 0 && b.len() > 0 && a[0] == b[0] {
        lemma_seq_order_antisymmetric(a.drop_first(), b.drop_first(), alnum_last);
    }
}

/// The order of streams, character by character, is transitive.
pub proof fn lemma_seq_order_transitive(
    a: Seq<char>,
    b: Seq<char>,
    c: Seq<char>,
    alnum_last: bool,
)
    requires
        seq_order(a, b, alnum_last) != Ordering::Greater,
        seq_order(b, c, alnum_last) != Ordering::Greater,
    ensures
        seq_order(a, c, alnum_last) != Ordering::Greater,
        seq_order(a, b, alnum_last) == Ordering::Less || seq_order(b, c, alnum_last)
            == Ordering::Less ==> seq_order(a, c, alnum_last) == Ordering::Less,
    decreases a.len(),
{
    if a.len() > 0 && b.len() > 0 && c.len() > 0 {
        lemma_char_order_equal(a[0], b[0], alnum_last);
        lemma_char_order_equal(b[0], c[0], alnum_last);
        lemma_char_order_equal(a[0], c[0], alnum_last);
        if a[0] == b[0] && b[0] == c[0] {
            lemma_seq_order_transitive(a.drop_first(), b.drop_first(), c.drop_first(), alnum_last);
        } else if a[0] == b[0] {
        } else if b[0] == c[0] {
        } else {
            lemma_char_order_transitive(a[0], b[0], c[0], alnum_last);
        }
    }
}

/// Over the first `i + 1` characters of two streams the order by code point is
/// that over the first `i`, and where those are equal, that of the characters
/// at `i`.
pub proof fn lemma_codepoint_prefix_step(a: Seq<char>, b: Seq<char>, i: int)
    requires
        0 <= i < a.len(),
        i < b.len(),
    ensures
        seq_order(a.take(i + 1), b.take(i + 1), false) == (match seq_order(
            a.take(i),
            b.take(i),
            false,
        ) {
            Ordering::Equal => codepoint_order(a[i], b[i]),
            decided => decided,
        }),
    decreases i,
{
    if i == 0 {
        assert(a.take(1)[0] == a[0] && b.take(1)[0] == b[0]);
        assert(seq_order(a.take(1).drop_first(), b.take(1).drop_first(), false)
            == Ordering::Equal);
        assert(seq_order(a.take(0), b.take(0), false) == Ordering::Equal);
    } else {
        assert(a.take(i + 1)[0] == a[0] && b.take(i + 1)[0] == b[0]);
        assert(a.take(i)[0] == a[0] && b.take(i)[0] == b[0]);
        assert(a.take(i + 1).drop_first() =~= a.drop_first().take(i));
        assert(b.take(i + 1).drop_first() =~= b.drop_first().take(i));
        assert(a.take(i).drop_first() =~= a.drop_first().take(i - 1));
        assert(b.take(i).drop_first() =~= b.drop_first().take(i - 1));
        if a[0] == b[0] {
            lemma_codepoint_prefix_step(a.drop_first(), b.drop_first(), i - 1);
        }
    }
}

// Runs of digits.

/// A stream begins with as many digits as [`leading_digits`] says, and no
/// more.
pub proof fn lemma_leading_digits(s: Seq<char>)
    ensures
        0 <= leading_digits(s) <= s.len(),
        forall|i: int| 0 <= i < leading_digits(s) ==> ascii_digit(#[trigger] s[i]),
        leading_digits(s) < s.len() ==> !ascii_digit(s[leading_digits(s)]),
        s.len() > 0 && ascii_digit(s[0]) ==> leading_digits(s) >= 1,
    decreases s.len(),
{
    if leading_digits(s) > 0 {
        let rest = s.drop_first();
        lemma_leading_digits(rest);
        assert forall|i: int| 0 <= i < leading_digits(s) implies ascii_digit(#[trigger] s[i]) by {
            if i > 0 {
                assert(s[i] == rest[i - 1]);
            }
        }
        if leading_digits(s) < s.len() {
            assert(s[leading_digits(s)] == rest[leading_digits(rest)]);
        }
    }
}

/// A stream is the run of digits that it begins with and what is behind it:
/// digits alone, and something that does not go on with a digit.
pub proof fn lemma_run_parts(s: Seq<char>)
    ensures
        s == digit_run(s) + after_run(s),
        all_digits(digit_run(s)),
        ends_run(after_run(s)),
        digit_run(s).len() == leading_digits(s),
        s.len() > 0 && ascii_digit(s[0]) ==> digit_run(s).len() > 0 && after_run(s).len()
            < s.len(),
{
    lemma_leading_digits(s);
    assert(s =~= digit_run(s) + after_run(s));
}

/// A run of digits followed by something that does not go on with a digit is
/// the run that the whole begins with.
pub proof fn lemma_run_of_parts(x: Seq<char>, after: Seq<char>)
    requires
        all_digits(x),
        ends_run(after),
    ensures
        leading_digits(x + after) == x.len(),
        digit_run(x + after) == x,
        after_run(x + after) == after,
    decreases x.len(),
{
    let s = x + after;
    if x.len() == 0 {
        assert(s =~= after);
        assert(digit_run(s) =~= x);
        assert(after_run(s) =~= after);
    } else {
        assert(s[0] == x[0]);
        lemma_all_digits_rest(x, 1);
        assert(x.skip(1) =~= x.drop_first());
        lemma_run_of_parts(x.drop_first(), after);
        assert(s.drop_first() =~= x.drop_first() + after);
        assert(digit_run(s) =~= x);
        assert(after_run(s) =~= after);
    }
}

/// What is left of a run of digits is a run of digits.
pub proof fn lemma_all_digits_rest(s: Seq<char>, n: int)
    requires
        all_digits(s),
        0 <= n <= s.len(),
    ensures
        all_digits(s.skip(n)),
{
    assert forall|i: int| 0 <= i < s.skip(n).len() implies ascii_digit(#[trigger] s.skip(n)[i]) by {
        assert(s.skip(n)[i] == s[n + i]);
    }
}

/// A stream begins with as many `0`s as [`leading_zeros`] says, and no more.
pub proof fn lemma_leading_zeros(s: Seq<char>)
    ensures
        0 <= leading_zeros(s) <= s.len(),
        forall|i: int| 0 <= i < leading_zeros(s) ==> #[trigger] s[i] == '0',
        leading_zeros(s) < s.len() ==> s[leading_zeros(s)] != '0',
        leading_zeros(s.skip(leading_zeros(s))) == 0,
    decreases s.len(),
{
    if leading_zeros(s) > 0 {
        let rest = s.drop_first();
        lemma_leading_zeros(rest);
        assert forall|i: int| 0 <= i < leading_zeros(s) implies #[trigger] s[i] == '0' by {
            if i > 0 {
                assert(s[i] == rest[i - 1]);
            }
        }
        if leading_zeros(s) < s.len() {
            assert(s[leading_zeros(s)] == rest[leading_zeros(rest)]);
        }
        assert(s.skip(leading_zeros(s)) =~= rest.skip(leading_zeros(rest)));
    } else {
        assert(s.skip(0) =~= s);
    }
}

/// A run of digits followed by something that is no digit begins with the
/// `0`s of the run.
pub proof fn lemma_zeros_of_run(x: Seq<char>, after: Seq<char>)
    requires
        all_digits(x),
        ends_run(after),
    ensures
        leading_zeros(x + after) == leading_zeros(x),
    decreases x.len(),
{
    if x.len() == 0 {
        assert(x + after =~= after);
    } else {
        assert((x + after)[0] == x[0]);
        if x[0] == '0' {
            lemma_all_digits_rest(x, 1);
            assert(x.skip(1) =~= x.drop_first());
            lemma_zeros_of_run(x.drop_first(), after);
            assert((x + after).drop_first() =~= x.drop_first() + after);
        }
    }
}

// Runs of digits and the numbers they spell.

/// Two ASCII digits are in the order of their values.
pub proof fn lemma_digit_order(x: char, y: char)
    requires
        ascii_digit(x),
        ascii_digit(y),
    ensures
        codepoint_order(x, y) == number_order(digit_value(x), digit_value(y)),
        digit_value(x) <= 9,
{
}

/// Two runs of digits of one length are, by code point, in the order of the
/// numbers they spell.
pub proof fn lemma_number_prefix_order(a: Seq<char>, b: Seq<char>, i: int)
    requires
        all_digits(a),
        all_digits(b),
        0 <= i <= a.len(),
        i <= b.len(),
    ensures
        seq_order(a.take(i), b.take(i), false) == number_order(
            number(a.take(i)),
            number(b.take(i)),
        ),
    decreases i,
{
    if i > 0 {
        lemma_number_prefix_order(a, b, i - 1);
        lemma_codepoint_prefix_step(a, b, i - 1);
        lemma_digit_order(a[i - 1], b[i - 1]);
        lemma_digit_order(b[i - 1], a[i - 1]);
        assert(a.take(i).drop_last() =~= a.take(i - 1));
        assert(b.take(i).drop_last() =~= b.take(i - 1));
        assert(a.take(i).last() == a[i - 1]);
        assert(b.take(i).last() == b[i - 1]);
    }
}

/// A run of digits that does not begin with `0` spells a number that is not 0.
pub proof fn lemma_number_positive(s: Seq<char>)
    requires
        all_digits(s),
        s.len() > 0,
        s[0] != '0',
    ensures
        number(s) >= 1,
    decreases s.len(),
{
    if s.len() > 1 {
        assert(s.drop_last()[0] == s[0]);
        lemma_number_positive(s.drop_last());
    } else {
        assert(s.last() == s[0]);
    }
}

/// Of two runs of digits the longer spells the greater number, if it does not
/// begin with `0`.
pub proof fn lemma_longer_number_is_greater(a: Seq<char>, b: Seq<char>)
    requires
        all_digits(a),
        all_digits(b),
        a.len() < b.len(),
        b[0] != '0',
    ensures
        number(a) < number(b),
    decreases b.len(),
{
    if a.len() == 0 {
        lemma_number_positive(b);
    } else {
        assert(b.drop_last()[0] == b[0]);
        lemma_longer_number_is_greater(a.drop_last(), b.drop_last());
        lemma_digit_order(a.last(), a.last());
    }
}

/// A `0` in front of a run of digits does not change the number it spells.
pub proof fn lemma_number_zero_in_front(s: Seq<char>)
    ensures
        number(seq!['0'] + s) == number(s),
    decreases s.len(),
{
    let t = seq!['0'] + s;
    if s.len() == 0 {
        assert(t.drop_last().len() == 0);
        assert(number(t.drop_last()) == 0);
        assert(t.last() == '0');
        assert(number(t) == 0);
    } else {
        lemma_number_zero_in_front(s.drop_last());
        assert(t.drop_last() =~= seq!['0'] + s.drop_last());
        assert(t.last() == s.last());
        assert(number(t) == 10 * number(t.drop_last()) + digit_value(t.last()));
    }
}

/// The `0`s that a run of digits begins with do not change the number it
/// spells.
pub proof fn lemma_number_ignores_zeros(s: Seq<char>)
    ensures
        number(s.skip(leading_zeros(s))) == number(s),
    decreases s.len(),
{
    if leading_zeros(s) > 0 {
        let rest = s.drop_first();
        lemma_number_ignores_zeros(rest);
        lemma_number_zero_in_front(rest);
        lemma_leading_zeros(rest);
        assert(s =~= seq!['0'] + rest);
        assert(s.skip(leading_zeros(s)) =~= rest.skip(leading_zeros(rest)));
    } else {
        assert(s.skip(0) =~= s);
    }
}

// Reading the digits in step.

/// Neither stream has fewer characters than digits paired.
pub proof fn lemma_paired_digits_bound(a: Seq<char>, b: Seq<char>)
    ensures
        paired_digits(a, b) <= a.len(),
        paired_digits(a, b) <= b.len(),
    decreases a.len(),
{
    if paired_digits(a, b) > 0 {
        lemma_paired_digits_bound(a.drop_first(), b.drop_first());
    }
}

/// Two runs of digits, each followed by something that is no digit, pair as
/// many digits as the shorter run has.
pub proof fn lemma_runs_paired(x: Seq<char>, y: Seq<char>, after_x: Seq<char>, after_y: Seq<char>)
    requires
        all_digits(x),
        all_digits(y),
        ends_run(after_x),
        ends_run(after_y),
    ensures
        paired_digits(x + after_x, y + after_y) == if x.len() <= y.len() {
            x.len()
        } else {
            y.len()
        },
    decreases x.len(),
{
    let a = x + after_x;
    let b = y + after_y;
    if x.len() > 0 && y.len() > 0 {
        assert(a[0] == x[0] && b[0] == y[0]);
        assert(ascii_digit(x[0]) && ascii_digit(y[0]));
        lemma_all_digits_rest(x, 1);
        lemma_all_digits_rest(y, 1);
        assert(x.skip(1) =~= x.drop_first());
        assert(y.skip(1) =~= y.drop_first());
        lemma_runs_paired(x.drop_first(), y.drop_first(), after_x, after_y);
        assert(a.drop_first() =~= x.drop_first() + after_x);
        assert(b.drop_first() =~= y.drop_first() + after_y);
    } else if x.len() == 0 {
        assert(a =~= after_x);
    } else {
        assert(b =~= after_y);
    }
}

/// Reading two runs of digits in step finds the order of the numbers they
/// spell; and where nothing is decided, it ends behind the runs.
pub proof fn lemma_lockstep_of_runs(
    x: Seq<char>,
    y: Seq<char>,
    after_x: Seq<char>,
    after_y: Seq<char>,
)
    requires
        all_digits(x),
        all_digits(y),
        x.len() > 0,
        y.len() > 0,
        ends_run(after_x),
        ends_run(after_y),
    ensures
        lockstep_verdict(x + after_x, y + after_y) == (match number_order(number(x), number(y)) {
            Ordering::Equal => if after_x.len() == 0 && after_y.len() > 0 {
                Some(Ordering::Less)
            } else if after_x.len() > 0 && after_y.len() == 0 {
                Some(Ordering::Greater)
            } else {
                Some(Ordering::Equal)
            },
            decided => Some(decided),
        }),
        undecided(lockstep_verdict(x + after_x, y + after_y)) ==> {
            &&& past(significant(x + after_x, y + after_y), digits_taken(x + after_x, y + after_y))
                == after_x
            &&& past(significant(y + after_y, x + after_x), digits_taken(x + after_x, y + after_y))
                == after_y
        },
{
    let a = x + after_x;
    let b = y + after_y;
    assert(a[0] == x[0] && b[0] == y[0]);
    assert(ascii_digit(x[0]) && ascii_digit(y[0]));
    lemma_zeros_of_run(x, after_x);
    lemma_zeros_of_run(y, after_y);
    lemma_leading_zeros(x);
    lemma_leading_zeros(y);
    let p = x.skip(leading_zeros(x));
    let q = y.skip(leading_zeros(y));
    lemma_all_digits_rest(x, leading_zeros(x));
    lemma_all_digits_rest(y, leading_zeros(y));
    lemma_number_ignores_zeros(x);
    lemma_number_ignores_zeros(y);
    let sa = significant(a, b);
    let sb = significant(b, a);
    assert(sa =~= p + after_x);
    assert(sb =~= q + after_y);
    let k = paired_digits(sa, sb);
    lemma_runs_paired(p, q, after_x, after_y);
    if p.len() == q.len() {
        assert(sa.take(k) =~= p);
        assert(sb.take(k) =~= q);
        lemma_number_prefix_order(p, q, k);
        assert(p.take(k) =~= p);
        assert(q.take(k) =~= q);
        if after_x.len() > 0 {
            assert(sa[k] == after_x[0]);
        }
        if after_y.len() > 0 {
            assert(sb[k] == after_y[0]);
        }
        assert(sa.skip(k) =~= after_x);
        assert(sb.skip(k) =~= after_y);
    } else if p.len() < q.len() {
        lemma_longer_number_is_greater(p, q);
        assert(sb[k] == q[k]);
        if after_x.len() > 0 {
            assert(sa[k] == after_x[0]);
        }
    } else {
        lemma_longer_number_is_greater(q, p);
        assert(sa[k] == p[k]);
        if after_y.len() > 0 {
            assert(sb[k] == after_y[0]);
        }
    }
}

/// Reading the digits at the start of two streams in step finds what
/// [`digit_verdict`] says; and where nothing is decided, it ends behind the
/// runs of digits, or takes nothing where there are none.
pub proof fn lemma_lockstep_verdict(a: Seq<char>, b: Seq<char>)
    ensures
        lockstep_verdict(a, b) == digit_verdict(a, b),
        undecided(digit_verdict(a, b)) ==> {
            &&& past(significant(a, b), digits_taken(a, b)) == if both_digits(a, b) {
                after_run(a)
            } else {
                a
            }
            &&& past(significant(b, a), digits_taken(a, b)) == if both_digits(a, b) {
                after_run(b)
            } else {
                b
            }
        },
{
    if both_digits(a, b) {
        lemma_run_parts(a);
        lemma_run_parts(b);
        lemma_lockstep_of_runs(digit_run(a), digit_run(b), after_run(a), after_run(b));
    } else {
        assert(paired_digits(a, b) == 0);
        assert(a.skip(0) =~= a);
        assert(b.skip(0) =~= b);
    }
}

// The natural order of streams.

/// Where the digits at the start of two streams decide the order, it is the
/// natural order of the streams; where they do not, the streams are in the
/// natural order of what is behind the digits, which is at its end on both
/// sides or on none, and goes on with no digit.
pub proof fn lemma_natural_order_step(a: Seq<char>, b: Seq<char>, alnum_last: bool)
    ensures
        match digit_verdict(a, b) {
            Some(Ordering::Less) => natural_order(a, b, alnum_last) == Ordering::Less,
            Some(Ordering::Greater) => natural_order(a, b, alnum_last) == Ordering::Greater,
            _ => {
                let x = if both_digits(a, b) {
                    after_run(a)
                } else {
                    a
                };
                let y = if both_digits(a, b) {
                    after_run(b)
                } else {
                    b
                };
                &&& natural_order(a, b, alnum_last) == natural_order(x, y, alnum_last)
                &&& x.len() == 0 <==> y.len() == 0
                &&& ends_run(x)
                &&& ends_run(y)
            },
        },
{
    if both_digits(a, b) {
        lemma_run_parts(a);
        lemma_run_parts(b);
    }
}

/// A stream is equal to itself in natural order.
pub proof fn lemma_natural_reflexive(a: Seq<char>, alnum_last: bool)
    ensures
        natural_order(a, a, alnum_last) == Ordering::Equal,
    decreases a.len(),
{
    if a.len() > 0 {
        if ascii_digit(a[0]) {
            lemma_run_parts(a);
            lemma_natural_reflexive(after_run(a), alnum_last);
        } else {
            lemma_natural_reflexive(a.drop_first(), alnum_last);
        }
    }
}

/// Exchanging two streams reverses their natural order.
pub proof fn lemma_natural_order_antisymmetric(a: Seq<char>, b: Seq<char>, alnum_last: bool)
    ensures
        natural_order(b, a, alnum_last) == reversed(natural_order(a, b, alnum_last)),
    decreases a.len(),
{
    if a.len() > 0 && b.len() > 0 {
        if ascii_digit(a[0]) && ascii_digit(b[0]) {
            lemma_run_parts(a);
            lemma_natural_order_antisymmetric(after_run(a), after_run(b), alnum_last);
        } else if !ascii_digit(a[0]) && !ascii_digit(b[0]) {
            lemma_char_order_antisymmetric(a[0], b[0], alnum_last);
            if a[0] == b[0] {
                lemma_natural_order_antisymmetric(a.drop_first(), b.drop_first(), alnum_last);
            }
        }
    }
}

/// What is left of a stream of digits and alphanumeric characters is one.
pub proof fn lemma_digits_and_alnum_rest(s: Seq<char>, n: int)
    requires
        digits_and_alnum(s),
        0 <= n <= s.len(),
    ensures
        digits_and_alnum(s.skip(n)),
{
    assert forall|i: int| 0 <= i < s.skip(n).len() implies ascii_digit(#[trigger] s.skip(n)[i])
        || alphanumeric(s.skip(n)[i]) by {
        assert(s.skip(n)[i] == s[n + i]);
    }
}

/// The natural order of streams is transitive where alphanumeric characters
/// come last, and where every character that is no digit is alphanumeric.
pub proof fn lemma_natural_order_transitive(
    a: Seq<char>,
    b: Seq<char>,
    c: Seq<char>,
    alnum_last: bool,
)
    requires
        alnum_last || (digits_and_alnum(a) && digits_and_alnum(b) && digits_and_alnum(c)),
        natural_order(a, b, alnum_last) != Ordering::Greater,
        natural_order(b, c, alnum_last) != Ordering::Greater,
    ensures
        natural_order(a, c, alnum_last) != Ordering::Greater,
        natural_order(a, b, alnum_last) == Ordering::Less || natural_order(b, c, alnum_last)
            == Ordering::Less ==> natural_order(a, c, alnum_last) == Ordering::Less,
    decreases a.len(),
{
    if a.len() > 0 && b.len() > 0 && c.len() > 0 {
        let da = ascii_digit(a[0]);
        let db = ascii_digit(b[0]);
        let dc = ascii_digit(c[0]);
        if da && db && dc {
            lemma_run_parts(a);
            lemma_run_parts(b);
            lemma_run_parts(c);
            if number(digit_run(a)) == number(digit_run(b)) && number(digit_run(b)) == number(
                digit_run(c),
            ) {
                if !alnum_last {
                    lemma_leading_digits(a);
                    lemma_leading_digits(b);
                    lemma_leading_digits(c);
                    lemma_digits_and_alnum_rest(a, leading_digits(a));
                    lemma_digits_and_alnum_rest(b, leading_digits(b));
                    lemma_digits_and_alnum_rest(c, leading_digits(c));
                }
                lemma_natural_order_transitive(
                    after_run(a),
                    after_run(b),
                    after_run(c),
                    alnum_last,
                );
            }
        } else if !da && !db && !dc {
            lemma_char_order_equal(a[0], b[0], alnum_last);
            lemma_char_order_equal(b[0], c[0], alnum_last);
            lemma_char_order_equal(a[0], c[0], alnum_last);
            if a[0] == b[0] && b[0] == c[0] {
                if !alnum_last {
                    lemma_digits_and_alnum_rest(a, 1);
                    lemma_digits_and_alnum_rest(b, 1);
                    lemma_digits_and_alnum_rest(c, 1);
                    assert(a.skip(1) =~= a.drop_first());
                    assert(b.skip(1) =~= b.drop_first());
                    assert(c.skip(1) =~= c.drop_first());
                }
                lemma_natural_order_transitive(
                    a.drop_first(),
                    b.drop_first(),
                    c.drop_first(),
                    alnum_last,
                );
            } else if a[0] != b[0] && b[0] != c[0] {
                lemma_char_order_transitive(a[0], b[0], c[0], alnum_last);
            }
        } else {
            // A digit on one side or on two: a character that is none stands
            // in one way against every digit.
            if !da && !db {
                lemma_char_order_equal(a[0], b[0], alnum_last);
            }
            if !db && !dc {
                lemma_char_order_equal(b[0], c[0], alnum_last);
            }
            if !da && !dc {
                lemma_char_order_equal(a[0], c[0], alnum_last);
            }
        }
    }
}

/// Two runs of ASCII digits are in natural order as the numbers they spell,
/// however long they are and with however many `0`s they begin.
pub proof fn lemma_natural_order_of_numbers(a: Seq<char>, b: Seq<char>, alnum_last: bool)
    requires
        all_digits(a),
        all_digits(b),
        a.len() > 0,
        b.len() > 0,
    ensures
        natural_order(a, b, alnum_last) == number_order(number(a), number(b)),
{
    assert(ascii_digit(a[0]) && ascii_digit(b[0]));
    assert(a + Seq::<char>::empty() =~= a);
    assert(b + Seq::<char>::empty() =~= b);
    lemma_run_of_parts(a, Seq::<char>::empty());
    lemma_run_of_parts(b, Seq::<char>::empty());
    assert(natural_order(after_run(a), after_run(b), alnum_last) == Ordering::Equal);
}

} // verus!
