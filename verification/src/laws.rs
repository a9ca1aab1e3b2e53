//! What holds of the comparisons, whatever the texts.
//!
//! The laws are stated of [`text_order`], which is what the comparison
//! functions return, and of the orders of streams that it is made of.

use crate::classify::{alphanumeric, ascii, ascii_alphanumeric, ascii_digit, ascii_lowercase};
use crate::iter::{lexical_char, unit, units};
use crate::lemmas::{
    lemma_natural_order_antisymmetric, lemma_natural_order_of_numbers,
    lemma_natural_order_transitive, lemma_natural_reflexive, lemma_run_of_parts,
    lemma_seq_order_antisymmetric, lemma_seq_order_equal_is_same, lemma_seq_order_reflexive,
    lemma_seq_order_transitive, lemma_units_concat, lemma_units_of_digits,
    lemma_units_only_alnum,
};
use crate::order::{
    all_digits, alnum_last, ends_run, natural_order, no_digits, number, number_order, reversed,
    seq_order, stream_order, text_order, Axes,
};
use std::cmp::Ordering;
use vstd::prelude::*;

verus! {

/// Each of the comparisons is antisymmetric: exchanging the two texts
/// reverses the result. So one text is less than another exactly if the other
/// is greater than it, and equal to it exactly if the other is equal to it.
pub proof fn lemma_text_order_antisymmetric(lhs: Seq<char>, rhs: Seq<char>, axes: Axes)
    ensures
        text_order(rhs, lhs, axes) == reversed(text_order(lhs, rhs, axes)),
        text_order(lhs, rhs, axes) == Ordering::Less <==> text_order(rhs, lhs, axes)
            == Ordering::Greater,
        text_order(lhs, rhs, axes) == Ordering::Equal <==> text_order(rhs, lhs, axes)
            == Ordering::Equal,
{
    let a = units(lhs, axes.lexical, axes.only_alnum);
    let b = units(rhs, axes.lexical, axes.only_alnum);
    lemma_seq_order_antisymmetric(a, b, alnum_last(axes));
    lemma_natural_order_antisymmetric(a, b, alnum_last(axes));
    lemma_seq_order_antisymmetric(lhs, rhs, false);
}

/// Each of the comparisons finds two texts equal exactly if they are the same
/// text: texts that differ are never equal, whatever they are transliterated
/// to.
pub proof fn lemma_text_order_equal_is_same(lhs: Seq<char>, rhs: Seq<char>, axes: Axes)
    ensures
        text_order(lhs, rhs, axes) == Ordering::Equal <==> lhs == rhs,
{
    lemma_seq_order_equal_is_same(lhs, rhs, false);
    if lhs == rhs {
        let a = units(lhs, axes.lexical, axes.only_alnum);
        lemma_seq_order_reflexive(a, alnum_last(axes));
        lemma_natural_reflexive(a, alnum_last(axes));
    }
}

/// Two texts that contribute the same stream are in the order of their code
/// points.
pub proof fn lemma_same_stream_goes_by_code_points(lhs: Seq<char>, rhs: Seq<char>, axes: Axes)
    requires
        units(lhs, axes.lexical, axes.only_alnum) == units(rhs, axes.lexical, axes.only_alnum),
    ensures
        text_order(lhs, rhs, axes) == seq_order(lhs, rhs, false),
{
    let a = units(lhs, axes.lexical, axes.only_alnum);
    lemma_seq_order_reflexive(a, alnum_last(axes));
    lemma_natural_reflexive(a, alnum_last(axes));
}

/// Each comparison but `natural_cmp` and `natural_lexical_only_alnum_cmp` is
/// transitive, and so with the two laws above a total order of all texts.
///
/// In the two that are left out, a character that is neither digit nor
/// alphanumeric comes before every digit, and it may yet have a greater code
/// point than a letter, which comes after every digit.
pub proof fn lemma_text_order_transitive(
    a: Seq<char>,
    b: Seq<char>,
    c: Seq<char>,
    axes: Axes,
)
    requires
        axes.natural ==> axes.lexical != axes.only_alnum,
        text_order(a, b, axes) != Ordering::Greater,
        text_order(b, c, axes) != Ordering::Greater,
    ensures
        text_order(a, c, axes) != Ordering::Greater,
        text_order(a, b, axes) == Ordering::Less || text_order(b, c, axes) == Ordering::Less
            ==> text_order(a, c, axes) == Ordering::Less,
{
    let t = alnum_last(axes);
    let x = units(a, axes.lexical, axes.only_alnum);
    let y = units(b, axes.lexical, axes.only_alnum);
    let z = units(c, axes.lexical, axes.only_alnum);
    if axes.natural {
        if !axes.lexical {
            lemma_units_only_alnum(a);
            lemma_units_only_alnum(b);
            lemma_units_only_alnum(c);
        }
        lemma_natural_order_transitive(x, y, z, t);
    } else {
        lemma_seq_order_transitive(x, y, z, t);
    }
    if stream_order(x, y, axes.natural, t) == Ordering::Equal && stream_order(
        y,
        z,
        axes.natural,
        t,
    ) == Ordering::Equal {
        lemma_seq_order_transitive(a, b, c, false);
    }
}

/// The natural comparisons order texts of ASCII digits alone as the numbers
/// they spell, however long they are and with however many `0`s they begin.
/// Texts that spell one number are in the order of their code points.
pub proof fn lemma_text_order_of_numbers(lhs: Seq<char>, rhs: Seq<char>, axes: Axes)
    requires
        axes.natural,
        axes.lexical || !axes.only_alnum,
        all_digits(lhs),
        all_digits(rhs),
        lhs.len() > 0,
        rhs.len() > 0,
    ensures
        text_order(lhs, rhs, axes) == (match number_order(number(lhs), number(rhs)) {
            Ordering::Equal => seq_order(lhs, rhs, false),
            decided => decided,
        }),
{
    lemma_units_of_digits(lhs, axes.lexical, axes.only_alnum);
    lemma_units_of_digits(rhs, axes.lexical, axes.only_alnum);
    lemma_natural_order_of_numbers(lhs, rhs, alnum_last(axes));
}

/// Two streams that begin with runs of ASCII digits are in natural order as
/// the numbers that the runs spell, however long they are and with however
/// many `0`s they begin; and where the runs spell one number, as what follows
/// them.
pub proof fn lemma_natural_order_by_numbers(
    x: Seq<char>,
    y: Seq<char>,
    after_x: Seq<char>,
    after_y: Seq<char>,
    alnum_last: bool,
)
    requires
        all_digits(x),
        all_digits(y),
        x.len() > 0,
        y.len() > 0,
        ends_run(after_x),
        ends_run(after_y),
    ensures
        natural_order(x + after_x, y + after_y, alnum_last) == (match number_order(
            number(x),
            number(y),
        ) {
            Ordering::Equal => natural_order(after_x, after_y, alnum_last),
            decided => decided,
        }),
{
    assert((x + after_x)[0] == x[0] && (y + after_y)[0] == y[0]);
    assert(ascii_digit(x[0]) && ascii_digit(y[0]));
    lemma_run_of_parts(x, after_x);
    lemma_run_of_parts(y, after_y);
}

/// What two streams have in common at their start does not count in natural
/// order, if there is no ASCII digit in it.
pub proof fn lemma_natural_order_skips_common_start(
    start: Seq<char>,
    a: Seq<char>,
    b: Seq<char>,
    alnum_last: bool,
)
    requires
        no_digits(start),
    ensures
        natural_order(start + a, start + b, alnum_last) == natural_order(a, b, alnum_last),
    decreases start.len(),
{
    if start.len() == 0 {
        assert(start + a =~= a);
        assert(start + b =~= b);
    } else {
        let rest = start.drop_first();
        assert forall|i: int| 0 <= i < rest.len() implies !ascii_digit(#[trigger] rest[i]) by {
            assert(rest[i] == start[i + 1]);
        }
        lemma_natural_order_skips_common_start(rest, a, b, alnum_last);
        assert((start + a)[0] == start[0] && (start + b)[0] == start[0]);
        assert(!ascii_digit(start[0]));
        assert((start + a).drop_first() =~= rest + a);
        assert((start + b).drop_first() =~= rest + b);
    }
}

/// Where neither stream holds an ASCII digit, the natural order is the order
/// character by character.
pub proof fn lemma_natural_order_without_digits(a: Seq<char>, b: Seq<char>, alnum_last: bool)
    requires
        no_digits(a),
        no_digits(b),
    ensures
        natural_order(a, b, alnum_last) == seq_order(a, b, alnum_last),
    decreases a.len(),
{
    if a.len() > 0 && b.len() > 0 {
        assert(!ascii_digit(a[0]) && !ascii_digit(b[0]));
        if a[0] == b[0] {
            assert forall|i: int| 0 <= i < a.drop_first().len() implies !ascii_digit(
                #[trigger] a.drop_first()[i],
            ) by {
                assert(a.drop_first()[i] == a[i + 1]);
            }
            assert forall|i: int| 0 <= i < b.drop_first().len() implies !ascii_digit(
                #[trigger] b.drop_first()[i],
            ) by {
                assert(b.drop_first()[i] == b[i + 1]);
            }
            lemma_natural_order_without_digits(a.drop_first(), b.drop_first(), alnum_last);
        }
    }
}

/// Where alphanumeric characters come last, a stream that begins with a
/// character that is not alphanumeric comes before one that begins with an
/// alphanumeric character, whatever their code points.
pub proof fn lemma_alnum_comes_last(a: Seq<char>, b: Seq<char>)
    requires
        a.len() > 0,
        b.len() > 0,
        !alphanumeric(a[0]),
        alphanumeric(b[0]),
    ensures
        seq_order(a, b, true) == Ordering::Less,
        seq_order(b, a, true) == Ordering::Greater,
        !ascii_digit(a[0]) ==> natural_order(a, b, true) == Ordering::Less,
        !ascii_digit(a[0]) ==> natural_order(b, a, true) == Ordering::Greater,
{
    lemma_natural_order_antisymmetric(a, b, true);
}

/// A lexical comparison does not tell the case of ASCII letters apart: a
/// character contributes what the character in ASCII lower case does.
pub proof fn lemma_lexical_char_ignores_case(c: char, only_alnum: bool)
    ensures
        lexical_char(ascii_lowercase(c), only_alnum) == lexical_char(c, only_alnum),
{
    assert(ascii_lowercase(ascii_lowercase(c)) == ascii_lowercase(c));
}

/// A lexical comparison does not tell the case of ASCII letters apart: a text
/// contributes what the text in ASCII lower case does. Such texts are told
/// apart by their code points alone.
pub proof fn lemma_lexical_ignores_case(text: Seq<char>, only_alnum: bool)
    ensures
        units(text.map_values(|c: char| ascii_lowercase(c)), true, only_alnum) == units(
            text,
            true,
            only_alnum,
        ),
    decreases text.len(),
{
    let lower = text.map_values(|c: char| ascii_lowercase(c));
    if text.len() > 0 {
        lemma_lexical_ignores_case(text.drop_first(), only_alnum);
        lemma_lexical_char_ignores_case(text[0], only_alnum);
        assert(lower.drop_first() =~= text.drop_first().map_values(|c: char| ascii_lowercase(c)));
    }
}

/// Two texts that are the same but for the case of ASCII letters are, in a
/// lexical comparison, in the order of their code points.
pub proof fn lemma_case_goes_by_code_points(lhs: Seq<char>, rhs: Seq<char>, axes: Axes)
    requires
        axes.lexical,
        lhs.map_values(|c: char| ascii_lowercase(c)) == rhs.map_values(
            |c: char| ascii_lowercase(c),
        ),
    ensures
        text_order(lhs, rhs, axes) == seq_order(lhs, rhs, false),
{
    lemma_lexical_ignores_case(lhs, axes.only_alnum);
    lemma_lexical_ignores_case(rhs, axes.only_alnum);
    lemma_same_stream_goes_by_code_points(lhs, rhs, axes);
}

/// A character that contributes nothing can be put into a text, or taken out
/// of it, and what the text contributes stays the same.
pub proof fn lemma_silent_char(
    before: Seq<char>,
    c: char,
    after: Seq<char>,
    lexical: bool,
    only_alnum: bool,
)
    requires
        unit(c, lexical, only_alnum).len() == 0,
    ensures
        units(before + seq![c] + after, lexical, only_alnum) == units(
            before + after,
            lexical,
            only_alnum,
        ),
{
    lemma_units_concat(before + seq![c], after, lexical, only_alnum);
    lemma_units_concat(before, seq![c], lexical, only_alnum);
    lemma_units_concat(before, after, lexical, only_alnum);
    assert(seq![c].drop_first().len() == 0);
    assert(units(seq![c].drop_first(), lexical, only_alnum).len() == 0);
    assert(seq![c][0] == c);
    assert(units(seq![c], lexical, only_alnum) =~= unit(c, lexical, only_alnum));
    assert(units(before, lexical, only_alnum) + unit(c, lexical, only_alnum) =~= units(
        before,
        lexical,
        only_alnum,
    ));
}

/// Where only alphanumeric characters count, a character that is none
/// contributes nothing: in a lexical comparison an ASCII character that is
/// neither letter nor digit and a character outside ASCII that is not
/// alphanumeric, in the others a character that is not alphanumeric. Such a
/// character can stand anywhere in a text, or be missing, and the compared
/// streams are the same.
pub proof fn lemma_only_alnum_skips(
    before: Seq<char>,
    c: char,
    after: Seq<char>,
    lexical: bool,
)
    requires
        if lexical && ascii(c) {
            !ascii_alphanumeric(c)
        } else {
            !alphanumeric(c)
        },
    ensures
        unit(c, lexical, true) == Seq::<char>::empty(),
        units(before + seq![c] + after, lexical, true) == units(before + after, lexical, true),
{
    lemma_silent_char(before, c, after, lexical, true);
}

} // verus!
