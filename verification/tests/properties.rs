use lexical_sort::iter::iterate_lexical;
use lexical_sort::{
    cmp, compare, lexical_cmp, lexical_only_alnum_cmp, natural_cmp, natural_lexical_cmp,
    natural_lexical_only_alnum_cmp, natural_only_alnum_cmp, only_alnum_cmp, Axes,
};
use std::cmp::Ordering;

const SAMPLES: [&str; 30] = [
    "", " ", "!", ".", "-", "_", "0", "00", "007", "1", "10", "100", "50", "a", "A", "aa", "AAb",
    "aaa", "ä", "äáa", "é", "ß", "ss", "Foo", "fóò", "T-5", "T5", "Ŧ-27", "a\u{300}", "北亰",
];

fn all() -> Vec<(&'static str, fn(&str, &str) -> Ordering)> {
    vec![
        ("cmp", cmp),
        ("only_alnum_cmp", only_alnum_cmp),
        ("lexical_cmp", lexical_cmp),
        ("lexical_only_alnum_cmp", lexical_only_alnum_cmp),
        ("natural_cmp", natural_cmp),
        ("natural_only_alnum_cmp", natural_only_alnum_cmp),
        ("natural_lexical_cmp", natural_lexical_cmp),
        ("natural_lexical_only_alnum_cmp", natural_lexical_only_alnum_cmp),
    ]
}

fn collect_lexical(s: &str) -> String {
    let mut stream = iterate_lexical(s);
    let mut out = String::new();
    while let Some(c) = stream.next() {
        out.push(c);
    }
    out
}

#[test]
fn exchanging_the_texts_reverses_the_result() {
    for (name, f) in all() {
        for a in SAMPLES {
            for b in SAMPLES {
                assert_eq!(f(b, a), f(a, b).reverse(), "{} on {:?} and {:?}", name, a, b);
            }
        }
    }
}

#[test]
fn only_a_text_and_itself_are_equal() {
    for (name, f) in all() {
        for a in SAMPLES {
            for b in SAMPLES {
                assert_eq!(f(a, b) == Ordering::Equal, a == b, "{} on {:?} and {:?}", name, a, b);
            }
        }
    }
}

#[test]
fn compare_agrees_with_the_named_functions() {
    let named: Vec<(Axes, fn(&str, &str) -> Ordering)> = vec![
        (Axes { lexical: false, natural: false, only_alnum: false }, cmp),
        (Axes { lexical: false, natural: false, only_alnum: true }, only_alnum_cmp),
        (Axes { lexical: true, natural: false, only_alnum: false }, lexical_cmp),
        (Axes { lexical: true, natural: false, only_alnum: true }, lexical_only_alnum_cmp),
        (Axes { lexical: false, natural: true, only_alnum: false }, natural_cmp),
        (Axes { lexical: false, natural: true, only_alnum: true }, natural_only_alnum_cmp),
        (Axes { lexical: true, natural: true, only_alnum: false }, natural_lexical_cmp),
        (Axes { lexical: true, natural: true, only_alnum: true }, natural_lexical_only_alnum_cmp),
    ];
    for (axes, f) in named {
        for a in SAMPLES {
            for b in SAMPLES {
                assert_eq!(compare(a, b, axes), f(a, b), "{:?} on {:?} and {:?}", axes, a, b);
            }
        }
    }
}

#[test]
fn texts_with_one_transliteration_are_told_apart() {
    assert_eq!(collect_lexical("Foo"), "foo");
    assert_eq!(collect_lexical("fóò"), "foo");
    assert_ne!(lexical_cmp("Foo", "fóò"), Ordering::Equal);
    // The code points decide: 'F' comes before 'f'.
    assert_eq!(lexical_cmp("Foo", "fóò"), Ordering::Less);
    assert_eq!(lexical_cmp("fóò", "Foo"), Ordering::Greater);
    assert_eq!(lexical_cmp("fóò", "fóò"), Ordering::Equal);
}

#[test]
fn digits_are_compared_as_numbers() {
    assert_eq!(natural_cmp("50", "100"), Ordering::Less);
    assert_eq!(
        natural_cmp("00000000000000000000", "18446744073709551616"),
        Ordering::Less
    );
    assert_eq!(natural_cmp("100", "50"), Ordering::Greater);
    assert_eq!(natural_cmp("50", "50"), Ordering::Equal);
    assert_eq!(cmp("50", "100"), Ordering::Greater);
    assert_eq!(natural_lexical_cmp("x50", "x100"), Ordering::Less);
    assert_eq!(
        natural_cmp("340282366920938463463374607431768211456", "340282366920938463463374607431768211457"),
        Ordering::Less
    );
}

#[test]
fn numbers_go_by_value() {
    let numbers: [u64; 12] = [0, 1, 2, 9, 10, 11, 19, 20, 99, 100, 101, 18446744073709551615];
    for x in numbers {
        for y in numbers {
            let a = x.to_string();
            let b = y.to_string();
            assert_eq!(natural_cmp(&a, &b), x.cmp(&y), "{} and {}", a, b);
            assert_eq!(natural_lexical_cmp(&a, &b), x.cmp(&y), "{} and {}", a, b);
            assert_eq!(natural_only_alnum_cmp(&a, &b), x.cmp(&y), "{} and {}", a, b);
            assert_eq!(natural_lexical_only_alnum_cmp(&a, &b), x.cmp(&y), "{} and {}", a, b);
        }
    }
}

#[test]
fn zeros_in_front_of_a_number_do_not_count() {
    let numbers: [u64; 8] = [0, 1, 7, 10, 70, 99, 100, 1000];
    let zeros = ["", "0", "00", "00000000000000000000"];
    for x in numbers {
        for y in numbers {
            if x == y {
                continue;
            }
            for p in zeros {
                for q in zeros {
                    let a = format!("{}{}", p, x);
                    let b = format!("{}{}", q, y);
                    assert_eq!(natural_cmp(&a, &b), x.cmp(&y), "{} and {}", a, b);
                    assert_eq!(natural_lexical_cmp(&a, &b), x.cmp(&y), "{} and {}", a, b);
                }
            }
        }
    }
    assert_eq!(natural_cmp("007", "10"), Ordering::Less);
    assert_eq!(natural_cmp("10", "007"), Ordering::Greater);
    assert_eq!(natural_cmp("x007y", "x10y"), Ordering::Less);
    assert_eq!(natural_cmp("0", "5"), Ordering::Less);
    assert_eq!(natural_cmp("000", "1"), Ordering::Less);
    // Without the natural order the characters decide.
    assert_eq!(cmp("007", "10"), Ordering::Less);
    assert_eq!(cmp("10", "007"), Ordering::Greater);
    assert_eq!(cmp("100", "007"), Ordering::Greater);
    assert_eq!(cmp("20", "100"), Ordering::Greater);
}

#[test]
fn texts_that_spell_one_number_go_by_code_point() {
    assert_eq!(natural_cmp("007", "7"), Ordering::Less);
    assert_eq!(natural_cmp("7", "007"), Ordering::Greater);
    assert_eq!(natural_cmp("0", "00"), Ordering::Less);
    assert_eq!(natural_cmp("a01b", "a1b"), Ordering::Less);
    assert_eq!(natural_cmp("a1b", "a01b"), Ordering::Greater);
    assert_eq!(natural_lexical_cmp("A01", "a1"), Ordering::Less);
    assert_eq!(natural_cmp("007", "007"), Ordering::Equal);
    // What follows the numbers comes before the zeros.
    assert_eq!(natural_cmp("7b", "007a"), Ordering::Greater);
    assert_eq!(natural_cmp("007a", "7b"), Ordering::Less);
}

#[test]
fn numbers_decide_before_what_follows_them() {
    assert_eq!(natural_cmp("1a", "2"), Ordering::Less);
    assert_eq!(natural_cmp("2", "1a"), Ordering::Greater);
    assert_eq!(natural_cmp("1a", "2b"), Ordering::Less);
    assert_eq!(natural_cmp("1z", "2a"), Ordering::Less);
    assert_eq!(natural_cmp("x9z", "x10"), Ordering::Less);
    assert_eq!(natural_cmp("1", "1a"), Ordering::Less);
    assert_eq!(natural_cmp("1b", "1a"), Ordering::Greater);
}

#[test]
fn the_longer_run_of_digits_is_greater() {
    assert_eq!(natural_cmp("1", "10"), Ordering::Less);
    assert_eq!(natural_cmp("9", "10"), Ordering::Less);
    assert_eq!(natural_cmp("9a", "10"), Ordering::Less);
    assert_eq!(natural_cmp("9", "10a"), Ordering::Less);
    assert_eq!(natural_cmp("x123", "x12y"), Ordering::Greater);
}

#[test]
fn punctuation_comes_before_letters_and_digits() {
    assert_eq!(lexical_cmp("!", "a"), Ordering::Less);
    assert_eq!(lexical_cmp("a", "!"), Ordering::Greater);
    assert_eq!(lexical_cmp("~", "a"), Ordering::Less);
    assert_eq!(lexical_cmp("~", "0"), Ordering::Less);
    assert_eq!(natural_lexical_cmp("~", "a"), Ordering::Less);
    assert_eq!(natural_lexical_cmp("~", "0"), Ordering::Less);
    // By code point '~' comes after both.
    assert_eq!(cmp("~", "a"), Ordering::Greater);
    assert_eq!(cmp("~", "0"), Ordering::Greater);
}

#[test]
fn separators_are_skipped_where_only_alphanumerics_count() {
    assert_eq!(lexical_only_alnum_cmp("T-21", "T22"), Ordering::Less);
    assert_eq!(lexical_only_alnum_cmp("T-21", "T3"), Ordering::Less);
    assert_eq!(natural_lexical_only_alnum_cmp("T3", "T-21"), Ordering::Less);
    assert_eq!(natural_only_alnum_cmp("T3", "T-21"), Ordering::Less);
    assert_eq!(only_alnum_cmp("a-b", "ac"), Ordering::Less);
    assert_eq!(cmp("a-b", "ac"), Ordering::Less);
    assert_eq!(only_alnum_cmp("a b", "a-b"), Ordering::Less);
}

#[test]
fn a_run_of_digits_that_ends_on_one_side_decides() {
    assert_eq!(natural_cmp("T-20a", "T-20b"), Ordering::Less);
    assert_eq!(natural_cmp("T-27", "T5"), Ordering::Less);
    assert_eq!(natural_cmp("T5", "T-27"), Ordering::Greater);
    assert_eq!(natural_cmp("a1", "aa"), Ordering::Less);
    assert_eq!(natural_cmp("a1b", "a12"), Ordering::Less);
    assert_eq!(natural_cmp("a12", "a1"), Ordering::Greater);
}

#[test]
fn case_counts_only_without_transliteration() {
    assert_eq!(lexical_cmp("aaa", "AAb"), Ordering::Less);
    assert_eq!(lexical_only_alnum_cmp("aaa", "AAb"), Ordering::Less);
    assert_eq!(natural_lexical_cmp("aaa", "AAb"), Ordering::Less);
    assert_eq!(cmp("AAb", "aaa"), Ordering::Less);
    assert_eq!(only_alnum_cmp("AAb", "aaa"), Ordering::Less);
    assert_eq!(natural_cmp("AAb", "aaa"), Ordering::Less);
    assert_eq!(cmp("B", "a"), Ordering::Less);
    assert_eq!(cmp("b", "ä"), Ordering::Less);
}

#[test]
fn sorting_end_to_end() {
    let expected = [".", "50", "100", "B!", "é", "hello", "ß", "world"];
    let mut strings = vec!["ß", "é", "100", "hello", "world", "50", ".", "B!"];
    strings.sort_by(|lhs, rhs| natural_lexical_cmp(lhs, rhs));
    assert_eq!(strings, expected);

    let mut reversed: Vec<&str> = expected.iter().rev().copied().collect();
    reversed.sort_unstable_by(|lhs, rhs| natural_lexical_cmp(lhs, rhs));
    assert_eq!(reversed, expected);
}

#[test]
fn degenerate_texts_are_ordered_too() {
    for (name, f) in all() {
        assert_eq!(f("", ""), Ordering::Equal, "{}", name);
        assert_eq!(f("", "a"), Ordering::Less, "{}", name);
        assert_eq!(f("a", ""), Ordering::Greater, "{}", name);
        // Nothing but combining marks.
        assert_eq!(f("\u{300}", "\u{300}\u{301}"), Ordering::Less, "{}", name);
        assert_eq!(f("\u{301}", "\u{300}"), Ordering::Greater, "{}", name);
        // Nothing but symbols.
        assert_eq!(f("!!", "?"), Ordering::Less, "{}", name);
        assert_eq!(f("?", "!!"), Ordering::Greater, "{}", name);
    }
    // Marks contribute nothing to a lexical comparison, so the code points decide.
    assert_eq!(lexical_cmp("\u{300}", ""), Ordering::Greater);
    assert_eq!(lexical_cmp("a\u{300}", "a"), Ordering::Greater);
    assert_eq!(lexical_cmp("a\u{300}", "b"), Ordering::Less);
}

#[test]
fn six_comparisons_are_transitive() {
    let transitive: Vec<(&str, fn(&str, &str) -> Ordering)> = vec![
        ("cmp", cmp),
        ("only_alnum_cmp", only_alnum_cmp),
        ("lexical_cmp", lexical_cmp),
        ("lexical_only_alnum_cmp", lexical_only_alnum_cmp),
        ("natural_only_alnum_cmp", natural_only_alnum_cmp),
        ("natural_lexical_cmp", natural_lexical_cmp),
    ];
    let texts = [
        "", "!", "~", "|", "0", "1", "1a", "1~", "2", "2b", "10", "007", "a", "a1", "a~", "A", "ǀ",
        "ǀ1", "é", "½", "1/2", "T-5", "T5",
    ];
    for (name, f) in transitive {
        for a in texts {
            for b in texts {
                if f(a, b) != Ordering::Less {
                    continue;
                }
                for c in texts {
                    if f(b, c) == Ordering::Less {
                        assert_eq!(f(a, c), Ordering::Less, "{}: {:?} {:?} {:?}", name, a, b, c);
                    }
                }
            }
        }
    }
}

#[test]
fn a_symbol_after_the_letters_breaks_transitivity_in_two_comparisons() {
    // A character that is not alphanumeric comes before a digit, a letter after it,
    // and '~' has a greater code point than 'a'.
    assert_eq!(natural_cmp("~", "1"), Ordering::Less);
    assert_eq!(natural_cmp("1", "a"), Ordering::Less);
    assert_eq!(natural_cmp("a", "~"), Ordering::Less);
    // The letter 'ǀ' is transliterated to '|'.
    assert_eq!(natural_lexical_only_alnum_cmp("ǀ", "1"), Ordering::Less);
    assert_eq!(natural_lexical_only_alnum_cmp("1", "a"), Ordering::Less);
    assert_eq!(natural_lexical_only_alnum_cmp("a", "ǀ"), Ordering::Less);
    // Where alphanumeric characters come last, the circle is broken.
    assert_eq!(natural_lexical_cmp("~", "1"), Ordering::Less);
    assert_eq!(natural_lexical_cmp("1", "a"), Ordering::Less);
    assert_eq!(natural_lexical_cmp("~", "a"), Ordering::Less);
}
