use lexical_sort::cmp::{
    alnum_last_cmp, cmp_ascii_digits, codepoint_cmp, facing_digit_cmp, ret_ordering, reverse,
};
use lexical_sort::iter::{iterate_lexical, iterate_lexical_only_alnum, CharStream};
use std::cmp::Ordering;

fn rest(stream: &mut CharStream<'_>) -> String {
    let mut out = String::new();
    while let Some(c) = stream.next() {
        out.push(c);
    }
    out
}

#[test]
fn a_stream_yields_what_the_text_contributes() {
    assert_eq!(rest(&mut CharStream::new("Hello, Wörld!", false, false)), "Hello, Wörld!");
    assert_eq!(rest(&mut CharStream::new("Hello, Wörld!", false, true)), "HelloWörld");
    assert_eq!(rest(&mut CharStream::new("Hello, Wörld!", true, false)), "hello, world!");
    assert_eq!(rest(&mut CharStream::new("Hello, Wörld!", true, true)), "helloworld");
    assert_eq!(rest(&mut iterate_lexical("Hello, Wörld!")), "hello, world!");
    assert_eq!(rest(&mut iterate_lexical_only_alnum("Hello, Wörld!")), "helloworld");
    assert_eq!(rest(&mut iterate_lexical("")), "");
    assert_eq!(rest(&mut iterate_lexical("\u{300}\u{301}")), "");
    assert_eq!(rest(&mut iterate_lexical_only_alnum("-- !! --")), "");
    assert_eq!(rest(&mut CharStream::new("-- !! --", false, true)), "");
}

#[test]
fn a_stream_stays_at_its_end() {
    let mut stream = iterate_lexical("ß");
    assert_eq!(stream.next(), Some('s'));
    assert_eq!(stream.next(), Some('s'));
    assert_eq!(stream.next(), None);
    assert_eq!(stream.next(), None);
    assert_eq!(stream.peek(), None);
    assert_eq!(stream.next(), None);
}

#[test]
fn peek_takes_nothing() {
    let mut stream = iterate_lexical("Æ!b");
    assert_eq!(stream.peek(), Some('a'));
    assert_eq!(stream.peek(), Some('a'));
    assert_eq!(stream.next(), Some('a'));
    assert_eq!(stream.next(), Some('e'));
    assert_eq!(stream.peek(), Some('!'));
    assert_eq!(stream.next(), Some('!'));
    assert_eq!(stream.peek(), Some('b'));
    assert_eq!(rest(&mut stream), "b");
    assert_eq!(stream.peek(), None);

    let mut stream = iterate_lexical_only_alnum("- -x");
    assert_eq!(stream.peek(), Some('x'));
    assert_eq!(stream.next(), Some('x'));
    assert_eq!(stream.peek(), None);
}

#[test]
fn orders_of_characters() {
    assert_eq!(codepoint_cmp('a', 'b'), Ordering::Less);
    assert_eq!(codepoint_cmp('b', 'a'), Ordering::Greater);
    assert_eq!(codepoint_cmp('a', 'a'), Ordering::Equal);
    assert_eq!(codepoint_cmp('Z', 'a'), Ordering::Less);
    assert_eq!(codepoint_cmp('z', 'ä'), Ordering::Less);

    assert_eq!(reverse(Ordering::Less), Ordering::Greater);
    assert_eq!(reverse(Ordering::Equal), Ordering::Equal);
    assert_eq!(reverse(Ordering::Greater), Ordering::Less);

    assert_eq!(alnum_last_cmp('!', false, 'a', true), Ordering::Less);
    assert_eq!(alnum_last_cmp('a', true, '!', false), Ordering::Greater);
    assert_eq!(alnum_last_cmp('~', false, 'a', true), Ordering::Less);
    assert_eq!(alnum_last_cmp('a', true, 'b', true), Ordering::Less);
    assert_eq!(alnum_last_cmp('b', true, 'a', true), Ordering::Greater);
    assert_eq!(alnum_last_cmp('!', false, '~', false), Ordering::Less);
    assert_eq!(alnum_last_cmp('a', true, 'a', true), Ordering::Equal);

    assert_eq!(ret_ordering('!', 'a'), Ordering::Less);
    assert_eq!(ret_ordering('~', 'a'), Ordering::Less);
    assert_eq!(ret_ordering('a', '~'), Ordering::Greater);
    assert_eq!(ret_ordering('~', '0'), Ordering::Less);
    assert_eq!(ret_ordering('a', 'b'), Ordering::Less);
    assert_eq!(ret_ordering('~', '!'), Ordering::Greater);
    assert_eq!(ret_ordering('€', 'é'), Ordering::Less);

    assert_eq!(facing_digit_cmp(None, true), Ordering::Greater);
    assert_eq!(facing_digit_cmp(None, false), Ordering::Less);
    assert_eq!(facing_digit_cmp(Some(Ordering::Equal), true), Ordering::Less);
    assert_eq!(facing_digit_cmp(Some(Ordering::Greater), true), Ordering::Less);
    assert_eq!(facing_digit_cmp(Some(Ordering::Less), false), Ordering::Less);
}

fn digits(lhs: &str, rhs: &str) -> (Option<Ordering>, String, String) {
    let mut a = CharStream::new(lhs, false, false);
    let mut b = CharStream::new(rhs, false, false);
    let verdict = cmp_ascii_digits(&mut a, &mut b);
    (verdict, rest(&mut a), rest(&mut b))
}

#[test]
fn digits_in_step() {
    // No digits on both sides: nothing is decided and nothing taken.
    assert_eq!(digits("ab", "cd"), (None, "ab".to_string(), "cd".to_string()));
    assert_eq!(digits("", ""), (None, String::new(), String::new()));
    // Runs of one length: the first pair that differs decides.
    assert_eq!(digits("12a", "13b"), (Some(Ordering::Less), "a".to_string(), "b".to_string()));
    assert_eq!(digits("21a", "13b"), (Some(Ordering::Greater), "a".to_string(), "b".to_string()));
    assert_eq!(digits("12a", "12b"), (Some(Ordering::Equal), "a".to_string(), "b".to_string()));
    assert_eq!(digits("12", "12"), (Some(Ordering::Equal), String::new(), String::new()));
    assert_eq!(digits("19", "20"), (Some(Ordering::Less), String::new(), String::new()));
    // The longer run wins, and one more character is taken from each side.
    assert_eq!(digits("9a", "10b"), (Some(Ordering::Less), String::new(), "b".to_string()));
    assert_eq!(digits("10b", "9a"), (Some(Ordering::Greater), "b".to_string(), String::new()));
    assert_eq!(digits("9", "10"), (Some(Ordering::Less), String::new(), String::new()));
    assert_eq!(digits("123", "12"), (Some(Ordering::Greater), String::new(), String::new()));
    // A digit against a character that is none.
    assert_eq!(digits("a", "1"), (Some(Ordering::Greater), String::new(), String::new()));
    assert_eq!(digits("1", "a"), (Some(Ordering::Less), String::new(), String::new()));
    assert_eq!(digits("-x", "1y"), (Some(Ordering::Less), "x".to_string(), "y".to_string()));
    assert_eq!(digits("1y", "-x"), (Some(Ordering::Greater), "y".to_string(), "x".to_string()));
    // One side at its end.
    assert_eq!(digits("", "a"), (Some(Ordering::Less), String::new(), String::new()));
    assert_eq!(digits("ab", ""), (Some(Ordering::Greater), "b".to_string(), String::new()));
    assert_eq!(digits("1", "1a"), (Some(Ordering::Less), String::new(), String::new()));
    assert_eq!(digits("1a", "1"), (Some(Ordering::Greater), String::new(), String::new()));
    // Two runs of one length that differ decide, whatever follows.
    assert_eq!(digits("1a", "2"), (Some(Ordering::Less), "a".to_string(), String::new()));
    assert_eq!(digits("2", "1a"), (Some(Ordering::Greater), String::new(), "a".to_string()));
    assert_eq!(digits("2a", "1"), (Some(Ordering::Greater), "a".to_string(), String::new()));
}

#[test]
fn zeros_in_front_of_two_runs_are_left_out() {
    assert_eq!(digits("007", "10"), (Some(Ordering::Less), String::new(), String::new()));
    assert_eq!(digits("10", "007"), (Some(Ordering::Greater), String::new(), String::new()));
    assert_eq!(digits("007a", "7b"), (Some(Ordering::Equal), "a".to_string(), "b".to_string()));
    assert_eq!(digits("00a", "0b"), (Some(Ordering::Equal), "a".to_string(), "b".to_string()));
    assert_eq!(digits("0012", "012"), (Some(Ordering::Equal), String::new(), String::new()));
    assert_eq!(digits("00", "0"), (Some(Ordering::Equal), String::new(), String::new()));
    assert_eq!(digits("000", "0000"), (Some(Ordering::Equal), String::new(), String::new()));
    assert_eq!(digits("0", "5"), (Some(Ordering::Less), String::new(), String::new()));
    assert_eq!(digits("0a", "05"), (Some(Ordering::Less), String::new(), String::new()));
    assert_eq!(digits("0", "00x"), (Some(Ordering::Less), String::new(), String::new()));
    // One run alone keeps its zeros.
    assert_eq!(digits("0x", "a"), (Some(Ordering::Less), "x".to_string(), String::new()));
    assert_eq!(digits("a0", "a00"), (None, "a0".to_string(), "a00".to_string()));
}
