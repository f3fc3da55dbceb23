use pcomb::alt::Alt;
use pcomb::class::{Char, ClassError};
use pcomb::lit::Lit;
use pcomb::parse::Parse;
use pcomb::rep::Rep;
use pcomb::sequence::Sequence;
use pcomb::state::State;

fn at(text: &str, offset: usize) -> State {
    State::new(text.to_string(), offset)
}

fn strings(items: &[&str]) -> Vec<String> {
    items.iter().map(|s| s.to_string()).collect()
}

#[test]
fn test_literal() {
    let hello = Lit::new("hello".to_string());
    assert_eq!(
        hello.parse(&State::new("hellofoobar".to_string(), 0)),
        Some((
            vec!["hello".to_string()],
            State::new("hellofoobar".to_string(), 5)
        ))
    );
    assert_eq!(hello.parse(&State::new("hellfoobar".to_string(), 0)), None,);
}

#[test]
fn test_char() {
    let digits = Char::new("0-9").unwrap();
    assert_eq!(
        digits.parse(&State::new("7a".to_string(), 0)),
        Some((vec!["7".to_string()], State::new("7a".to_string(), 1)))
    );
    assert_eq!(digits.parse(&State::new("a".to_string(), 0)), None);
}

#[test]
fn test_seq() {
    let cookie = Sequence::new(vec![
        Box::new(Char::new("0-9").unwrap()),
        Box::new(Char::new(" ").unwrap()),
        Box::new(Lit::new("cookie".to_string())),
    ]);
    assert_eq!(
        cookie.parse(&State::new("5 cookie".to_string(), 0)),
        Some((
            vec!["5".to_string(), " ".to_string(), "cookie".to_string()],
            State::new("5 cookie".to_string(), 8)
        ))
    );
    assert_eq!(cookie.parse(&State::new("5xcookie".to_string(), 0)), None);
}

#[test]
fn test_rep() {
    let two_or_more = Rep::new(Box::new(Char::new("g").unwrap()), 2);
    assert_eq!(
        two_or_more.parse(&State::new("gg".to_string(), 0)),
        Some((
            vec!["g".to_string(), "g".to_string()],
            State::new("gg".to_string(), 2)
        )),
    );
    assert_eq!(
        two_or_more.parse(&State::new("ggg".to_string(), 0)),
        Some((
            vec!["g".to_string(), "g".to_string(), "g".to_string()],
            State::new("ggg".to_string(), 3)
        )),
    );
    assert_eq!(two_or_more.parse(&State::new("g".to_string(), 0)), None);
}

#[test]
fn test_alt() {
    let either = Alt::new(vec![
        Box::new(Lit::new("foo".to_string())),
        Box::new(Lit::new("bar".to_string())),
    ]);
    assert_eq!(
        either.parse(&State::new("foo".to_string(), 0)),
        Some((vec!["foo".to_string()], State::new("foo".to_string(), 3))),
    );
    assert_eq!(
        either.parse(&State::new("bar".to_string(), 0)),
        Some((vec!["bar".to_string()], State::new("bar".to_string(), 3))),
    );
    assert_eq!(either.parse(&State::new("lol".to_string(), 0)), None);
}

#[test]
fn peek_gives_the_next_characters() {
    let state = at("hellofoobar", 5);
    assert_eq!(state.peek(0), "");
    assert_eq!(state.peek(1), "f");
    assert_eq!(state.peek(3), "foo");
    assert_eq!(state.peek(6), "foobar");
}

#[test]
fn peek_twice_gives_the_same() {
    let state = at("hellofoobar", 2);
    let first = state.peek(4);
    let second = state.peek(4);
    assert_eq!(first, "llof");
    assert_eq!(first, second);
    assert_eq!(state, at("hellofoobar", 2));
}

#[test]
fn peek_past_the_end_is_empty() {
    let state = at("abc", 1);
    assert_eq!(state.peek(2), "bc");
    assert_eq!(state.peek(3), "");
    assert_eq!(at("abc", 3).peek(1), "");
    assert_eq!(at("abc", 3).peek(0), "");
    assert_eq!(at("abc", 7).peek(0), "");
    assert_eq!(at("abc", 7).peek(1), "");
    assert_eq!(at("", 0).peek(1), "");
}

#[test]
fn peek_with_huge_counts_is_empty() {
    assert_eq!(at("abc", usize::MAX).peek(1), "");
    assert_eq!(at("abc", usize::MAX).peek(usize::MAX), "");
    assert_eq!(at("abc", 1).peek(usize::MAX), "");
}

#[test]
fn peek_counts_characters() {
    let state = at("h\u{e9}llo w\u{f6}rld", 1);
    assert_eq!(state.peek(1), "\u{e9}");
    assert_eq!(state.peek(4), "\u{e9}llo");
    assert_eq!(at("h\u{e9}llo w\u{f6}rld", 7).peek(4), "\u{f6}rld");
    assert_eq!(at("h\u{e9}llo w\u{f6}rld", 7).peek(5), "");
}

#[test]
fn read_moves_on_over_the_same_text() {
    let state = at("hello", 1);
    assert_eq!(state.read(3), at("hello", 4));
    assert_eq!(state.read(0), state);
    assert_eq!(state.read(10), at("hello", 11));
    assert_eq!(state, at("hello", 1));
}

#[test]
fn cursors_are_equal_by_text_and_offset() {
    assert_eq!(at("abc", 1), at("abc", 1));
    assert_ne!(at("abc", 1), at("abc", 2));
    assert_ne!(at("abc", 1), at("abd", 1));
    assert_eq!(at("abc", 1).clone(), at("abc", 1));
}

#[test]
fn literal_in_the_middle_of_the_text() {
    let foo = Lit::new("foo".to_string());
    assert_eq!(
        foo.parse(&at("hellofoobar", 5)),
        Some((strings(&["foo"]), at("hellofoobar", 8)))
    );
    assert_eq!(foo.parse(&at("hellofoobar", 4)), None);
}

#[test]
fn literal_is_case_sensitive() {
    let hello = Lit::new("hello".to_string());
    assert_eq!(hello.parse(&at("Hello", 0)), None);
    assert_eq!(hello.parse(&at("HELLO", 0)), None);
}

#[test]
fn literal_past_the_end_fails() {
    let hello = Lit::new("hello".to_string());
    assert_eq!(hello.parse(&at("hell", 0)), None);
    assert_eq!(hello.parse(&at("hello", 1)), None);
    assert_eq!(hello.parse(&at("hello", 5)), None);
    assert_eq!(hello.parse(&at("hello", 99)), None);
    assert_eq!(hello.parse(&at("hello", usize::MAX)), None);
}

#[test]
fn empty_literal_matches_and_reads_nothing() {
    let nothing = Lit::new(String::new());
    assert_eq!(
        nothing.parse(&at("abc", 0)),
        Some((strings(&[""]), at("abc", 0)))
    );
    assert_eq!(
        nothing.parse(&at("abc", 3)),
        Some((strings(&[""]), at("abc", 3)))
    );
    assert_eq!(
        nothing.parse(&at("abc", 9)),
        Some((strings(&[""]), at("abc", 9)))
    );
}

#[test]
fn literal_with_wide_characters() {
    let word = Lit::new("\u{e9}t\u{e9}".to_string());
    assert_eq!(
        word.parse(&at("l'\u{e9}t\u{e9} indien", 2)),
        Some((strings(&["\u{e9}t\u{e9}"]), at("l'\u{e9}t\u{e9} indien", 5)))
    );
}

#[test]
fn class_on_no_input_fails() {
    let digits = Char::new("0-9").unwrap();
    assert_eq!(digits.parse(&at("", 0)), None);
    assert_eq!(digits.parse(&at("7", 1)), None);
    assert_eq!(digits.parse(&at("7", 5)), None);
    assert_eq!(digits.parse(&at("7", usize::MAX)), None);
}

#[test]
fn class_reads_one_character_only() {
    let digits = Char::new("0-9").unwrap();
    assert_eq!(
        digits.parse(&at("1234", 1)),
        Some((strings(&["2"]), at("1234", 2)))
    );
    let space = Char::new(" ").unwrap();
    assert_eq!(space.parse(&at("a b", 1)), Some((strings(&[" "]), at("a b", 2))));
    assert_eq!(space.parse(&at("a b", 0)), None);
}

#[test]
fn class_of_wide_characters() {
    let greek = Char::new("\u{3b1}-\u{3c9}").unwrap();
    assert_eq!(
        greek.parse(&at("x\u{3b2}y", 1)),
        Some((strings(&["\u{3b2}"]), at("x\u{3b2}y", 2)))
    );
    assert_eq!(greek.parse(&at("x\u{3b2}y", 2)), None);
}

#[test]
fn class_that_closes_its_own_bracket_is_an_error() {
    assert_eq!(Char::new("a]").err(), Some(ClassError::NotOneClass));
    assert_eq!(Char::new("a]*[b").err(), Some(ClassError::NotOneClass));
    assert_eq!(Char::new("a]|[b").err(), Some(ClassError::NotOneClass));
    assert_eq!(Char::new("-]").err(), Some(ClassError::NotOneClass));
    assert_eq!(Char::new("0-9]+").err(), Some(ClassError::NotOneClass));
    assert_eq!(Char::new("!-[]x").err(), Some(ClassError::NotOneClass));
    assert_eq!(Char::new("[a]]").err(), Some(ClassError::NotOneClass));
}

#[test]
fn class_with_brackets_inside() {
    let closing = Char::new("]").unwrap();
    assert_eq!(closing.parse(&at("]", 0)), Some((strings(&["]"]), at("]", 1))));
    assert_eq!(closing.parse(&at("a", 0)), None);
    let escaped = Char::new("a\\]b").unwrap();
    assert_eq!(escaped.parse(&at("]", 0)), Some((strings(&["]"]), at("]", 1))));
    let letters = Char::new("[:alpha:]_").unwrap();
    assert_eq!(letters.parse(&at("q", 0)), Some((strings(&["q"]), at("q", 1))));
    assert_eq!(letters.parse(&at("_", 0)), Some((strings(&["_"]), at("_", 1))));
    assert_eq!(letters.parse(&at("7", 0)), None);
    let consonants = Char::new("a-z--[aeiou]").unwrap();
    assert_eq!(consonants.parse(&at("k", 0)), Some((strings(&["k"]), at("k", 1))));
    assert_eq!(consonants.parse(&at("e", 0)), None);
    let not_closing = Char::new("^]").unwrap();
    assert_eq!(not_closing.parse(&at("]", 0)), None);
    assert_eq!(not_closing.parse(&at("x", 0)), Some((strings(&["x"]), at("x", 1))));
}

#[test]
fn class_that_does_not_compile_is_an_error() {
    assert!(Char::new("z-a").is_err());
    assert!(Char::new("").is_err());
    assert!(Char::new("\\").is_err());
    assert!(Char::new("a-z").is_ok());
    let reason = regex::Regex::new("[z-a]").err().unwrap();
    match Char::new("z-a") {
        Err(ClassError::Rejected(regex::Error::Syntax(message))) => {
            assert!(message.contains("invalid character class range"))
        }
        _ => panic!("a range that runs backwards must be a syntax error"),
    }
    assert_eq!(Char::new("z-a").err(), Some(ClassError::Rejected(reason)));
}

#[test]
fn class_error_in_words() {
    assert_eq!(
        ClassError::NotOneClass.message(),
        "the class is closed before its end"
    );
    let reason = regex::Regex::new("[z-a]").err().unwrap();
    assert_eq!(
        Char::new("z-a").err().unwrap().message(),
        reason.to_string()
    );
}

#[test]
fn empty_sequence_matches_and_reads_nothing() {
    let nothing = Sequence::new(Vec::new());
    assert_eq!(nothing.parse(&at("abc", 1)), Some((Vec::new(), at("abc", 1))));
    assert_eq!(nothing.parse(&at("", 0)), Some((Vec::new(), at("", 0))));
}

#[test]
fn sequence_gives_no_partial_result() {
    let ab = Sequence::new(vec![
        Box::new(Lit::new("a".to_string())),
        Box::new(Lit::new("b".to_string())),
    ]);
    assert_eq!(ab.parse(&at("ab", 0)), Some((strings(&["a", "b"]), at("ab", 2))));
    assert_eq!(ab.parse(&at("ac", 0)), None);
    assert_eq!(ab.parse(&at("a", 0)), None);
    assert_eq!(ab.parse(&at("ba", 0)), None);
}

#[test]
fn nested_sequences_give_a_flat_list() {
    let inner = Sequence::new(vec![
        Box::new(Lit::new("b".to_string())),
        Box::new(Lit::new("c".to_string())),
    ]);
    let outer = Sequence::new(vec![
        Box::new(Lit::new("a".to_string())),
        Box::new(inner),
        Box::new(Lit::new("d".to_string())),
    ]);
    assert_eq!(
        outer.parse(&at("abcd", 0)),
        Some((strings(&["a", "b", "c", "d"]), at("abcd", 4)))
    );
}

#[test]
fn repetition_without_a_minimum_matches_nothing() {
    let any = Rep::new(Box::new(Char::new("g").unwrap()), 0);
    assert_eq!(any.parse(&at("xyz", 0)), Some((Vec::new(), at("xyz", 0))));
    assert_eq!(any.parse(&at("", 0)), Some((Vec::new(), at("", 0))));
    assert_eq!(any.parse(&at("gg", 2)), Some((Vec::new(), at("gg", 2))));
    assert_eq!(any.parse(&at("gg", 9)), Some((Vec::new(), at("gg", 9))));
}

#[test]
fn repetition_is_greedy_and_stops_at_the_first_failure() {
    let some = Rep::new(Box::new(Char::new("g").unwrap()), 1);
    assert_eq!(
        some.parse(&at("gggxg", 0)),
        Some((strings(&["g", "g", "g"]), at("gggxg", 3)))
    );
    assert_eq!(some.parse(&at("xggg", 0)), None);
    assert_eq!(
        some.parse(&at("xggg", 2)),
        Some((strings(&["g", "g"]), at("xggg", 4)))
    );
}

#[test]
fn repetition_below_the_minimum_fails() {
    let three = Rep::new(Box::new(Lit::new("ab".to_string())), 3);
    assert_eq!(three.parse(&at("abab", 0)), None);
    assert_eq!(three.parse(&at("ababa", 0)), None);
    assert_eq!(
        three.parse(&at("ababab", 0)),
        Some((strings(&["ab", "ab", "ab"]), at("ababab", 6)))
    );
    assert_eq!(
        three.parse(&at("abababab!", 0)),
        Some((strings(&["ab", "ab", "ab", "ab"]), at("abababab!", 8)))
    );
}

#[test]
fn repetition_of_a_sequence() {
    let pair = Sequence::new(vec![
        Box::new(Char::new("a-z").unwrap()),
        Box::new(Char::new("0-9").unwrap()),
    ]);
    let pairs = Rep::new(Box::new(pair), 1);
    assert_eq!(
        pairs.parse(&at("a1b2c", 0)),
        Some((strings(&["a", "1", "b", "2"]), at("a1b2c", 4)))
    );
    assert_eq!(pairs.parse(&at("1a", 0)), None);
}

#[test]
fn alternation_takes_the_first_match_not_the_longest() {
    let short_first = Alt::new(vec![
        Box::new(Lit::new("a".to_string())),
        Box::new(Lit::new("ab".to_string())),
    ]);
    assert_eq!(
        short_first.parse(&at("ab", 0)),
        Some((strings(&["a"]), at("ab", 1)))
    );
    let long_first = Alt::new(vec![
        Box::new(Lit::new("ab".to_string())),
        Box::new(Lit::new("a".to_string())),
    ]);
    assert_eq!(
        long_first.parse(&at("ab", 0)),
        Some((strings(&["ab"]), at("ab", 2)))
    );
    assert_eq!(long_first.parse(&at("ac", 0)), Some((strings(&["a"]), at("ac", 1))));
}

#[test]
fn empty_alternation_fails() {
    let none = Alt::new(Vec::new());
    assert_eq!(none.parse(&at("abc", 0)), None);
    assert_eq!(none.parse(&at("", 0)), None);
}

#[test]
fn alternation_tries_every_branch_at_the_same_place() {
    let word = Alt::new(vec![
        Box::new(Sequence::new(vec![
            Box::new(Lit::new("foo".to_string())),
            Box::new(Lit::new("d".to_string())),
        ])),
        Box::new(Lit::new("foot".to_string())),
    ]);
    assert_eq!(
        word.parse(&at("a foot", 2)),
        Some((strings(&["foot"]), at("a foot", 6)))
    );
    assert_eq!(
        word.parse(&at("a food", 2)),
        Some((strings(&["foo", "d"]), at("a food", 6)))
    );
}

#[test]
fn parsing_changes_neither_matcher_nor_cursor() {
    let digits = Rep::new(Box::new(Char::new("0-9").unwrap()), 1);
    let state = at("42!", 0);
    let first = digits.parse(&state);
    let second = digits.parse(&state);
    assert_eq!(first, Some((strings(&["4", "2"]), at("42!", 2))));
    assert_eq!(first, second);
    assert_eq!(state, at("42!", 0));
}

#[test]
fn a_small_grammar() {
    let number = Rep::new(Box::new(Char::new("0-9").unwrap()), 1);
    let sign = Alt::new(vec![
        Box::new(Lit::new("+".to_string())),
        Box::new(Lit::new("-".to_string())),
        Box::new(Lit::new(String::new())),
    ]);
    let signed = Sequence::new(vec![Box::new(sign), Box::new(number)]);
    assert_eq!(
        signed.parse(&at("-120 ", 0)),
        Some((strings(&["-", "1", "2", "0"]), at("-120 ", 4)))
    );
    assert_eq!(
        signed.parse(&at("7", 0)),
        Some((strings(&["", "7"]), at("7", 1)))
    );
    assert_eq!(signed.parse(&at("+x", 0)), None);
}
