use mini_parc::errors::simple_error::{ErrorParser, ParsingError};
use mini_parc::errors::ParsingErrorKind;
use mini_parc::inputs::Input;
use mini_parc::parsers::and_p::{
    run_sequence, KeepBothOutputs, KeepFirstOutputOnly, KeepSecondOutputOnly, OutputPolicy,
};
use mini_parc::parsers::map_p::{MapParser, TryMapParser};
use mini_parc::parsers::or_p::OrThenParser;
use mini_parc::parsers::repeat_p::RepeatParser;
use mini_parc::parsers::{ParseIf, ParseMatch, ParseWhile, ParseWhileOrNothing};
use mini_parc::traits::{Combinators, Parser};

#[test]
fn error_kept() {
    let pa = ParseWhile(|c: char| c.is_numeric())
        .and_then(ParseMatch("."))
        .combine(KeepFirstOutputOnly);
    let pb = ParseWhile(|c: char| c.is_numeric())
        .and_then(ParseMatch(",").and_then(ParseMatch(".")))
        .combine(KeepFirstOutputOnly);

    let err = pa.otherwise(pb).parse(&"123,".into()).unwrap_err();

    let pb = ParseWhile(|c: char| c.is_numeric())
        .and_then(ParseMatch(",").and_then(ParseMatch(".")))
        .combine(KeepFirstOutputOnly);
    let pbe = pb.parse(&"123,".into()).unwrap_err();
    assert_eq!(err, pbe);
}

#[test]
fn parse_many_strings() {
    let sp = ParseWhile(|c: char| c.is_alphabetic());
    let wp = ParseWhileOrNothing(|c: char| c.is_whitespace());
    let swp = wp.and_then(sp).combine(KeepSecondOutputOnly);
    let many_string_p = RepeatParser::new(swp);

    let (acc, rest) = many_string_p
        .parse(&"hello there this is a text".into())
        .unwrap();
    let exp = "hello there this is a text".split(' ').collect::<Vec<_>>();
    assert_eq!(acc, exp);
    assert!(rest.source.is_empty());

    let (acc, rest) = many_string_p.parse(&"hello".into()).unwrap();
    assert_eq!(acc, vec!["hello".to_string()]);
    assert!(rest.source.is_empty());

    assert!(many_string_p.parse(&"".into()).is_err())
}

#[test]
fn parse_many_with_limit() {
    let sp = ParseWhile(|c: char| c.is_alphabetic());
    let wp = ParseWhileOrNothing(|c: char| c.is_whitespace());
    let swp = wp.and_then(sp).combine(KeepSecondOutputOnly);
    let many_string_p = RepeatParser::new(swp).maxm(2);

    let (acc, rest) = many_string_p
        .parse(&"hello there this is a text".into())
        .unwrap();
    let exp = "hello there".split(' ').collect::<Vec<_>>();
    assert_eq!(acc, exp);
    assert_eq!(rest.source, " this is a text".to_string());
}

#[test]
fn sequence_returns_both_values_in_order() {
    let seq = ParseWhile(|c: char| c.is_numeric()).and_then(ParseMatch("px"));
    let ((number, unit), rest) = seq.parse(&"12px;".into()).unwrap();
    assert_eq!(number, "12".to_string());
    assert_eq!(unit, "px".to_string());
    assert_eq!(rest.col, 4);
    assert_eq!(rest.source, ";".to_string());
}

#[test]
fn sequence_stops_at_the_first_failure() {
    let seq = ParseMatch("a").and_then(ParseMatch("b"));
    let first = seq.parse(&"xb".into()).unwrap_err();
    assert_eq!(
        first,
        ParsingError::new(
            ParsingErrorKind::PatternNotFound("xb did not match pattern: a".to_string()),
            0,
            0
        )
    );
    let second = seq.parse(&"ax".into()).unwrap_err();
    assert_eq!(
        second,
        ParsingError::new(
            ParsingErrorKind::PatternNotFound("x did not match pattern: b".to_string()),
            0,
            1
        )
    );
}

#[test]
fn run_sequence_threads_the_input() {
    let first = ParseMatch("ab");
    let second = ParseIf(|c: char| c == 'c');
    let ((a, b), rest) = run_sequence(&first, &second, &"abcd".into()).unwrap();
    assert_eq!(a, "ab".to_string());
    assert_eq!(b, 'c');
    assert_eq!(rest.col, 3);
    assert_eq!(rest.source, "d".to_string());
}

#[test]
fn keep_second_drops_leading_whitespace() {
    let make = || {
        ParseWhileOrNothing(|c: char| c.is_whitespace())
            .and_then(ParseWhile(|c: char| c.is_alphabetic()))
            .combine(KeepSecondOutputOnly)
    };
    let (p, rest) = make().parse(&" hello".into()).unwrap();
    assert_eq!(p, "hello".to_string());
    assert_eq!(rest.col, 6);
    assert_eq!(rest.source, String::new());

    let (p, rest) = make().parse(&"hello".into()).unwrap();
    assert_eq!(p, "hello".to_string());
    assert_eq!(rest.col, 5);
    assert_eq!(rest.source, String::new());
}

#[test]
fn keep_first_drops_the_delimiter() {
    let item = ParseWhile(|c: char| c.is_numeric())
        .and_then(ParseMatch(";"))
        .combine(KeepFirstOutputOnly);
    let (p, rest) = item.parse(&"42;7".into()).unwrap();
    assert_eq!(p, "42".to_string());
    assert_eq!(rest.col, 3);
    assert_eq!(rest.source, "7".to_string());
}

#[test]
fn keep_both_returns_the_pair() {
    let pair = ParseMatch("a").and_then(ParseMatch("b")).combine(KeepBothOutputs);
    let ((a, b), rest) = pair.parse(&"abc".into()).unwrap();
    assert_eq!(a, "a".to_string());
    assert_eq!(b, "b".to_string());
    assert_eq!(rest.source, "c".to_string());
}

#[test]
fn policies_pick_their_value() {
    assert_eq!(KeepFirstOutputOnly.keep(1u8, 'x'), 1u8);
    assert_eq!(KeepSecondOutputOnly.keep(1u8, 'x'), 'x');
    assert_eq!(KeepBothOutputs.keep(1u8, 'x'), (1u8, 'x'));
}

#[test]
fn alternation_prefers_the_first_success() {
    let either = ParseMatch("ab").otherwise(ParseMatch("abc"));
    let (p, rest) = either.parse(&"abcd".into()).unwrap();
    assert_eq!(p, "ab".to_string());
    assert_eq!(rest.source, "cd".to_string());
}

#[test]
fn alternation_falls_back_to_the_second() {
    let either = ParseMatch("x").otherwise(ParseMatch("ab"));
    let (p, rest) = either.parse(&"abcd".into()).unwrap();
    assert_eq!(p, "ab".to_string());
    assert_eq!(rest.col, 2);
    assert_eq!(rest.source, "cd".to_string());
}

#[test]
fn alternation_tie_returns_the_first_failure() {
    let either = ParseMatch("x").otherwise(ParseMatch("y"));
    let err = either.parse(&"abc".into()).unwrap_err();
    assert_eq!(
        err,
        ParsingError::new(
            ParsingErrorKind::PatternNotFound("abc did not match pattern: x".to_string()),
            0,
            0
        )
    );
}

#[test]
fn alternation_returns_the_second_failure_where_it_went_further() {
    let either = ParseMatch("x").otherwise(ParseMatch("a").and_then(ParseMatch("z")).combine(KeepFirstOutputOnly));
    let err = either.parse(&"abc".into()).unwrap_err();
    assert_eq!(
        err,
        ParsingError::new(
            ParsingErrorKind::PatternNotFound("bc did not match pattern: z".to_string()),
            0,
            1
        )
    );
}

#[test]
fn alternation_keeps_the_first_failure_where_it_went_further() {
    let either = ParseMatch("a")
        .and_then(ParseMatch("z"))
        .combine(KeepFirstOutputOnly)
        .otherwise(ParseMatch("x"));
    let err = either.parse(&"abc".into()).unwrap_err();
    assert_eq!(
        err,
        ParsingError::new(
            ParsingErrorKind::PatternNotFound("bc did not match pattern: z".to_string()),
            0,
            1
        )
    );
}

#[test]
fn alternation_from_a_pair() {
    let either = OrThenParser::from((ParseMatch("x"), ParseMatch("a")));
    let (p, rest) = either.parse(&"ab".into()).unwrap();
    assert_eq!(p, "a".to_string());
    assert_eq!(rest.source, "b".to_string());
}

#[test]
fn repetition_defaults_and_bounds() {
    let repeat = RepeatParser::new(ParseMatch("a"));
    assert_eq!(repeat.lower_bound, 1);
    assert_eq!(repeat.upper_bound, None);
    let repeat = repeat.minm(3).maxm(5);
    assert_eq!(repeat.lower_bound, 3);
    assert_eq!(repeat.upper_bound, Some(5));
}

#[test]
fn repetition_below_the_lower_bound_fails_where_it_stopped() {
    let repeat = RepeatParser::new(ParseMatch("ab")).minm(3);
    let input = Input::new(0, 10, "ababx".to_string());
    let err = repeat.parse(&input).unwrap_err();
    assert_eq!(
        err,
        ParsingError::new(
            ParsingErrorKind::PatternNotFound(
                "Parser did not run the minum number of times".to_string()
            ),
            0,
            14
        )
    );
}

#[test]
fn repetition_with_lower_bound_zero_never_fails() {
    let repeat = RepeatParser::new(ParseMatch("a")).minm(0);
    let (acc, rest) = repeat.parse(&"xyz".into()).unwrap();
    assert_eq!(acc, Vec::<String>::new());
    assert_eq!(rest.col, 0);
    assert_eq!(rest.source, "xyz".to_string());

    let (acc, rest) = repeat.parse(&"aab".into()).unwrap();
    assert_eq!(acc, vec!["a".to_string(), "a".to_string()]);
    assert_eq!(rest.col, 2);
    assert_eq!(rest.source, "b".to_string());
}

#[test]
fn repetition_with_upper_bound_zero_runs_nothing() {
    let repeat = RepeatParser::new(ParseMatch("a")).minm(0).maxm(0);
    let (acc, rest) = repeat.parse(&"aaa".into()).unwrap();
    assert_eq!(acc, Vec::<String>::new());
    assert_eq!(rest.source, "aaa".to_string());
}

#[test]
fn repetition_meets_both_bounds() {
    let repeat = RepeatParser::new(ParseMatch("a")).minm(2).maxm(2);
    let (acc, rest) = repeat.parse(&"aaa".into()).unwrap();
    assert_eq!(acc, vec!["a".to_string(), "a".to_string()]);
    assert_eq!(rest.col, 2);
    assert_eq!(rest.source, "a".to_string());
    assert!(repeat.parse(&"ab".into()).is_err());
}

#[test]
fn unbounded_repetition_ends_at_an_empty_success() {
    let spaces = ParseWhileOrNothing(|c: char| c == ' ');
    let repeat = RepeatParser::new(spaces).minm(0);
    let (acc, rest) = repeat.parse(&"  x".into()).unwrap();
    assert_eq!(acc, vec!["  ".to_string()]);
    assert_eq!(rest.col, 2);
    assert_eq!(rest.source, "x".to_string());

    let repeat = RepeatParser::new(ParseWhileOrNothing(|c: char| c == ' '));
    assert!(repeat.parse(&"x".into()).is_err());
}

#[test]
fn bounded_repetition_keeps_empty_successes() {
    let spaces = ParseWhileOrNothing(|c: char| c == ' ');
    let repeat = RepeatParser::new(spaces).maxm(3);
    let (acc, rest) = repeat.parse(&" x".into()).unwrap();
    assert_eq!(acc, vec![" ".to_string(), String::new(), String::new()]);
    assert_eq!(rest.col, 1);
    assert_eq!(rest.source, "x".to_string());
}

#[test]
fn mapping_transforms_the_value() {
    let length = ParseWhile(|c: char| c.is_alphabetic()).with_mapping(|s: String| s.len());
    let (n, rest) = length.parse(&"hello world".into()).unwrap();
    assert_eq!(n, 5);
    assert_eq!(rest.col, 5);
    assert_eq!(rest.source, " world".to_string());
}

#[test]
fn mapping_passes_the_failure_on() {
    let length = MapParser { parser: ParseMatch("a"), mapping: |s: String| s.len() };
    let err = length.parse(&"b".into()).unwrap_err();
    assert_eq!(
        err,
        ParsingError::new(
            ParsingErrorKind::PatternNotFound("b did not match pattern: a".to_string()),
            0,
            0
        )
    );
}

#[test]
fn parse_and_then_map_applies_the_function() {
    let digits = ParseWhile(|c: char| c.is_numeric());
    let (n, rest) = digits
        .parse_and_then_map(&"12ab".into(), &|s: String| s.len() * 10)
        .unwrap();
    assert_eq!(n, 20);
    assert_eq!(rest.source, "ab".to_string());
}

#[test]
fn try_mapping_keeps_what_it_maps() {
    let number = ParseWhile(|c: char| c.is_numeric()).with_try_mapping(|s: String| s.parse::<u8>().ok());
    let (n, rest) = number.parse(&"200 ".into()).unwrap();
    assert_eq!(n, 200u8);
    assert_eq!(rest.col, 3);
    assert_eq!(rest.source, " ".to_string());
}

#[test]
fn try_mapping_fails_behind_what_was_consumed() {
    let number = TryMapParser {
        parser: ParseWhile(|c: char| c.is_numeric()),
        try_map: |s: String| s.parse::<u8>().ok(),
    };
    let input = Input::new(2, 4, "300 ".to_string());
    let err = number.parse(&input).unwrap_err();
    assert_eq!(
        err,
        ParsingError::new(
            ParsingErrorKind::MappingError("Parsing worked, but mapping failed".to_string()),
            2,
            7
        )
    );
}

#[test]
fn try_mapping_passes_the_inner_failure_on() {
    let number = ParseWhile(|c: char| c.is_numeric()).with_try_mapping(|s: String| s.parse::<u8>().ok());
    let err = number.parse(&"x".into()).unwrap_err();
    assert_eq!(
        err,
        ParsingError::new(
            ParsingErrorKind::PatternNotFound("no characters matched predicate".to_string()),
            0,
            0
        )
    );
}

#[test]
fn custom_error_replaces_the_kind_and_keeps_the_position() {
    let seq = ParseMatch("let ")
        .and_then(ParseWhile(|c: char| c.is_alphabetic()))
        .with_error("expected a name");
    let err = seq.parse(&"let 9".into()).unwrap_err();
    assert_eq!(
        err,
        ParsingError::new(ParsingErrorKind::CustomError("expected a name".to_string()), 0, 4)
    );
}

#[test]
fn custom_error_leaves_a_success_alone() {
    let wrapped = ErrorParser::new(ParseMatch("a"), "expected a");
    let (p, rest) = wrapped.parse(&"ab".into()).unwrap();
    assert_eq!(p, "a".to_string());
    assert_eq!(rest.col, 1);
    assert_eq!(rest.source, "b".to_string());
}

#[test]
fn a_composed_parser_gives_the_same_result_each_time() {
    let word = ParseWhileOrNothing(|c: char| c.is_whitespace())
        .and_then(ParseWhile(|c: char| c.is_alphabetic()))
        .combine(KeepSecondOutputOnly);
    let words = RepeatParser::new(word).maxm(3);
    let input = Input::new(0, 1, "ab cd ef gh".to_string());
    let (first, first_rest) = words.parse(&input).unwrap();
    let (second, second_rest) = words.parse(&input).unwrap();
    assert_eq!(first, vec!["ab".to_string(), "cd".to_string(), "ef".to_string()]);
    assert_eq!(first, second);
    assert_eq!(
        (first_rest.line, first_rest.col, first_rest.source),
        (second_rest.line, second_rest.col, second_rest.source)
    );
    assert_eq!(second_rest.col, 9);

    let bad = Input::new(0, 1, "12".to_string());
    assert_eq!(words.parse(&bad).unwrap_err(), words.parse(&bad).unwrap_err());
}
