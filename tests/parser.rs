use parser_combinator::{and_then, any_of, choice, pchar, pstring, Action, Parsed, Parser};

#[test]
fn char_parse() {
    let parse_a = pchar('a');
    let result = parse_a.parse("a");
    assert_eq!(result, Result::Ok((Parsed::Char('a'), "")));
}

#[test]
fn char_parse_with_remaining() {
    let parse_a = pchar('a');
    let result = parse_a.parse("ab");
    assert_eq!(result, Result::Ok((Parsed::Char('a'), "b")));
}

#[test]
fn str_parse() {
    let parse_hello = pstring("hello");
    let result = parse_hello.parse("hello");
    assert_eq!(result, Result::Ok((Parsed::Text("hello".to_string()), "")));
}

#[test]
fn str_parse_with_remaining() {
    let parse_hello = pstring("hello");
    let result = parse_hello.parse("helloworld");
    assert_eq!(result, Result::Ok((Parsed::Text("hello".to_string()), "world")));
}

#[test]
fn or_a() {
    let parse_a = pchar('a');
    let parse_b = pchar('b');
    let parser = parse_a.or(parse_b);
    let result = parser.parse("a");
    assert_eq!(result, Result::Ok((Parsed::Char('a'), "")));
}

#[test]
fn or_b() {
    let parse_a = pchar('a');
    let parse_b = pchar('b');
    let parser = parse_a.or(parse_b);
    let result = parser.parse("b");
    assert_eq!(result, Result::Ok((Parsed::Char('b'), "")));
}

#[test]
fn a_then_b() {
    let parse_a = pchar('a');
    let parse_b = pchar('b');
    let parser = and_then(parse_a, parse_b);
    let result = parser.parse("ab");
    assert_eq!(
        result,
        Result::Ok((Parsed::Pair(Box::new(Parsed::Char('a')), Box::new(Parsed::Char('b'))), ""))
    );
}

#[test]
fn simple_choice() {
    let parse_a = pchar('a');
    let parse_b = pchar('b');
    let parse_c = pchar('c');

    let parsers = vec![parse_a, parse_b, parse_c];
    let choice_parser = choice(parsers);
    let result = choice_parser.parse("c");
    assert_eq!(result, Result::Ok((Parsed::Char('c'), "")));
}

#[test]
fn any_of_test() {
    let parsers = vec!['1', '2', '3'];
    let choice_parser = any_of(&parsers);
    let result = choice_parser.parse("3");
    assert_eq!(result, Result::Ok((Parsed::Char('3'), "")));
}

#[test]
fn map_parser_test() {
    let true_parser = pchar('t');
    let false_parser = pchar('f');

    let true_parser = true_parser.map(Action::Bool(true));
    let false_parser = false_parser.map(Action::Bool(false));

    let true_result = true_parser.parse("t");
    let false_result = false_parser.parse("f");
    assert_eq!(true_result, Result::Ok((Parsed::Bool(true), "")));
    assert_eq!(false_result, Result::Ok((Parsed::Bool(false), "")));
}

#[test]
fn option_parser_test() {
    let true_parser = pchar('t');
    let true_option_parser = true_parser.optional();
    let true_result = true_option_parser.parse("t");

    assert_eq!(true_result, Result::Ok((Parsed::Maybe(Some(Box::new(Parsed::Char('t')))), "")));
}

#[test]
fn option_parser_test_negative() {
    let true_parser = pchar('t');
    let true_option_parser = true_parser.optional();
    let true_result = true_option_parser.parse("-t");

    assert_eq!(true_result, Result::Ok((Parsed::Maybe(None), "-t")));
}

#[test]
fn test_arbitrary_string() {
    let mut allowed_chars = Vec::new();
    for c in "abcdefghijklmnopqrstuvwxyzABCDEFGHIJKLMNOPQRSTUVWXYZ".chars() {
        allowed_chars.push(c);
    }
    let chars = any_of(&allowed_chars).many();

    let stringified = chars.map(Action::Collect);

    let result = stringified.parse("SomeValue A");

    assert_eq!(result, Result::Ok((Parsed::Text("SomeValue".to_string()), " A")));
}

#[test]
fn char_fails_on_empty_and_other_input() {
    assert_eq!(pchar('a').parse(""), Err(()));
    assert_eq!(pchar('a').parse("ba"), Err(()));
}

#[test]
fn string_fails_on_a_prefix_of_it() {
    assert_eq!(pstring("hello").parse("hell"), Err(()));
}

#[test]
fn sequence_fails_when_second_part_fails() {
    let parser = and_then(pchar('a'), pchar('b'));
    assert_eq!(parser.parse("ac"), Err(()));
}

#[test]
fn choice_of_nothing_fails() {
    assert_eq!(choice(Vec::new()).parse("a"), Err(()));
}

#[test]
fn choice_prefers_the_first_matching_alternative() {
    let specific = pstring("while").map(Action::Bool(true));
    let general = any_of(&['w', 'h']).many1().map(Action::Collect);
    let parser = choice(vec![specific, general]);
    assert_eq!(parser.parse("while"), Ok((Parsed::Bool(true), "")));
}

#[test]
fn optional_failure_leaves_input_for_the_next_parser() {
    let parser = pchar('-').optional().and_then(pstring("12"));
    assert_eq!(
        parser.parse("12"),
        Ok((
            Parsed::Pair(Box::new(Parsed::Maybe(None)), Box::new(Parsed::Text("12".to_string()))),
            ""
        ))
    );
}

#[test]
fn many_matches_nothing_without_failing() {
    assert_eq!(pchar('a').many().parse("bbb"), Ok((Parsed::List(Vec::new()), "bbb")));
}

#[test]
fn many1_requires_one_match() {
    assert_eq!(pchar('a').many1().parse("bbb"), Err(()));
    assert_eq!(
        pchar('a').many1().parse("aab"),
        Ok((Parsed::List(vec![Parsed::Char('a'), Parsed::Char('a')]), "b"))
    );
}

#[test]
fn left_right_and_between_keep_the_middle() {
    let parser = pchar('x').between(pchar('('), pchar(')'));
    assert_eq!(parser.parse("(x)!"), Ok((Parsed::Char('x'), "!")));
    assert_eq!(pchar('a').left(pchar('b')).parse("ab"), Ok((Parsed::Char('a'), "")));
    assert_eq!(pchar('a').right(pchar('b')).parse("ab"), Ok((Parsed::Char('b'), "")));
}

#[test]
fn whitespace_variants() {
    assert_eq!(pchar('a').ws().parse("a \t\n\rb"), Ok((Parsed::Char('a'), "b")));
    assert_eq!(pchar('a').ws().parse("ab"), Ok((Parsed::Char('a'), "b")));
    assert_eq!(pchar('a').ws1().parse("ab"), Err(()));
    assert_eq!(pchar('a').ws1().parse("a  b"), Ok((Parsed::Char('a'), "b")));
}

#[test]
fn tag_labels_a_result() {
    assert_eq!(
        pchar('a').map(Action::Tag(7)).parse("a"),
        Ok((Parsed::Tagged(7, Box::new(Parsed::Char('a'))), ""))
    );
}
