use parser::combinator::at_least;
use parser::combinator::complete;
use parser::combinator::literal;
use parser::combinator::many;
use parser::combinator::one_of;
use parser::combinator::skip_all_ws;
use parser::combinator::ParseError;
use parser::combinator::Parser;
use parser::config::key_equals_value;
use parser::config::parse_config;
use parser::config::parse_decimal;
use parser::config::ConfigKey;
use parser::grammar::newline;
use parser::grammar::non_ws_char;
use parser::grammar::parse_rules;
use parser::grammar::parse_symbol;
use parser::model::Decimal;
use parser::model::RenderConfigItem;
use parser::model::Rule;
use parser::parse;
use parser::to_parse_error;

#[test]
fn valid_renderer_config_is_parsed() {
    let input = r##"
        render:
        step = 40.5

        "##;
    let (config, _rest) = parse_config(input).unwrap();
    assert_eq!(config.step, Decimal::new(false, vec!['4', '0'], vec!['5']));
    assert_eq!(config.angle, Decimal::new(false, vec!['4', '5'], vec![]));
    assert_eq!(config.step_multiplier, Decimal::new(false, vec!['1'], vec!['5']));
}

#[test]
fn valid_rules_are_parsed() {
    let input = r##"
        A => BC [ [ +D D

        B=>AAA


        C   =>    DAD
        D=> ABC

        "##;
    let expected = vec![
        Rule::new('A', vec!['B', 'C', '[', '[', '+', 'D', 'D']),
        Rule::new('B', vec!['A', 'A', 'A']),
        Rule::new('C', vec!['D', 'A', 'D']),
        Rule::new('D', vec!['A', 'B', 'C']),
    ];
    let (actual, _rest) = parse_rules(input).unwrap();
    assert_eq!(expected, actual);
}

#[test]
fn literal_consumes_exactly_its_text() {
    let p = literal("ab");
    let (_, rest) = p.parse("abc").unwrap();
    assert_eq!(rest, "c");
    let (_, rest) = p.parse("ab").unwrap();
    assert_eq!(rest, "");
}

#[test]
fn literal_fails_without_prefix() {
    let p = literal("ab");
    assert_eq!(p.parse("axc").unwrap_err(), ParseError::ExpectingLiteral);
    assert_eq!(p.parse("a").unwrap_err(), ParseError::ExpectingLiteral);
    assert_eq!(p.parse("").unwrap_err(), ParseError::ExpectingLiteral);
}

#[test]
fn many_never_fails() {
    let p = many(parse_symbol());
    let (values, rest) = p.parse("").unwrap();
    assert!(values.is_empty());
    assert_eq!(rest, "");
    let (values, rest) = p.parse("AB \n").unwrap();
    assert_eq!(values, vec!['A', 'B']);
    assert_eq!(rest, " \n");
}

#[test]
fn at_least_propagates_the_stopping_error() {
    let p = at_least(3, parse_symbol());
    assert_eq!(p.parse("AB").unwrap_err(), ParseError::EndOfInput);
    let q = at_least(2, parse_symbol());
    assert_eq!(q.parse("A\nB").unwrap_err(), ParseError::ExpectingPredicate);
}

#[test]
fn one_of_returns_first_success() {
    let p = one_of(vec![literal("a"), literal("ab")]);
    let (_, rest) = p.parse("ab").unwrap();
    assert_eq!(rest, "b");
    let q = one_of(vec![literal("x"), literal("ab")]);
    let (_, rest) = q.parse("ab").unwrap();
    assert_eq!(rest, "");
    let r = one_of(vec![literal("x"), literal("y")]);
    assert_eq!(r.parse("ab").unwrap_err(), ParseError::ExpectingLiteral);
}

#[test]
fn complete_requires_full_consumption() {
    let p = complete(literal("ab"));
    assert!(p.parse("ab").is_ok());
    assert_eq!(p.parse("abc").unwrap_err(), ParseError::TrailingInput);
    assert_eq!(p.parse("x").unwrap_err(), ParseError::ExpectingLiteral);
}

#[test]
fn round_trip_rule_block() {
    let input = "A => BC[[+DD\nB=>AAA\nC   =>    DAD\nD=> ABC\n";
    let expected = vec![
        Rule::new('A', vec!['B', 'C', '[', '[', '+', 'D', 'D']),
        Rule::new('B', vec!['A', 'A', 'A']),
        Rule::new('C', vec!['D', 'A', 'D']),
        Rule::new('D', vec!['A', 'B', 'C']),
    ];
    let (rules, rest) = parse_rules(input).unwrap();
    assert_eq!(expected, rules);
    assert_eq!(rest, "");
}

#[test]
fn rule_missing_arrow_fails_with_expecting_literal() {
    assert_eq!(parse_rules("A BC\n").unwrap_err(), ParseError::ExpectingLiteral);
}

#[test]
fn rule_with_empty_replacement_fails() {
    assert_eq!(parse_rules("A=>\n").unwrap_err(), ParseError::ExpectingPredicate);
    assert_eq!(parse_rules("A=>").unwrap_err(), ParseError::EndOfInput);
}

#[test]
fn non_ws_char_rejects_whitespace_and_accepts_symbols() {
    assert_eq!(non_ws_char(" x").unwrap_err(), ParseError::ExpectingPredicate);
    assert_eq!(non_ws_char("\tx").unwrap_err(), ParseError::ExpectingPredicate);
    assert_eq!(non_ws_char("\nx").unwrap_err(), ParseError::ExpectingPredicate);
    assert_eq!(non_ws_char("").unwrap_err(), ParseError::EndOfInput);
    for s in ["[a", "]a", "+a", "-a", "Za", "0a", "~a"] {
        let (c, rest) = non_ws_char(s).unwrap();
        assert_eq!(c, s.chars().next().unwrap());
        assert_eq!(rest, &s[1..]);
    }
}

#[test]
fn newline_accepts_all_three_terminators() {
    let p = newline();
    assert_eq!(p.parse("\nX").unwrap().1, "X");
    assert_eq!(p.parse("\r\nX").unwrap().1, "X");
    assert_eq!(p.parse("\rX").unwrap().1, "X");
    assert_eq!(p.parse("X").unwrap_err(), ParseError::ExpectingLiteral);
}

#[test]
fn rules_accept_carriage_return_terminators() {
    let (rules, rest) = parse_rules("A=>B\r\nC=>D\r").unwrap();
    assert_eq!(rules.len(), 2);
    assert_eq!(rest, "");
}

#[test]
fn decimal_literals_are_parsed_exactly() {
    let p = parse_decimal();
    let (d, rest) = p.parse("40.5x").unwrap();
    assert_eq!(d, Decimal::new(false, vec!['4', '0'], vec!['5']));
    assert_eq!(rest, "x");
    let (d, rest) = p.parse("-3").unwrap();
    assert_eq!(d, Decimal::new(true, vec!['3'], vec![]));
    assert_eq!(rest, "");
    let (d, rest) = p.parse("+2.25").unwrap();
    assert_eq!(d, Decimal::new(false, vec!['2'], vec!['2', '5']));
    assert_eq!(rest, "");
    let (d, rest) = p.parse("7.").unwrap();
    assert_eq!(d, Decimal::new(false, vec!['7'], vec![]));
    assert_eq!(rest, ".");
    assert_eq!(p.parse("abc").unwrap_err(), ParseError::ExpectingNumber);
    assert_eq!(p.parse("-").unwrap_err(), ParseError::ExpectingNumber);
    assert_eq!(p.parse("").unwrap_err(), ParseError::ExpectingNumber);
}

#[test]
fn skip_all_ws_skips_every_whitespace_kind() {
    let (_, rest) = skip_all_ws(" \t\r\n  x y").unwrap();
    assert_eq!(rest, "x y");
    let (_, rest) = skip_all_ws("xy").unwrap();
    assert_eq!(rest, "xy");
    let (_, rest) = skip_all_ws("").unwrap();
    assert_eq!(rest, "");
}

#[test]
fn key_equals_value_parses_one_item() {
    let p = key_equals_value("step", ConfigKey::Step);
    let (item, rest) = p.parse("  step  =  12.5 rest").unwrap();
    match item {
        RenderConfigItem::Step(d) => {
            assert_eq!(d, Decimal::new(false, vec!['1', '2'], vec!['5']))
        },
        _ => panic!("expected a step item"),
    }
    assert_eq!(rest, " rest");
}

#[test]
fn config_items_override_defaults_in_order() {
    let input = "render: step=1.5 angle = 90 step_multiplier=2 step=3\nA=>B\n";
    let sys = parse(input).unwrap();
    assert_eq!(sys.render_config.step, Decimal::new(false, vec!['3'], vec![]));
    assert_eq!(sys.render_config.angle, Decimal::new(false, vec!['9', '0'], vec![]));
    assert_eq!(sys.render_config.step_multiplier, Decimal::new(false, vec!['2'], vec![]));
    assert_eq!(sys.rules.rules, vec![Rule::new('A', vec!['B'])]);
}

#[test]
fn parse_without_config_block_uses_defaults() {
    let sys = parse("A=>AB\nB=>A\n").unwrap();
    assert_eq!(sys.render_config.step, Decimal::new(false, vec!['2'], vec![]));
    assert_eq!(sys.render_config.angle, Decimal::new(false, vec!['4', '5'], vec![]));
    assert_eq!(sys.render_config.step_multiplier, Decimal::new(false, vec!['1'], vec!['5']));
    assert_eq!(
        sys.rules.rules,
        vec![Rule::new('A', vec!['A', 'B']), Rule::new('B', vec!['A'])]
    );
}

#[test]
fn parse_rejects_trailing_input() {
    assert_eq!(parse("A=>B\n ").unwrap_err(), ParseError::TrailingInput);
}

#[test]
fn parse_of_empty_input_fails_end_of_input() {
    assert_eq!(parse("").unwrap_err(), ParseError::EndOfInput);
}

#[test]
fn io_failures_map_to_the_io_error_kind() {
    let err = std::io::Error::new(std::io::ErrorKind::NotFound, "missing");
    assert_eq!(to_parse_error(err), ParseError::IO);
}
