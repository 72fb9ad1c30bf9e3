use netlist::chars::CharClass;
use netlist::error::{ErrorKind, Expected, ParseError};
use netlist::parser::component::{
    body, component, component_keyword, inside_const, inside_elm_const, inside_net_const,
    parameter, Component, Parameter, Parameters, Spans,
};
use netlist::parser::element::{
    com_cons, elements, equal, net_cons, Element, Numbers, UpperIdentifiers,
};
use netlist::parser::list::{items, list};
use netlist::parser::util::{
    concat_char_string, identifier, number_suffix, NumericLiteral, Suffix,
};
use netlist::tokenizer::Token;

fn letters(text: &str) -> Vec<char> {
    text.chars().collect()
}

fn upper_name(text: &str) -> Token {
    Token::UpperIdentifier(text.to_string())
}

fn lower_name(text: &str) -> Token {
    Token::LowerIdentifier(text.to_string())
}

fn literal(digits: &str, suffix: Suffix) -> NumericLiteral {
    NumericLiteral { digits: digits.to_string(), suffix }
}

fn apply_suffix(suffix: Suffix, n: f64) -> f64 {
    match suffix {
        Suffix::Pico => n * 1e-12,
        Suffix::Nano => n * 1e-9,
        Suffix::Micro => n * 1e-6,
        Suffix::Milli => n * 1e-3,
        Suffix::Kilo => n * 1e+3,
        Suffix::Mega => n * 1e+6,
        Suffix::Giga => n * 1e+9,
    }
}

fn value_of(literal: &NumericLiteral) -> f64 {
    apply_suffix(literal.suffix, literal.digits.parse().unwrap())
}

fn failure(kind: ErrorKind, offset: usize, context: &[&str]) -> ParseError {
    ParseError {
        kind,
        offset,
        fatal: !context.is_empty(),
        context: context.iter().map(|label| label.to_string()).collect(),
    }
}

#[test]
fn constructor_parser() {
    let input = letters("(  \t\nVo \t\n,  \t\nVi \t\n)");
    let (next, (found, _)) = inside_const(&input, 0).unwrap();
    assert_eq!(found, vec![upper_name("Vo"), upper_name("Vi")], "Remaining: {:?}", &input[next..]);
    assert_eq!(next, input.len());

    let input = letters("( \t\n )");
    let (next, (found, _)) = inside_const(&input, 0).unwrap();
    assert_eq!(found, vec![], "Remaining: {:?}", &input[next..]);
    assert_eq!(next, input.len());
}

#[test]
fn net_constructor_parser() {
    let input = letters("<  \t\nVo \t\n,  \t\nVi \t\n>");
    let (next, (found, _)) = inside_net_const(&input, 0).unwrap();
    assert_eq!(found, vec![upper_name("Vo"), upper_name("Vi")], "Remaining: {:?}", &input[next..]);
    assert_eq!(next, input.len());

    let input = letters("< \t\n >");
    let (next, (found, _)) = inside_net_const(&input, 0).unwrap();
    assert_eq!(found, vec![], "Remaining: {:?}", &input[next..]);
    assert_eq!(next, input.len());
}

#[test]
fn element() {
    let input = letters("\t r1 \n = \n Com");
    let (next, found) = elements(&input, 0).unwrap();
    assert_eq!(found, ("r1".to_string(), "Com".to_string()), "Remaining: {:?}", &input[next..]);
    assert_eq!(next, input.len());
}

#[test]
fn element_t() {
    let input = letters("r1 = R(10k)<N1, N2>");
    let (next, found) = netlist::parser::element::element(&input, 0).unwrap();
    assert_eq!(found.instance_name, lower_name("r1"), "Remaining: {:?}", &input[next..]);
    assert_eq!(
        found,
        Element {
            instance_name: lower_name("r1"),
            component: upper_name("R"),
            args: vec![literal("10", Suffix::Kilo)],
            nets: vec![upper_name("N1"), upper_name("N2")],
        }
    );
    assert_eq!(next, input.len());

    let input = letters("r1 \n= \t R ( 10k, 30m ) \n< N1 , \tN2 > \n");
    let (next, found) = netlist::parser::element::element(&input, 0).unwrap();
    assert_eq!(found.instance_name, lower_name("r1"), "Remaining: {:?}", &input[next..]);
    assert_eq!(
        found,
        Element {
            instance_name: lower_name("r1"),
            component: upper_name("R"),
            args: vec![literal("10", Suffix::Kilo), literal("30", Suffix::Milli)],
            nets: vec![upper_name("N1"), upper_name("N2")],
        }
    );
    assert_eq!(&input[next..], &[' ', '\n']);
}

#[test]
fn element_error() {
    let data = "r1 = R(10k)<N1 N2>";
    let input = letters(data);
    let result = netlist::parser::element::element(&input, 0);
    match &result {
        Err(e) => println!("{:?}", e),
        _ => println!("kir"),
    }
    assert_eq!(
        result,
        Err(failure(
            ErrorKind::UnbalancedDelimiter { close: '>', found: Some('N') },
            15,
            &["net constructor", "element r1"],
        ))
    );
}

#[test]
fn values_t() {
    let input = letters("100k");
    let (next, found) = number_suffix(&input, 0).unwrap();
    assert_eq!(value_of(&found), 100_000.0, "Remaining: {:?}", &input[next..]);
    assert_eq!(found, literal("100", Suffix::Kilo));
    assert_eq!(found.mantissa(), Some(100));
    assert_eq!(next, 4);
}

#[test]
fn ten_mega_is_ten_million() {
    let input = letters("10M");
    let (_, found) = number_suffix(&input, 0).unwrap();
    assert_eq!(value_of(&found), 10_000_000.0);
    assert_eq!(found.mantissa(), Some(10));
    assert_eq!(found.suffix.multiplier(), (1_000_000, 1));
}

#[test]
fn every_suffix_scales_by_its_power_of_ten() {
    let cases = [
        ('p', Suffix::Pico, -12, (1u64, 1_000_000_000_000u64)),
        ('n', Suffix::Nano, -9, (1, 1_000_000_000)),
        ('u', Suffix::Micro, -6, (1, 1_000_000)),
        ('m', Suffix::Milli, -3, (1, 1_000)),
        ('k', Suffix::Kilo, 3, (1_000, 1)),
        ('M', Suffix::Mega, 6, (1_000_000, 1)),
        ('G', Suffix::Giga, 9, (1_000_000_000, 1)),
    ];
    for (c, suffix, exponent, multiplier) in cases {
        assert_eq!(Suffix::from_char(c), Ok(suffix));
        assert_eq!(suffix.exponent(), exponent);
        assert_eq!(suffix.multiplier(), multiplier);
        let input = letters(&format!("47{}", c));
        assert_eq!(number_suffix(&input, 0), Ok((3, literal("47", suffix))));
    }
}

#[test]
fn unknown_suffix_is_an_error() {
    let input = letters("100x");
    assert_eq!(
        number_suffix(&input, 0),
        Err(failure(ErrorKind::UnknownSuffix { found: Some('x') }, 3, &[]))
    );
    assert_eq!(Suffix::from_char('x'), Err(ErrorKind::UnknownSuffix { found: Some('x') }));
    assert_eq!(Suffix::from_char('K'), Err(ErrorKind::UnknownSuffix { found: Some('K') }));
}

#[test]
fn a_number_without_a_suffix_is_an_error() {
    let input = letters("100");
    assert_eq!(
        number_suffix(&input, 0),
        Err(failure(ErrorKind::UnknownSuffix { found: None }, 3, &[]))
    );
}

#[test]
fn a_literal_needs_a_digit() {
    let input = letters("  k");
    assert_eq!(
        number_suffix(&input, 0),
        Err(failure(ErrorKind::LexError { class: CharClass::Digit, found: Some('k') }, 2, &[]))
    );
    let input = letters("");
    assert_eq!(
        number_suffix(&input, 0),
        Err(failure(ErrorKind::LexError { class: CharClass::Digit, found: None }, 0, &[]))
    );
}

#[test]
fn mantissa_is_checked() {
    assert_eq!(literal("0", Suffix::Kilo).mantissa(), Some(0));
    assert_eq!(literal("007", Suffix::Kilo).mantissa(), Some(7));
    assert_eq!(literal("18446744073709551615", Suffix::Kilo).mantissa(), Some(u64::MAX));
    assert_eq!(literal("18446744073709551616", Suffix::Kilo).mantissa(), None);
    assert_eq!(literal("99999999999999999999999", Suffix::Kilo).mantissa(), None);
    assert_eq!(literal("", Suffix::Kilo).mantissa(), None);
    assert_eq!(literal("1a", Suffix::Kilo).mantissa(), None);
}

#[test]
fn a_long_digit_run_is_kept_as_written() {
    let input = letters("123456789012345678901234567890G");
    let (next, found) = number_suffix(&input, 0).unwrap();
    assert_eq!(next, 31);
    assert_eq!(found, literal("123456789012345678901234567890", Suffix::Giga));
    assert_eq!(found.mantissa(), None);
}

#[test]
fn identifier_skips_white_space() {
    let input = letters(" \n\tabc1 ");
    assert_eq!(identifier(&input, 0), Ok((7, Token::Identifier("abc1".to_string()))));
    let input = letters("  9");
    assert_eq!(
        identifier(&input, 0),
        Err(failure(ErrorKind::LexError { class: CharClass::IdStart, found: Some('9') }, 2, &[]))
    );
}

#[test]
fn concat_char_string_puts_the_first_character_in_front() {
    assert_eq!(concat_char_string(('a', vec!['b', 'c'])), "abc");
    assert_eq!(concat_char_string(('_', vec![])), "_");
}

#[test]
fn empty_list_yields_no_items() {
    let input = letters("()");
    assert_eq!(
        list::<UpperIdentifiers>(&input, 0, '(', ')', "constructor"),
        Ok((2, (vec![], vec![])))
    );
}

#[test]
fn list_yields_its_items_whatever_the_white_space() {
    let expected = vec![upper_name("A"), upper_name("B")];
    let input = letters("( A , B )");
    assert_eq!(
        list::<UpperIdentifiers>(&input, 0, '(', ')', "constructor"),
        Ok((9, (expected.clone(), vec![2, 6])))
    );
    let input = letters("(A,B)");
    assert_eq!(
        list::<UpperIdentifiers>(&input, 0, '(', ')', "constructor"),
        Ok((5, (expected.clone(), vec![1, 3])))
    );
    let input = letters("\n(\n\tA\r\n,\n\n B\t)");
    assert_eq!(
        list::<UpperIdentifiers>(&input, 0, '(', ')', "constructor"),
        Ok((14, (expected, vec![4, 11])))
    );
}

#[test]
fn missing_separator_is_fatal_in_the_net_constructor() {
    let input = letters("<A B>");
    assert_eq!(
        list::<UpperIdentifiers>(&input, 0, '<', '>', "net constructor"),
        Err(failure(
            ErrorKind::UnbalancedDelimiter { close: '>', found: Some('B') },
            3,
            &["net constructor"],
        ))
    );
    assert_eq!(
        inside_net_const(&input, 0),
        Err(failure(
            ErrorKind::UnbalancedDelimiter { close: '>', found: Some('B') },
            3,
            &["net constructor"],
        ))
    );
}

#[test]
fn missing_opening_delimiter_is_recoverable() {
    let input = letters(" A, B)");
    assert_eq!(
        list::<UpperIdentifiers>(&input, 0, '(', ')', "constructor"),
        Err(failure(
            ErrorKind::SyntaxError { expected: Expected::Char('('), found: Some('A') },
            1,
            &[],
        ))
    );
}

#[test]
fn failures_behind_the_opening_delimiter_are_fatal() {
    let input = letters("(A, B");
    assert_eq!(
        inside_const(&input, 0),
        Err(failure(ErrorKind::UnbalancedDelimiter { close: ')', found: None }, 5, &["constructor"]))
    );
    let input = letters("(A,)");
    assert_eq!(
        inside_const(&input, 0),
        Err(failure(
            ErrorKind::LexError { class: CharClass::Upper, found: Some(')') },
            3,
            &["constructor"],
        ))
    );
    let input = letters("(a)");
    assert_eq!(
        inside_elm_const(&input, 0),
        Err(failure(
            ErrorKind::LexError { class: CharClass::Upper, found: Some('a') },
            1,
            &["net constructor"],
        ))
    );
    let input = letters("(10x)");
    assert_eq!(
        com_cons(&input, 0),
        Err(failure(ErrorKind::UnknownSuffix { found: Some('x') }, 3, &["component constructor"]))
    );
}

#[test]
fn items_parses_up_to_the_closing_delimiter() {
    let input = letters(" 1k , 2M ) rest");
    assert_eq!(
        items::<Numbers>(&input, 0, ')'),
        Ok((10, (vec![literal("1", Suffix::Kilo), literal("2", Suffix::Mega)], vec![1, 6])))
    );
}

#[test]
fn element_lists_are_parsed() {
    let input = letters(" ( 10k , 3m )");
    assert_eq!(
        com_cons(&input, 0),
        Ok((13, (vec![literal("10", Suffix::Kilo), literal("3", Suffix::Milli)], vec![3, 9])))
    );
    let input = letters(" < N1 >");
    assert_eq!(net_cons(&input, 0), Ok((7, (vec![upper_name("N1")], vec![3]))));
    let input = letters("(Vo)");
    assert_eq!(inside_elm_const(&input, 0), Ok((4, (vec![upper_name("Vo")], vec![1]))));
    let input = letters("  =");
    assert_eq!(equal(&input, 0), Ok((3, Token::Equal)));
}

#[test]
fn element_is_insensitive_to_white_space() {
    let one = letters("r1 = R(10k)<N1,N2>");
    let other = letters("r1\n=\tR ( 10k )\n< N1 , N2 >\n");
    let (_, first) = netlist::parser::element::element(&one, 0).unwrap();
    let (_, second) = netlist::parser::element::element(&other, 0).unwrap();
    assert_eq!(first, second);
    assert_eq!(
        first,
        Element {
            instance_name: lower_name("r1"),
            component: upper_name("R"),
            args: vec![literal("10", Suffix::Kilo)],
            nets: vec![upper_name("N1"), upper_name("N2")],
        }
    );
}

#[test]
fn element_head_failures_are_recoverable() {
    let input = letters("R1 = R()<>");
    assert_eq!(
        netlist::parser::element::element(&input, 0),
        Err(failure(
            ErrorKind::LexError { class: CharClass::LowerStart, found: Some('R') },
            0,
            &[],
        ))
    );
    let input = letters("r1 R()<>");
    assert_eq!(
        netlist::parser::element::element(&input, 0),
        Err(failure(
            ErrorKind::SyntaxError { expected: Expected::Char('='), found: Some('R') },
            3,
            &[],
        ))
    );
    let input = letters("r1 = r()<>");
    assert_eq!(
        netlist::parser::element::element(&input, 0),
        Err(failure(ErrorKind::LexError { class: CharClass::Upper, found: Some('r') }, 5, &[]))
    );
    let input = letters("r1 = R<>");
    assert_eq!(
        netlist::parser::element::element(&input, 0),
        Err(failure(
            ErrorKind::SyntaxError { expected: Expected::Char('('), found: Some('<') },
            6,
            &[],
        ))
    );
}

#[test]
fn element_list_failures_carry_both_labels() {
    let input = letters("r1 = R(10k, )<N1>");
    assert_eq!(
        netlist::parser::element::element(&input, 0),
        Err(failure(
            ErrorKind::LexError { class: CharClass::Digit, found: Some(')') },
            12,
            &["component constructor", "element r1"],
        ))
    );
}

#[test]
fn parameter_may_have_a_default() {
    let input = letters("up_res = 10k,");
    assert_eq!(
        parameter(&input, 0),
        Ok((12, Parameter { name: lower_name("up_res"), default: Some(literal("10", Suffix::Kilo)) }))
    );
    let input = letters("vin ,");
    assert_eq!(parameter(&input, 0), Ok((3, Parameter { name: lower_name("vin"), default: None })));
    let input = letters("vin = x");
    assert_eq!(
        parameter(&input, 0),
        Err(failure(ErrorKind::LexError { class: CharClass::Digit, found: Some('x') }, 6, &[]))
    );
    let input = letters("( a , b = 1u )");
    assert_eq!(
        list::<Parameters>(&input, 0, '(', ')', "constructor"),
        Ok((
            14,
            (
                vec![
                    Parameter { name: lower_name("a"), default: None },
                    Parameter { name: lower_name("b"), default: Some(literal("1", Suffix::Micro)) },
                ],
                vec![2, 6],
            )
        ))
    );
}

#[test]
fn keyword_is_recognised() {
    let input = letters("component X");
    assert_eq!(component_keyword(&input, 0), Ok((9, ())));
    let input = letters("componen");
    assert_eq!(
        component_keyword(&input, 0),
        Err(failure(
            ErrorKind::SyntaxError { expected: Expected::Keyword, found: Some('c') },
            0,
            &[],
        ))
    );
    let input = letters("components");
    assert_eq!(component_keyword(&input, 1).is_err(), true);
    assert_eq!(component_keyword(&input, 20).is_err(), true);
}

#[test]
fn body_ends_at_the_closing_brace() {
    let input = letters(" r1 = R(1k)<A>\n r2 = C()<>\n} tail");
    let (next, (found, offsets)) = body(&input, 0).unwrap();
    assert_eq!(next, 28);
    assert_eq!(offsets, vec![1, 16]);
    assert_eq!(found.len(), 2);
    assert_eq!(found[1].instance_name, lower_name("r2"));
    let input = letters("}");
    assert_eq!(body(&input, 0), Ok((1, (vec![], vec![]))));
}

#[test]
fn component_is_parsed_with_its_spans() {
    let text = "component Divider(vin, up_res = 10k)<Vin, Vout> {\n  r1 = R(10k)<Vin, Vout>\n  r2 = R(5k)<Vout, Gnd>\n}";
    let input = letters(text);
    let (next, (found, spans)) = component(&input, 0).unwrap();
    assert_eq!(next, input.len());
    assert_eq!(
        found,
        Component {
            name: upper_name("Divider"),
            parameters: vec![
                Parameter { name: lower_name("vin"), default: None },
                Parameter { name: lower_name("up_res"), default: Some(literal("10", Suffix::Kilo)) },
            ],
            exported_nets: vec![upper_name("Vin"), upper_name("Vout")],
            body: vec![
                Element {
                    instance_name: lower_name("r1"),
                    component: upper_name("R"),
                    args: vec![literal("10", Suffix::Kilo)],
                    nets: vec![upper_name("Vin"), upper_name("Vout")],
                },
                Element {
                    instance_name: lower_name("r2"),
                    component: upper_name("R"),
                    args: vec![literal("5", Suffix::Kilo)],
                    nets: vec![upper_name("Vout"), upper_name("Gnd")],
                },
            ],
        }
    );
    assert_eq!(
        spans,
        Spans {
            name: text.find("Divider").unwrap(),
            parameters: vec![text.find("vin").unwrap(), text.find("up_res").unwrap()],
            exported_nets: vec![text.find("Vin").unwrap(), text.find("Vout").unwrap()],
            body: vec![text.find("r1").unwrap(), text.find("r2").unwrap()],
        }
    );
}

#[test]
fn component_failures_before_the_brace_are_recoverable() {
    let input = letters("element X()<>{}");
    assert_eq!(
        component(&input, 0),
        Err(failure(
            ErrorKind::SyntaxError { expected: Expected::Keyword, found: Some('e') },
            0,
            &[],
        ))
    );
    let input = letters("component x()<>{}");
    assert_eq!(
        component(&input, 0),
        Err(failure(ErrorKind::LexError { class: CharClass::Upper, found: Some('x') }, 10, &[]))
    );
    let input = letters("component X()<> r1");
    assert_eq!(
        component(&input, 0),
        Err(failure(
            ErrorKind::SyntaxError { expected: Expected::Char('{'), found: Some('r') },
            16,
            &[],
        ))
    );
}

#[test]
fn component_failures_behind_a_commit_point_carry_the_labels() {
    let input = letters("component X(a b)<>{}");
    assert_eq!(
        component(&input, 0),
        Err(failure(
            ErrorKind::UnbalancedDelimiter { close: ')', found: Some('b') },
            14,
            &["constructor", "component X"],
        ))
    );
    let input = letters("component Divider()<> { r1 = R()<N1 N2> }");
    assert_eq!(
        component(&input, 0),
        Err(failure(
            ErrorKind::UnbalancedDelimiter { close: '>', found: Some('N') },
            36,
            &["net constructor", "element r1", "component Divider"],
        ))
    );
    let input = letters("component X()<> { r1 = R()<> ");
    assert_eq!(
        component(&input, 0),
        Err(failure(
            ErrorKind::LexError { class: CharClass::LowerStart, found: None },
            29,
            &["component X"],
        ))
    );
    let input = letters("component X()<> { R1 }");
    assert_eq!(
        component(&input, 0),
        Err(failure(
            ErrorKind::LexError { class: CharClass::LowerStart, found: Some('R') },
            18,
            &["component X"],
        ))
    );
}

#[test]
fn every_suffix_has_its_letter() {
    for c in ['p', 'n', 'u', 'm', 'k', 'M', 'G'] {
        assert_eq!(Suffix::from_char(c).unwrap().letter(), c);
    }
}

#[test]
fn a_literal_is_its_mantissa_times_its_multiplier() {
    for digits in ["0", "1", "47", "100", "0010", "999999"] {
        for c in ['p', 'n', 'u', 'm', 'k', 'M', 'G'] {
            let input = letters(&format!("{}{}", digits, c));
            let (next, found) = number_suffix(&input, 0).unwrap();
            assert_eq!(next, input.len());
            assert_eq!(found.digits, digits);
            assert_eq!(found.mantissa(), Some(digits.parse::<u64>().unwrap()));
            let (numerator, denominator) = found.suffix.multiplier();
            assert_eq!(numerator as f64 / denominator as f64, apply_suffix(found.suffix, 1.0));
            assert_eq!(value_of(&found), apply_suffix(found.suffix, digits.parse().unwrap()));
        }
    }
}
