use netlist::document::{
    assemble, characters, check_component, components, parse, parse_chars, Document,
};
use netlist::error::{ErrorKind, Expected, ParseError, Scope};
use netlist::names::{check_unique, find_repeat, names_of, occurrences_of};
use netlist::parser::component::{Component, Parameter, Spans};
use netlist::parser::element::Element;
use netlist::parser::util::{NumericLiteral, Suffix};
use netlist::tokenizer::Token;

fn strings(names: &[&str]) -> Vec<String> {
    names.iter().map(|name| name.to_string()).collect()
}

fn upper_token(text: &str) -> Token {
    Token::UpperIdentifier(text.to_string())
}

fn lower_token(text: &str) -> Token {
    Token::LowerIdentifier(text.to_string())
}

fn resistor(name: &str, digits: &str, suffix: Suffix, nets: &[&str]) -> Element {
    Element {
        instance_name: lower_token(name),
        component: upper_token("R"),
        args: vec![NumericLiteral { digits: digits.to_string(), suffix }],
        nets: nets.iter().map(|net| upper_token(net)).collect(),
    }
}

#[test]
fn a_valid_document_round_trips() {
    let source = "\
component Divider(up_res = 10k, low_res)<Vin, Vout, Gnd> {
    r1 = R(10k)<Vin, Vout>
    r2 = R(47k)<Vout, Gnd>
}

component Filter()<In, Out> {
    r1 = R(1M)<In, Out>
    c1 = C(100n)<Out, Gnd>
    d  = Divider(1k, 2k)<In, Out, Gnd>
}

component Empty()<> { }
";
    let document = parse(source).unwrap();
    assert_eq!(document.components.len(), 3);
    let names: Vec<String> = document.components.iter().map(|c| c.name.text()).collect();
    assert_eq!(names, strings(&["Divider", "Filter", "Empty"]));

    let divider = &document.components[0];
    assert_eq!(
        divider.parameters,
        vec![
            Parameter {
                name: lower_token("up_res"),
                default: Some(NumericLiteral { digits: "10".to_string(), suffix: Suffix::Kilo }),
            },
            Parameter { name: lower_token("low_res"), default: None },
        ]
    );
    assert_eq!(
        divider.exported_nets,
        vec![upper_token("Vin"), upper_token("Vout"), upper_token("Gnd")]
    );
    assert_eq!(
        divider.body,
        vec![
            resistor("r1", "10", Suffix::Kilo, &["Vin", "Vout"]),
            resistor("r2", "47", Suffix::Kilo, &["Vout", "Gnd"]),
        ]
    );

    let filter = &document.components[1];
    assert_eq!(filter.parameters, vec![]);
    assert_eq!(filter.exported_nets, vec![upper_token("In"), upper_token("Out")]);
    assert_eq!(filter.body.len(), 3);
    let instances: Vec<String> = filter.body.iter().map(|e| e.instance_name.text()).collect();
    assert_eq!(instances, strings(&["r1", "c1", "d"]));
    assert_eq!(filter.body[1].component, upper_token("C"));
    assert_eq!(
        filter.body[1].args,
        vec![NumericLiteral { digits: "100".to_string(), suffix: Suffix::Nano }]
    );
    assert_eq!(filter.body[2].args.len(), 2);
    assert_eq!(filter.body[2].nets.len(), 3);

    let empty = &document.components[2];
    assert_eq!(
        *empty,
        Component {
            name: upper_token("Empty"),
            parameters: vec![],
            exported_nets: vec![],
            body: vec![],
        }
    );
}

#[test]
fn an_empty_source_is_an_empty_document() {
    assert_eq!(parse(""), Ok(Document { components: vec![] }));
    assert_eq!(parse(" \n\t\r\n"), Ok(Document { components: vec![] }));
}

#[test]
fn layout_does_not_change_the_document() {
    let one = "component A(x=1k)<P,Q>{r1=R(1k)<P,Q>}component B()<>{}";
    let other = "\n component\tA ( x = 1k )\n < P , Q >\n{\n r1 = R ( 1k ) < P , Q >\n}\n\ncomponent B ( ) < > { }\n";
    assert_eq!(parse(one), parse(other));
    assert_eq!(parse(one).unwrap().components.len(), 2);
}

#[test]
fn two_components_under_one_name_are_a_duplicate() {
    let source = "component Divider()<> {}\ncomponent Other()<> {}\ncomponent Divider()<> {}";
    let first = source.find("Divider").unwrap();
    let second = source.rfind("Divider").unwrap();
    assert_eq!(
        parse(source),
        Err(ParseError {
            kind: ErrorKind::DuplicateName {
                name: "Divider".to_string(),
                scope: Scope::Document,
                locations: vec![first, second],
            },
            offset: second,
            fatal: true,
            context: vec![],
        })
    );
}

#[test]
fn two_elements_under_one_name_are_a_duplicate_in_their_component() {
    let source = "component A()<> {}\ncomponent Divider()<> {\n r1 = R(1k)<A>\n r2 = R(1k)<A>\n r1 = R(2k)<B>\n}";
    let first = source.find("r1").unwrap();
    let second = source.rfind("r1").unwrap();
    assert_eq!(
        parse(source),
        Err(ParseError {
            kind: ErrorKind::DuplicateName {
                name: "r1".to_string(),
                scope: Scope::Component,
                locations: vec![first, second],
            },
            offset: second,
            fatal: true,
            context: vec!["component Divider".to_string()],
        })
    );
}

#[test]
fn parameters_and_exported_nets_have_to_be_unique_too() {
    let source = "component A(x, y, x = 1k, x)<> {}";
    match parse(source) {
        Err(ParseError {
            kind: ErrorKind::DuplicateName { name, scope, locations },
            offset,
            fatal,
            context,
        }) => {
            assert_eq!(name, "x");
            assert_eq!(scope, Scope::Component);
            assert_eq!(locations, vec![12, 18, 26]);
            assert_eq!(offset, 18);
            assert!(fatal);
            assert_eq!(context, strings(&["component A"]));
        },
        other => panic!("{:?}", other),
    }
    let source = "component A()<N, M, M> {}";
    match parse(source) {
        Err(ParseError { kind: ErrorKind::DuplicateName { name, scope, locations }, .. }) => {
            assert_eq!(name, "M");
            assert_eq!(scope, Scope::Component);
            assert_eq!(locations, vec![17, 20]);
        },
        other => panic!("{:?}", other),
    }
}

#[test]
fn a_parameter_a_net_and_an_element_may_share_a_name() {
    let source = "component A(x)<X> { x = R()<X> }";
    assert!(parse(source).is_ok());
    let source = "component A(_a)<A> { _a = A()<A> }";
    assert!(parse(source).is_ok());
}

#[test]
fn the_grammar_is_checked_before_the_names() {
    let source = "component A(x, x)<> {}\ncomponent B()<> { r1 = R(1k)<N1 N2> }";
    match parse(source) {
        Err(e) => {
            assert_eq!(e.kind, ErrorKind::UnbalancedDelimiter { close: '>', found: Some('N') });
            assert_eq!(e.context, strings(&["net constructor", "element r1", "component B"]));
            assert!(e.fatal);
        },
        other => panic!("{:?}", other),
    }
}

#[test]
fn the_document_scope_is_checked_before_the_components() {
    let source = "component A(x, x)<> {}\ncomponent A()<> {}";
    match parse(source) {
        Err(ParseError { kind: ErrorKind::DuplicateName { name, scope, .. }, .. }) => {
            assert_eq!(name, "A");
            assert_eq!(scope, Scope::Document);
        },
        other => panic!("{:?}", other),
    }
}

#[test]
fn text_that_is_no_component_is_a_syntax_error() {
    assert_eq!(
        parse("component A()<> {}\n r1 = R()<>"),
        Err(ParseError {
            kind: ErrorKind::SyntaxError { expected: Expected::Keyword, found: Some('r') },
            offset: 20,
            fatal: false,
            context: vec![],
        })
    );
}

#[test]
fn parse_chars_agrees_with_parse() {
    let source = "component A()<N> { r1 = R(1k)<N> }";
    let input = characters(source);
    assert_eq!(input, source.chars().collect::<Vec<char>>());
    assert_eq!(parse_chars(&input), parse(source));
    let (found, spans) = components(&input, 0).unwrap();
    assert_eq!(found.len(), 1);
    assert_eq!(
        spans,
        vec![Spans { name: 10, parameters: vec![], exported_nets: vec![14], body: vec![19] }]
    );
    assert_eq!(check_component(&found[0], &spans[0]), None);
    assert_eq!(assemble(found.clone(), &spans), Ok(Document { components: found }));
}

#[test]
fn find_repeat_finds_the_first_name_that_stands_twice() {
    assert_eq!(find_repeat(&strings(&[])), None);
    assert_eq!(find_repeat(&strings(&["a"])), None);
    assert_eq!(find_repeat(&strings(&["a", "b", "c"])), None);
    assert_eq!(find_repeat(&strings(&["a", "b", "a"])), Some(2));
    assert_eq!(find_repeat(&strings(&["a", "b", "b", "a"])), Some(2));
    assert_eq!(find_repeat(&strings(&["a", "a", "a"])), Some(1));
}

#[test]
fn occurrences_are_the_offsets_of_one_name() {
    let names = strings(&["a", "b", "a", "c", "a"]);
    let offsets = vec![10, 20, 30, 40, 50];
    assert_eq!(occurrences_of(&names, &offsets, &"a".to_string()), vec![10, 30, 50]);
    assert_eq!(occurrences_of(&names, &offsets, &"c".to_string()), vec![40]);
    assert_eq!(occurrences_of(&names, &offsets, &"z".to_string()), vec![]);
}

#[test]
fn check_unique_reports_the_second_declaration() {
    let names = strings(&["a", "b", "b", "a", "b"]);
    let offsets = vec![1, 3, 5, 7, 9];
    assert_eq!(
        check_unique(&names, &offsets, Scope::Document, vec![]),
        Some(ParseError {
            kind: ErrorKind::DuplicateName {
                name: "b".to_string(),
                scope: Scope::Document,
                locations: vec![3, 5, 9],
            },
            offset: 5,
            fatal: true,
            context: vec![],
        })
    );
    assert_eq!(check_unique(&strings(&["a", "b"]), &vec![1, 3], Scope::Component, vec![]), None);
}

#[test]
fn names_of_takes_the_name_of_each_item() {
    let tokens = vec![upper_token("A"), lower_token("b"), Token::Comma];
    assert_eq!(names_of(&tokens), strings(&["A", "b", ""]));
    let elements = vec![resistor("r1", "1", Suffix::Kilo, &[]), resistor("r2", "1", Suffix::Kilo, &[])];
    assert_eq!(names_of(&elements), strings(&["r1", "r2"]));
}
