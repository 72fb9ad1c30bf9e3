//! One component: `component Name(parameters)<nets> { elements }`.
use crate::chars::{
    all_of, has_at, lemma_has_at_index, lemma_has_at_split, lemma_run_end_again,
    lemma_run_end_bounds, lemma_run_over, run_end, skip_run, CharClass,
};
use crate::error::{
    agrees, found_at, stands_at, syntax_error, Expected, Outcome, ParseError, Parsed,
};
use crate::parser::element::{
    element, element_text, lemma_element_advances, lemma_element_leading_space,
    lemma_element_written, net_constructor, spec_element, token_texts, Element, ElementLayout,
    ElementView, UpperIdentifiers,
};
use crate::parser::list::{
    all_written, lemma_list_advances, lemma_list_written, list, list_text, prepend, spec_list,
    ItemParser, ListLayout, Listed,
};
use crate::parser::util::{
    is_digit_run, lemma_number_at, lemma_number_leading_space, number_suffix, number_text,
    spec_number_suffix, NumericLiteral, NumericLiteralView,
};
use crate::tokenizer::{
    identifier_of, is_identifier_text, lemma_identifier_at, spec_identifier, spec_symbol, symbol,
    Token, TokenView,
};
use vstd::prelude::*;
use vstd::string::StringExecFns;

verus! {

/// A declared parameter of a component.
#[derive(Clone, Debug, PartialEq, Eq)]
pub struct Parameter {
    /// The parameter's name, a `Token::LowerIdentifier`.
    pub name: Token,
    /// The default value; without one, every instance has to supply the value.
    pub default: Option<NumericLiteral>,
}

/// The mathematical value of a `Parameter`.
pub struct ParameterView {
    pub name: TokenView,
    pub default: Option<NumericLiteralView>,
}

impl View for Parameter {
    type V = ParameterView;

    open spec fn view(&self) -> ParameterView {
        ParameterView { name: self.name@, default: self.default.deep_view() }
    }
}

impl DeepView for Parameter {
    type V = ParameterView;

    open spec fn deep_view(&self) -> ParameterView {
        self@
    }
}

/// A component declaration.
#[derive(Clone, Debug, PartialEq, Eq)]
pub struct Component {
    /// The component's name, a `Token::UpperIdentifier`.
    pub name: Token,
    pub parameters: Vec<Parameter>,
    /// The nets that the component exposes, each a `Token::UpperIdentifier`.
    pub exported_nets: Vec<Token>,
    pub body: Vec<Element>,
}

/// The mathematical value of a `Component`.
pub struct ComponentView {
    pub name: TokenView,
    pub parameters: Seq<ParameterView>,
    pub exported_nets: Seq<TokenView>,
    pub body: Seq<ElementView>,
}

impl View for Component {
    type V = ComponentView;

    open spec fn view(&self) -> ComponentView {
        ComponentView {
            name: self.name@,
            parameters: self.parameters.deep_view(),
            exported_nets: self.exported_nets.deep_view(),
            body: self.body.deep_view(),
        }
    }
}

impl DeepView for Component {
    type V = ComponentView;

    open spec fn deep_view(&self) -> ComponentView {
        self@
    }
}

/// Where the names that a component declares stand in the source: the offset
/// of its own name, of each parameter, of each exported net and of each
/// element of its body, in order.
#[derive(Clone, Debug, PartialEq, Eq)]
pub struct Spans {
    pub name: usize,
    pub parameters: Vec<usize>,
    pub exported_nets: Vec<usize>,
    pub body: Vec<usize>,
}

/// The mathematical value of a `Spans`.
pub struct SpansView {
    pub name: usize,
    pub parameters: Seq<usize>,
    pub exported_nets: Seq<usize>,
    pub body: Seq<usize>,
}

impl View for Spans {
    type V = SpansView;

    open spec fn view(&self) -> SpansView {
        SpansView {
            name: self.name,
            parameters: self.parameters@,
            exported_nets: self.exported_nets@,
            body: self.body@,
        }
    }
}

impl DeepView for Spans {
    type V = SpansView;

    open spec fn deep_view(&self) -> SpansView {
        self@
    }
}

/// The label of a parameter list in the context of an error.
pub open spec fn constructor() -> Seq<char> {
    "constructor"@
}

/// Parses a list of upper-case identifiers in parentheses; a failure behind
/// the opening parenthesis is reported as a `constructor`.
pub fn inside_const(input: &[char], pos: usize) -> (r: Parsed<(Vec<Token>, Vec<usize>)>)
    ensures
        agrees(r, spec_list::<UpperIdentifiers>(input@, pos as int, '(', ')', constructor())),
{
    list::<UpperIdentifiers>(input, pos, '(', ')', "constructor")
}

/// Parses a list of upper-case identifiers in angle brackets; a failure
/// behind the opening bracket is reported as a `net constructor`.
pub fn inside_net_const(input: &[char], pos: usize) -> (r: Parsed<(Vec<Token>, Vec<usize>)>)
    ensures
        agrees(r, spec_list::<UpperIdentifiers>(input@, pos as int, '<', '>', net_constructor())),
{
    list::<UpperIdentifiers>(input, pos, '<', '>', "net constructor")
}

/// Parses a list of upper-case identifiers in parentheses; a failure behind
/// the opening parenthesis is reported as a `net constructor`.
pub fn inside_elm_const(input: &[char], pos: usize) -> (r: Parsed<(Vec<Token>, Vec<usize>)>)
    ensures
        agrees(r, spec_list::<UpperIdentifiers>(input@, pos as int, '(', ')', net_constructor())),
{
    list::<UpperIdentifiers>(input, pos, '(', ')', "net constructor")
}

/// A parameter at `pos`: a lower-case identifier and, if an equals sign
/// follows it behind optional white space, a numeric literal as its default.
pub open spec fn spec_parameter(s: Seq<char>, pos: int) -> Outcome<ParameterView> {
    match spec_identifier(s, pos, CharClass::LowerStart) {
        Err(e) => Err(e),
        Ok((named, name)) => {
            let sign = run_end(s, named, CharClass::Space);
            if found_at(s, sign) == Some('=') {
                match spec_number_suffix(s, sign + 1) {
                    Err(e) => Err(e),
                    Ok((next, value)) => Ok(
                        (
                            next,
                            ParameterView {
                                name: TokenView::LowerIdentifier(name),
                                default: Some(value),
                            },
                        ),
                    ),
                }
            } else {
                Ok((named, ParameterView { name: TokenView::LowerIdentifier(name), default: None }))
            }
        },
    }
}

/// Parses one parameter of a component.
pub fn parameter(input: &[char], pos: usize) -> (r: Parsed<Parameter>)
    ensures
        agrees(r, spec_parameter(input@, pos as int)),
{
    match identifier_of(input, pos, CharClass::LowerStart) {
        Err(e) => Err(e),
        Ok((named, name)) => {
            let sign = skip_run(input, named, CharClass::Space);
            if stands_at(input, sign, '=') {
                match number_suffix(input, sign + 1) {
                    Err(e) => Err(e),
                    Ok((next, value)) => Ok(
                        (
                            next,
                            Parameter { name: Token::LowerIdentifier(name), default: Some(value) },
                        ),
                    ),
                }
            } else {
                Ok((named, Parameter { name: Token::LowerIdentifier(name), default: None }))
            }
        },
    }
}

/// The item parser of a component's parameter list.
pub struct Parameters;

impl ItemParser for Parameters {
    type Item = Parameter;

    open spec fn spec_item(s: Seq<char>, pos: int) -> Outcome<ParameterView> {
        spec_parameter(s, pos)
    }

    fn item(input: &[char], pos: usize) -> (r: Parsed<Parameter>) {
        parameter(input, pos)
    }

    proof fn lemma_item_advances(s: Seq<char>, pos: int) {
        lemma_run_end_bounds(s, pos + 1, CharClass::IdChar);
        if let Ok((named, _)) = spec_identifier(s, pos, CharClass::LowerStart) {
            let sign = run_end(s, named, CharClass::Space);
            lemma_run_end_bounds(s, named, CharClass::Space);
            lemma_run_end_bounds(s, sign + 1, CharClass::Space);
            lemma_run_end_bounds(s, run_end(s, sign + 1, CharClass::Space), CharClass::Digit);
        }
    }

    open spec fn written(value: ParameterView, text: Seq<char>) -> bool {
        &&& value.name == TokenView::LowerIdentifier(value.name.text())
        &&& is_identifier_text(value.name.text(), CharClass::LowerStart)
        &&& match value.default {
            None => text == value.name.text(),
            Some(literal) => is_digit_run(literal.digits) && exists|
                before: Seq<char>,
                after: Seq<char>,
            |
                all_of(before, CharClass::Space) && all_of(after, CharClass::Space) && text
                    == #[trigger] parameter_text(value.name.text(), before, after, literal),
        }
    }

    proof fn lemma_written_starts(value: ParameterView, text: Seq<char>) {
        if let Some(literal) = value.default {
            let (before, after) = choose|before: Seq<char>, after: Seq<char>|
                all_of(before, CharClass::Space) && all_of(after, CharClass::Space) && text
                    == #[trigger] parameter_text(value.name.text(), before, after, literal);
            assert(text[0] == value.name.text()[0]);
        }
    }

    proof fn lemma_written_is_read(
        s: Seq<char>,
        pos: int,
        value: ParameterView,
        text: Seq<char>,
        close: char,
    ) {
        let name = value.name.text();
        let named = pos + name.len();
        match value.default {
            None => {
                lemma_run_end_bounds(s, named, CharClass::Space);
                lemma_identifier_at(s, pos, name, CharClass::LowerStart);
            },
            Some(literal) => {
                let (before, after) = choose|before: Seq<char>, after: Seq<char>|
                    all_of(before, CharClass::Space) && all_of(after, CharClass::Space) && text
                        == #[trigger] parameter_text(name, before, after, literal);
                let valued = after + number_text(literal);
                let signed = seq!['='] + valued;
                let tail = before + signed;
                lemma_has_at_split(s, pos, name, tail);
                lemma_has_at_split(s, named, before, signed);
                let sign = named + before.len();
                lemma_has_at_split(s, sign, seq!['='], valued);
                lemma_has_at_split(s, sign + 1, after, number_text(literal));
                lemma_has_at_index(s, named, tail);
                lemma_has_at_index(s, sign, signed);
                lemma_has_at_index(s, sign + 1 + after.len(), number_text(literal));
                assert(s[sign + 0] == '=');
                assert(s[sign + 1 + after.len() + 0] == number_text(literal)[0]);
                assert(number_text(literal)[0] == literal.digits[0]);
                assert(s[named + 0] == tail[0]);
                assert(tail[0] == if before.len() > 0 {
                    before[0]
                } else {
                    '='
                });
                lemma_identifier_at(s, pos, name, CharClass::LowerStart);
                lemma_run_over(s, named, before, CharClass::Space);
                lemma_run_over(s, sign + 1, after, CharClass::Space);
                lemma_number_leading_space(s, sign + 1);
                lemma_number_at(
                    s,
                    sign + 1 + after.len(),
                    literal.digits,
                    literal.suffix.spec_letter(),
                );
            },
        }
    }
}

/// A parameter with a default as it is written: the name, an equals sign and
/// the literal, with `before` in front of the sign and `after` behind it.
pub open spec fn parameter_text(
    name: Seq<char>,
    before: Seq<char>,
    after: Seq<char>,
    literal: NumericLiteralView,
) -> Seq<char> {
    name + (before + (seq!['='] + (after + number_text(literal))))
}

/// The keyword that opens a component.
pub open spec fn keyword() -> Seq<char> {
    seq!['c', 'o', 'm', 'p', 'o', 'n', 'e', 'n', 't']
}

/// The keyword `component` at `pos`.
pub open spec fn spec_keyword(s: Seq<char>, pos: int) -> Outcome<()> {
    if 0 <= pos && pos + 9 <= s.len() && s.subrange(pos, pos + 9) == keyword() {
        Ok((pos + 9, ()))
    } else {
        Err(syntax_error(s, pos, Expected::Keyword))
    }
}

/// Consumes the keyword `component`.
pub fn component_keyword(input: &[char], pos: usize) -> (r: Parsed<()>)
    ensures
        agrees(r, spec_keyword(input@, pos as int)),
{
    let word: [char; 9] = ['c', 'o', 'm', 'p', 'o', 'n', 'e', 'n', 't'];
    if pos > input.len() || input.len() - pos < 9 {
        return Err(ParseError::syntax(input, pos, Expected::Keyword));
    }
    let n = input.len();
    let mut i: usize = 0;
    while i < 9
        invariant
            i <= 9,
            pos + 9 <= n == input@.len(),
            word@ == keyword(),
            forall|j: int| 0 <= j < i ==> input@[pos + j] == keyword()[j],
        decreases 9 - i,
    {
        if input[pos + i] != word[i] {
            assert(input@.subrange(pos as int, pos + 9)[i as int] != keyword()[i as int]);
            return Err(ParseError::syntax(input, pos, Expected::Keyword));
        }
        i = i + 1;
    }
    assert(input@.subrange(pos as int, pos + 9) =~= keyword());
    Ok((pos + 9, ()))
}

/// The elements of a body from `pos` on, up to the closing brace: the
/// position behind the brace, the elements in order and where each starts.
pub open spec fn spec_body(s: Seq<char>, pos: int) -> Outcome<Listed<ElementView>>
    decreases s.len() - pos,
{
    let start = run_end(s, pos, CharClass::Space);
    if found_at(s, start) == Some('}') {
        Ok((start + 1, (Seq::empty(), Seq::empty())))
    } else {
        match spec_element(s, start) {
            Err(e) => Err(e),
            Ok((next, value)) => {
                proof {
                    lemma_run_end_bounds(s, pos, CharClass::Space);
                    lemma_element_advances(s, start);
                }
                match spec_body(s, next) {
                    Ok((end, rest)) => Ok(
                        (end, (seq![value] + rest.0, seq![start as usize] + rest.1)),
                    ),
                    Err(e) => Err(e),
                }
            },
        }
    }
}

/// A body ends behind where it starts, inside the input, and there are as
/// many offsets as elements.
pub proof fn lemma_body_advances(s: Seq<char>, pos: int)
    ensures
        spec_body(s, pos) matches Ok((next, found)) ==> pos < next <= s.len() && found.0.len()
            == found.1.len(),
    decreases s.len() - pos,
{
    let start = run_end(s, pos, CharClass::Space);
    lemma_run_end_bounds(s, pos, CharClass::Space);
    lemma_element_advances(s, start);
    if found_at(s, start) != Some('}') {
        if let Ok((next, _)) = spec_element(s, start) {
            lemma_body_advances(s, next);
        }
    }
}

/// Parses the elements of a body from `pos` on, and the closing brace.
/// Returns the elements and the offset of each.
pub fn body(input: &[char], pos: usize) -> (r: Parsed<(Vec<Element>, Vec<usize>)>)
    ensures
        agrees(r, spec_body(input@, pos as int)),
{
    let mut found: Vec<Element> = Vec::new();
    let mut offsets: Vec<usize> = Vec::new();
    let mut at: usize = pos;
    loop
        invariant
            spec_body(input@, pos as int) == prepend(
                (found.deep_view(), offsets@),
                spec_body(input@, at as int),
            ),
        decreases input@.len() - at,
    {
        let ghost before = found.deep_view();
        let ghost starts = offsets@;
        let start = skip_run(input, at, CharClass::Space);
        if stands_at(input, start, '}') {
            assert(before + Seq::empty() =~= before);
            assert(starts + Seq::empty() =~= starts);
            assert(offsets.deep_view() =~= offsets@);
            return Ok((start + 1, (found, offsets)));
        }
        proof {
            lemma_element_advances(input@, start as int);
        }
        match element(input, start) {
            Err(e) => {
                return Err(e);
            },
            Ok((next, value)) => {
                let ghost v = value.deep_view();
                found.push(value);
                offsets.push(start);
                assert(found.deep_view() =~= before.push(v));
                proof {
                    if let Ok((end, tail)) = spec_body(input@, next as int) {
                        assert((before + (seq![v] + tail.0)) =~= (before.push(v) + tail.0));
                        assert((starts + (seq![start] + tail.1)) =~= (starts.push(start) + tail.1));
                    }
                }
                at = next;
            },
        }
    }
}

/// The label of the component named `name` in the context of an error.
pub open spec fn component_label(name: Seq<char>) -> Seq<char> {
    "component "@ + name
}

/// A component at `pos`, and where its names stand. Up to the opening brace
/// a failure is recoverable unless it lies inside the parameter list or the
/// net list; such a one is fatal and carries the list's label and then the
/// component's. Behind the opening brace every failure is fatal and carries
/// the component's label.
pub open spec fn spec_component(s: Seq<char>, pos: int) -> Outcome<(ComponentView, SpansView)> {
    match spec_keyword(s, run_end(s, pos, CharClass::Space)) {
        Err(e) => Err(e),
        Ok((worded, _)) => {
            let start = run_end(s, worded, CharClass::Space);
            match spec_identifier(s, start, CharClass::Upper) {
                Err(e) => Err(e),
                Ok((named, name)) => match spec_list::<Parameters>(
                    s,
                    named,
                    '(',
                    ')',
                    constructor(),
                ) {
                    Err(e) => Err(e.labelled(component_label(name))),
                    Ok((built, parameters)) => match spec_list::<UpperIdentifiers>(
                        s,
                        built,
                        '<',
                        '>',
                        net_constructor(),
                    ) {
                        Err(e) => Err(e.labelled(component_label(name))),
                        Ok((bound, nets)) => match spec_symbol(
                            s,
                            run_end(s, bound, CharClass::Space),
                            '{',
                        ) {
                            Err(e) => Err(e),
                            Ok((inside, _)) => match spec_body(s, inside) {
                                Err(e) => Err(e.committed(component_label(name))),
                                Ok((next, elements)) => Ok(
                                    (
                                        next,
                                        (
                                            ComponentView {
                                                name: TokenView::UpperIdentifier(name),
                                                parameters: parameters.0,
                                                exported_nets: nets.0,
                                                body: elements.0,
                                            },
                                            SpansView {
                                                name: start as usize,
                                                parameters: parameters.1,
                                                exported_nets: nets.1,
                                                body: elements.1,
                                            },
                                        ),
                                    ),
                                ),
                            },
                        },
                    },
                },
            }
        },
    }
}

/// A component is never empty and lies inside the input, and its spans hold
/// one offset for each parameter, each exported net and each element.
pub proof fn lemma_component_advances(s: Seq<char>, pos: int)
    ensures
        spec_component(s, pos) matches Ok((next, found)) ==> 0 <= pos < next <= s.len()
            && found.1.parameters.len() == found.0.parameters.len()
            && found.1.exported_nets.len() == found.0.exported_nets.len() && found.1.body.len()
            == found.0.body.len(),
{
    let word = run_end(s, pos, CharClass::Space);
    lemma_run_end_bounds(s, pos, CharClass::Space);
    if let Ok((worded, _)) = spec_keyword(s, word) {
        let start = run_end(s, worded, CharClass::Space);
        lemma_run_end_bounds(s, worded, CharClass::Space);
        lemma_run_end_bounds(s, start + 1, CharClass::IdChar);
        if let Ok((named, _)) = spec_identifier(s, start, CharClass::Upper) {
            lemma_list_advances::<Parameters>(s, named, '(', ')', constructor());
            if let Ok((built, _)) = spec_list::<Parameters>(s, named, '(', ')', constructor()) {
                lemma_list_advances::<UpperIdentifiers>(s, built, '<', '>', net_constructor());
                if let Ok((bound, _)) = spec_list::<UpperIdentifiers>(
                    s,
                    built,
                    '<',
                    '>',
                    net_constructor(),
                ) {
                    let brace = run_end(s, bound, CharClass::Space);
                    lemma_run_end_bounds(s, bound, CharClass::Space);
                    lemma_body_advances(s, brace + 1);
                }
            }
        }
    }
}

/// Parses one component, and returns it with the offsets of its names.
pub fn component(input: &[char], pos: usize) -> (r: Parsed<(Component, Spans)>)
    ensures
        agrees(r, spec_component(input@, pos as int)),
{
    let (worded, _) = match component_keyword(input, skip_run(input, pos, CharClass::Space)) {
        Err(e) => {
            return Err(e);
        },
        Ok(done) => done,
    };
    let start = skip_run(input, worded, CharClass::Space);
    let (named, name) = match identifier_of(input, start, CharClass::Upper) {
        Err(e) => {
            return Err(e);
        },
        Ok(done) => done,
    };
    let mut label = "component ".to_owned();
    label.append(name.as_str());
    let (built, parameters) = match list::<Parameters>(input, named, '(', ')', "constructor") {
        Err(e) => {
            return Err(e.labelled(label.as_str()));
        },
        Ok(done) => done,
    };
    let (bound, nets) = match list::<UpperIdentifiers>(input, built, '<', '>', "net constructor") {
        Err(e) => {
            return Err(e.labelled(label.as_str()));
        },
        Ok(done) => done,
    };
    let (inside, _) = match symbol(input, skip_run(input, bound, CharClass::Space), '{') {
        Err(e) => {
            return Err(e);
        },
        Ok(done) => done,
    };
    match body(input, inside) {
        Err(e) => Err(e.committed(label.as_str())),
        Ok((next, elements)) => {
            assert(parameters.1.deep_view() =~= parameters.1@);
            assert(nets.1.deep_view() =~= nets.1@);
            assert(elements.1.deep_view() =~= elements.1@);
            let parsed = Component {
                name: Token::UpperIdentifier(name),
                parameters: parameters.0,
                exported_nets: nets.0,
                body: elements.0,
            };
            let spans = Spans {
                name: start,
                parameters: parameters.1,
                exported_nets: nets.1,
                body: elements.1,
            };
            Ok((next, (parsed, spans)))
        },
    }
}

/// The white space of a written component: before the keyword, before the
/// name, in the two lists, before the opening brace, in each element of the
/// body, and before the closing brace.
pub struct ComponentLayout {
    pub word: Seq<char>,
    pub name: Seq<char>,
    pub parameters: ListLayout,
    pub nets: ListLayout,
    pub brace: Seq<char>,
    pub body: Seq<ElementLayout>,
    pub close: Seq<char>,
}

impl ComponentLayout {
    /// Whether the layout is white space only, and fits `component`.
    pub open spec fn is_blank(self, component: ComponentView) -> bool {
        &&& all_of(self.word, CharClass::Space)
        &&& all_of(self.name, CharClass::Space)
        &&& self.parameters.is_blank(component.parameters.len())
        &&& self.nets.is_blank(component.exported_nets.len())
        &&& all_of(self.brace, CharClass::Space)
        &&& self.body.len() == component.body.len()
        &&& forall|i: int|
            0 <= i < self.body.len() ==> (#[trigger] self.body[i]).is_blank(component.body[i])
        &&& all_of(self.close, CharClass::Space)
    }
}

impl ComponentView {
    /// Whether the component can be written in the grammar, its parameters
    /// as `parameters` write them: its names are identifiers of their
    /// classes, and its elements can be written.
    pub open spec fn is_writable(self, parameters: Seq<Seq<char>>) -> bool {
        &&& self.name == TokenView::UpperIdentifier(self.name.text())
        &&& is_identifier_text(self.name.text(), CharClass::Upper)
        &&& all_written::<Parameters>(self.parameters, parameters)
        &&& all_written::<UpperIdentifiers>(self.exported_nets, token_texts(self.exported_nets))
        &&& forall|i: int| 0 <= i < self.body.len() ==> (#[trigger] self.body[i]).is_writable()
    }
}

/// The elements from the one at `i` on as they are written, and the closing
/// brace behind the white space `close`.
pub open spec fn body_text(
    elements: Seq<ElementView>,
    layouts: Seq<ElementLayout>,
    close: Seq<char>,
    i: int,
) -> Seq<char>
    decreases elements.len() - i,
{
    if 0 <= i < elements.len() {
        element_text(elements[i], layouts[i]) + body_text(elements, layouts, close, i + 1)
    } else {
        close + seq!['}']
    }
}

/// A component as it is written with the white space of `layout`, its
/// parameters as `parameters` write them.
pub open spec fn component_text(
    component: ComponentView,
    parameters: Seq<Seq<char>>,
    layout: ComponentLayout,
) -> Seq<char> {
    layout.word + (keyword() + (layout.name + (component.name.text() + (list_text(
        parameters,
        layout.parameters,
        '(',
        ')',
    ) + (list_text(token_texts(component.exported_nets), layout.nets, '<', '>') + (layout.brace + (
    seq!['{'] + body_text(component.body, layout.body, layout.close, 0))))))))
}

/// Where the elements of a body from `i` on and the closing brace stand
/// written at `pos`, whatever the white space, the parser consumes exactly
/// what is written and returns these elements.
pub proof fn lemma_body_written(
    s: Seq<char>,
    pos: int,
    elements: Seq<ElementView>,
    layouts: Seq<ElementLayout>,
    close: Seq<char>,
    i: int,
)
    requires
        elements.len() == layouts.len(),
        forall|k: int|
            0 <= k < elements.len() ==> (#[trigger] elements[k]).is_writable() && layouts[k].is_blank(
                elements[k],
            ),
        all_of(close, CharClass::Space),
        0 <= i <= elements.len(),
        has_at(s, pos, body_text(elements, layouts, close, i)),
    ensures
        spec_body(s, pos) matches Ok((next, found)) && next == pos + body_text(
            elements,
            layouts,
            close,
            i,
        ).len() && found.0 == elements.subrange(i, elements.len() as int),
    decreases elements.len() - i,
{
    if i < elements.len() {
        let element = elements[i];
        let layout = layouts[i];
        let text = element_text(element, layout);
        let rest = body_text(elements, layouts, close, i + 1);
        assert(element.is_writable() && layout.is_blank(element));
        lemma_has_at_split(s, pos, text, rest);
        let named = text.subrange(layout.name.len() as int, text.len() as int);
        assert(text =~= layout.name + named);
        lemma_has_at_split(s, pos, layout.name, named);
        let start = pos + layout.name.len();
        lemma_has_at_index(s, start, named);
        assert(s[start + 0] == named[0]);
        assert(named[0] == element.instance_name.text()[0]);
        lemma_run_over(s, pos, layout.name, CharClass::Space);
        lemma_element_leading_space(s, pos);
        lemma_element_written(s, pos, element, layout);
        lemma_body_written(s, pos + text.len(), elements, layouts, close, i + 1);
        assert(elements.subrange(i, elements.len() as int) =~= seq![element] + elements.subrange(
            i + 1,
            elements.len() as int,
        ));
    } else {
        lemma_has_at_split(s, pos, close, seq!['}']);
        lemma_has_at_index(s, pos + close.len(), seq!['}']);
        assert(s[pos + close.len() + 0] == '}');
        lemma_run_over(s, pos, close, CharClass::Space);
        assert(elements.subrange(i, elements.len() as int) =~= Seq::empty());
    }
}

/// Where a component stands written at `pos`, whatever the white space
/// between its tokens, the parser consumes exactly what is written and
/// returns the component.
pub proof fn lemma_component_written(
    s: Seq<char>,
    pos: int,
    component: ComponentView,
    parameters: Seq<Seq<char>>,
    layout: ComponentLayout,
)
    requires
        component.is_writable(parameters),
        layout.is_blank(component),
        has_at(s, pos, component_text(component, parameters, layout)),
    ensures
        spec_component(s, pos) matches Ok((next, found)) && next == pos + component_text(
            component,
            parameters,
            layout,
        ).len() && found.0 == component,
{
    let name = component.name.text();
    let listed = list_text(parameters, layout.parameters, '(', ')');
    let nets = list_text(token_texts(component.exported_nets), layout.nets, '<', '>');
    let inner = body_text(component.body, layout.body, layout.close, 0);
    let braced = seq!['{'] + inner;
    let spaced = layout.brace + braced;
    let netted = nets + spaced;
    let built = listed + netted;
    let named = name + built;
    let gapped = layout.name + named;
    let worded = keyword() + gapped;
    let at_word = pos + layout.word.len();
    let at_gap = at_word + 9;
    let at_name = at_gap + layout.name.len();
    let at_list = at_name + name.len();
    let at_nets = at_list + listed.len();
    let at_space = at_nets + nets.len();
    let at_brace = at_space + layout.brace.len();
    lemma_has_at_split(s, pos, layout.word, worded);
    lemma_has_at_split(s, at_word, keyword(), gapped);
    lemma_has_at_split(s, at_gap, layout.name, named);
    lemma_has_at_split(s, at_name, name, built);
    lemma_has_at_split(s, at_list, listed, netted);
    lemma_has_at_split(s, at_nets, nets, spaced);
    lemma_has_at_split(s, at_space, layout.brace, braced);
    lemma_has_at_split(s, at_brace, seq!['{'], inner);
    lemma_has_at_index(s, at_word, keyword());
    lemma_has_at_index(s, at_name, named);
    lemma_has_at_index(s, at_list, listed);
    lemma_has_at_index(s, at_brace, seq!['{']);
    assert(s[at_word + 0] == 'c');
    assert(s[at_name + 0] == name[0]);
    assert(s[at_list + 0] == listed[0]);
    assert(s[at_brace + 0] == '{');
    lemma_run_over(s, pos, layout.word, CharClass::Space);
    lemma_run_over(s, at_gap, layout.name, CharClass::Space);
    lemma_identifier_at(s, at_name, name, CharClass::Upper);
    lemma_list_written::<Parameters>(
        s,
        at_list,
        component.parameters,
        parameters,
        layout.parameters,
        '(',
        ')',
        constructor(),
    );
    lemma_list_written::<UpperIdentifiers>(
        s,
        at_nets,
        component.exported_nets,
        token_texts(component.exported_nets),
        layout.nets,
        '<',
        '>',
        net_constructor(),
    );
    lemma_run_over(s, at_space, layout.brace, CharClass::Space);
    lemma_body_written(s, at_brace + 1, component.body, layout.body, layout.close, 0);
    assert(component.body.subrange(0, component.body.len() as int) =~= component.body);
}

/// White space before a component is insignificant: the parser yields from
/// `pos` what it yields from behind the white space at `pos`.
pub proof fn lemma_component_leading_space(s: Seq<char>, pos: int)
    ensures
        spec_component(s, pos) == spec_component(s, run_end(s, pos, CharClass::Space)),
        spec_body(s, pos) == spec_body(s, run_end(s, pos, CharClass::Space)),
{
    lemma_run_end_again(s, pos, CharClass::Space);
}

} // verus!
