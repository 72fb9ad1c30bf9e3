//! One element: an instance of a component type with its constructor
//! arguments and its net bindings, as in `r1 = R(10k)<N1, N2>`.
use crate::chars::{
    all_of, has_at, lemma_has_at_index, lemma_has_at_split, lemma_has_at_whole,
    lemma_run_end_again,
    lemma_run_end_bounds, lemma_run_over, run_end, skip_run, CharClass,
};
use crate::error::{agrees, Outcome, ParseErrorView, Parsed};
use crate::parser::list::{
    all_written, lemma_list_advances, lemma_list_written, list, list_text, spec_list, ItemParser,
    ListLayout,
};
use crate::parser::util::{
    is_digit_run, lemma_number_at, number_suffix, number_text, spec_number_suffix, NumericLiteral,
    NumericLiteralView,
};
use crate::tokenizer::{
    identifier_of, is_identifier_text, lemma_identifier_at, spec_identifier, spec_punctuation,
    spec_upper_id, upper_id, Token, TokenView,
};
use vstd::prelude::*;
use vstd::string::StringExecFns;

verus! {

/// An instance of a component type.
#[derive(Clone, Debug, PartialEq, Eq)]
pub struct Element {
    /// The name of the instance, a `Token::LowerIdentifier`.
    pub instance_name: Token,
    /// The name of the component type, a `Token::UpperIdentifier`.
    pub component: Token,
    /// The constructor arguments, bound by position.
    pub args: Vec<NumericLiteral>,
    /// The nets, each a `Token::UpperIdentifier`, bound by position.
    pub nets: Vec<Token>,
}

/// The mathematical value of an `Element`.
pub struct ElementView {
    pub instance_name: TokenView,
    pub component: TokenView,
    pub args: Seq<NumericLiteralView>,
    pub nets: Seq<TokenView>,
}

impl View for Element {
    type V = ElementView;

    open spec fn view(&self) -> ElementView {
        ElementView {
            instance_name: self.instance_name@,
            component: self.component@,
            args: self.args.deep_view(),
            nets: self.nets.deep_view(),
        }
    }
}

impl DeepView for Element {
    type V = ElementView;

    open spec fn deep_view(&self) -> ElementView {
        self@
    }
}

/// The item parser of a list of upper-case identifiers.
pub struct UpperIdentifiers;

impl ItemParser for UpperIdentifiers {
    type Item = Token;

    open spec fn spec_item(s: Seq<char>, pos: int) -> Outcome<TokenView> {
        spec_upper_id(s, pos)
    }

    fn item(input: &[char], pos: usize) -> (r: Parsed<Token>) {
        upper_id(input, pos)
    }

    proof fn lemma_item_advances(s: Seq<char>, pos: int) {
        lemma_run_end_bounds(s, pos + 1, CharClass::IdChar);
    }

    open spec fn written(value: TokenView, text: Seq<char>) -> bool {
        value == TokenView::UpperIdentifier(text) && is_identifier_text(text, CharClass::Upper)
    }

    proof fn lemma_written_starts(value: TokenView, text: Seq<char>) {
    }

    proof fn lemma_written_is_read(
        s: Seq<char>,
        pos: int,
        value: TokenView,
        text: Seq<char>,
        close: char,
    ) {
        lemma_run_end_bounds(s, pos + text.len(), CharClass::Space);
        lemma_identifier_at(s, pos, text, CharClass::Upper);
    }
}

/// The item parser of a list of numeric literals.
pub struct Numbers;

impl ItemParser for Numbers {
    type Item = NumericLiteral;

    open spec fn spec_item(s: Seq<char>, pos: int) -> Outcome<NumericLiteralView> {
        spec_number_suffix(s, pos)
    }

    fn item(input: &[char], pos: usize) -> (r: Parsed<NumericLiteral>) {
        number_suffix(input, pos)
    }

    proof fn lemma_item_advances(s: Seq<char>, pos: int) {
        lemma_run_end_bounds(s, pos, CharClass::Space);
        lemma_run_end_bounds(s, run_end(s, pos, CharClass::Space), CharClass::Digit);
    }

    open spec fn written(value: NumericLiteralView, text: Seq<char>) -> bool {
        is_digit_run(value.digits) && text == number_text(value)
    }

    proof fn lemma_written_starts(value: NumericLiteralView, text: Seq<char>) {
    }

    proof fn lemma_written_is_read(
        s: Seq<char>,
        pos: int,
        value: NumericLiteralView,
        text: Seq<char>,
        close: char,
    ) {
        lemma_number_at(s, pos, value.digits, value.suffix.spec_letter());
    }
}

/// The label of a list of constructor arguments in the context of an error.
pub open spec fn component_constructor() -> Seq<char> {
    "component constructor"@
}

/// The label of a list of nets in the context of an error.
pub open spec fn net_constructor() -> Seq<char> {
    "net constructor"@
}

/// An equals sign behind optional white space.
pub open spec fn spec_equal(s: Seq<char>, pos: int) -> Outcome<TokenView> {
    spec_punctuation(s, run_end(s, pos, CharClass::Space), '=', TokenView::Equal)
}

/// Parses an equals sign behind optional white space.
pub fn equal(input: &[char], pos: usize) -> (r: Parsed<Token>)
    ensures
        agrees(r, spec_equal(input@, pos as int)),
{
    crate::tokenizer::equal(input, skip_run(input, pos, CharClass::Space))
}

/// Parses the constructor arguments of an element: numeric literals in
/// parentheses. Returns the literals and the offset of each.
pub fn com_cons(input: &[char], pos: usize) -> (r: Parsed<(Vec<NumericLiteral>, Vec<usize>)>)
    ensures
        agrees(r, spec_list::<Numbers>(input@, pos as int, '(', ')', component_constructor())),
{
    list::<Numbers>(input, pos, '(', ')', "component constructor")
}

/// Parses the net bindings of an element: upper-case identifiers in angle
/// brackets. Returns the identifiers and the offset of each.
pub fn net_cons(input: &[char], pos: usize) -> (r: Parsed<(Vec<Token>, Vec<usize>)>)
    ensures
        agrees(r, spec_list::<UpperIdentifiers>(input@, pos as int, '<', '>', net_constructor())),
{
    list::<UpperIdentifiers>(input, pos, '<', '>', "net constructor")
}

/// The head of an element: the instance's name, an equals sign and the name
/// of the component type, with optional white space before each.
pub open spec fn spec_elements(s: Seq<char>, pos: int) -> Outcome<(Seq<char>, Seq<char>)> {
    match spec_identifier(s, run_end(s, pos, CharClass::Space), CharClass::LowerStart) {
        Err(e) => Err(e),
        Ok((named, instance)) => match spec_equal(s, named) {
            Err(e) => Err(e),
            Ok((bound, _)) => match spec_identifier(
                s,
                run_end(s, bound, CharClass::Space),
                CharClass::Upper,
            ) {
                Err(e) => Err(e),
                Ok((next, component)) => Ok((next, (instance, component))),
            },
        },
    }
}

/// Parses the head of an element, `name = Type`, and returns the two names.
pub fn elements(input: &[char], pos: usize) -> (r: Parsed<(String, String)>)
    ensures
        agrees(r, spec_elements(input@, pos as int)),
{
    let start = skip_run(input, pos, CharClass::Space);
    match identifier_of(input, start, CharClass::LowerStart) {
        Err(e) => Err(e),
        Ok((named, instance)) => match equal(input, named) {
            Err(e) => Err(e),
            Ok((bound, _)) => {
                let start = skip_run(input, bound, CharClass::Space);
                match identifier_of(input, start, CharClass::Upper) {
                    Err(e) => Err(e),
                    Ok((next, component)) => Ok((next, (instance, component))),
                }
            },
        },
    }
}

/// The label of the element named `name` in the context of an error.
pub open spec fn element_label(name: Seq<char>) -> Seq<char> {
    "element "@ + name
}

/// An element at `pos`: its head, its constructor arguments and its net
/// bindings. A failure in the head, or to find an opening delimiter, is
/// recoverable; one inside either list is fatal and carries the list's
/// label and then the element's.
pub open spec fn spec_element(s: Seq<char>, pos: int) -> Outcome<ElementView> {
    match spec_elements(s, pos) {
        Err(e) => Err(e),
        Ok((headed, (instance, component))) => match spec_list::<Numbers>(
            s,
            headed,
            '(',
            ')',
            component_constructor(),
        ) {
            Err(e) => Err(e.labelled(element_label(instance))),
            Ok((built, (args, _))) => match spec_list::<UpperIdentifiers>(
                s,
                built,
                '<',
                '>',
                net_constructor(),
            ) {
                Err(e) => Err(e.labelled(element_label(instance))),
                Ok((next, (nets, _))) => Ok(
                    (
                        next,
                        ElementView {
                            instance_name: TokenView::LowerIdentifier(instance),
                            component: TokenView::UpperIdentifier(component),
                            args,
                            nets,
                        },
                    ),
                ),
            },
        },
    }
}

/// The head of an element is never empty and lies inside the input.
pub proof fn lemma_elements_advance(s: Seq<char>, pos: int)
    ensures
        spec_elements(s, pos) matches Ok((next, _)) ==> 0 <= pos < next <= s.len(),
{
    let start = run_end(s, pos, CharClass::Space);
    lemma_run_end_bounds(s, pos, CharClass::Space);
    lemma_run_end_bounds(s, start + 1, CharClass::IdChar);
    if let Ok((named, _)) = spec_identifier(s, start, CharClass::LowerStart) {
        let sign = run_end(s, named, CharClass::Space);
        lemma_run_end_bounds(s, named, CharClass::Space);
        let typed = run_end(s, sign + 1, CharClass::Space);
        lemma_run_end_bounds(s, sign + 1, CharClass::Space);
        lemma_run_end_bounds(s, typed + 1, CharClass::IdChar);
    }
}

/// An element is never empty and lies inside the input.
pub proof fn lemma_element_advances(s: Seq<char>, pos: int)
    ensures
        spec_element(s, pos) matches Ok((next, _)) ==> 0 <= pos < next <= s.len(),
{
    lemma_elements_advance(s, pos);
    if let Ok((headed, _)) = spec_elements(s, pos) {
        lemma_list_advances::<Numbers>(s, headed, '(', ')', component_constructor());
        if let Ok((built, _)) = spec_list::<Numbers>(s, headed, '(', ')', component_constructor()) {
            lemma_list_advances::<UpperIdentifiers>(s, built, '<', '>', net_constructor());
        }
    }
}

/// The white space of a written element: before the instance's name, before
/// the equals sign, before the name of the component type, and in the two
/// lists.
pub struct ElementLayout {
    pub name: Seq<char>,
    pub sign: Seq<char>,
    pub component: Seq<char>,
    pub args: ListLayout,
    pub nets: ListLayout,
}

impl ElementLayout {
    /// Whether the layout is white space only, and fits `element`.
    pub open spec fn is_blank(self, element: ElementView) -> bool {
        &&& all_of(self.name, CharClass::Space)
        &&& all_of(self.sign, CharClass::Space)
        &&& all_of(self.component, CharClass::Space)
        &&& self.args.is_blank(element.args.len())
        &&& self.nets.is_blank(element.nets.len())
    }
}

impl ElementView {
    /// Whether the element can be written in the grammar: its names are
    /// identifiers of their classes, and its arguments hold digit runs.
    pub open spec fn is_writable(self) -> bool {
        &&& self.instance_name == TokenView::LowerIdentifier(self.instance_name.text())
        &&& is_identifier_text(self.instance_name.text(), CharClass::LowerStart)
        &&& self.component == TokenView::UpperIdentifier(self.component.text())
        &&& is_identifier_text(self.component.text(), CharClass::Upper)
        &&& forall|i: int| 0 <= i < self.args.len() ==> is_digit_run((#[trigger] self.args[i]).digits)
        &&& forall|i: int|
            0 <= i < self.nets.len() ==> UpperIdentifiers::written(
                #[trigger] self.nets[i],
                self.nets[i].text(),
            )
    }
}

/// The literals as they are written.
pub open spec fn number_texts(literals: Seq<NumericLiteralView>) -> Seq<Seq<char>> {
    Seq::new(literals.len(), |i: int| number_text(literals[i]))
}

/// The identifiers as they are written.
pub open spec fn token_texts(tokens: Seq<TokenView>) -> Seq<Seq<char>> {
    Seq::new(tokens.len(), |i: int| tokens[i].text())
}

/// An element as it is written with the white space of `layout`.
pub open spec fn element_text(element: ElementView, layout: ElementLayout) -> Seq<char> {
    layout.name + (element.instance_name.text() + (layout.sign + (seq!['='] + (layout.component + (
    element.component.text() + (list_text(number_texts(element.args), layout.args, '(', ')')
        + list_text(token_texts(element.nets), layout.nets, '<', '>')))))))
}

/// Where an element stands written at `pos`, whatever the white space
/// between its tokens, the parser consumes exactly what is written and
/// returns the element.
pub proof fn lemma_element_written(s: Seq<char>, pos: int, element: ElementView, layout: ElementLayout)
    requires
        element.is_writable(),
        layout.is_blank(element),
        has_at(s, pos, element_text(element, layout)),
    ensures
        spec_element(s, pos) == Ok::<(int, ElementView), ParseErrorView>(
            (pos + element_text(element, layout).len(), element),
        ),
{
    let name = element.instance_name.text();
    let kind = element.component.text();
    let args = list_text(number_texts(element.args), layout.args, '(', ')');
    let nets = list_text(token_texts(element.nets), layout.nets, '<', '>');
    let lists = args + nets;
    let typed = kind + lists;
    let spaced = layout.component + typed;
    let signed = seq!['='] + spaced;
    let gapped = layout.sign + signed;
    let named = name + gapped;
    let at_name = pos + layout.name.len();
    let at_gap = at_name + name.len();
    let at_sign = at_gap + layout.sign.len();
    let at_space = at_sign + 1;
    let at_kind = at_space + layout.component.len();
    let at_args = at_kind + kind.len();
    let at_nets = at_args + args.len();
    lemma_has_at_split(s, pos, layout.name, named);
    lemma_has_at_split(s, at_name, name, gapped);
    lemma_has_at_split(s, at_gap, layout.sign, signed);
    lemma_has_at_split(s, at_sign, seq!['='], spaced);
    lemma_has_at_split(s, at_space, layout.component, typed);
    lemma_has_at_split(s, at_kind, kind, lists);
    lemma_has_at_split(s, at_args, args, nets);
    lemma_has_at_index(s, at_name, named);
    lemma_has_at_index(s, at_gap, gapped);
    lemma_has_at_index(s, at_sign, signed);
    lemma_has_at_index(s, at_kind, typed);
    lemma_has_at_index(s, at_args, args);
    assert(s[at_name + 0] == name[0]);
    assert(s[at_gap + 0] == gapped[0]);
    assert(s[at_sign + 0] == '=');
    assert(s[at_kind + 0] == kind[0]);
    assert(s[at_args + 0] == args[0]);
    lemma_run_over(s, pos, layout.name, CharClass::Space);
    lemma_identifier_at(s, at_name, name, CharClass::LowerStart);
    lemma_run_over(s, at_gap, layout.sign, CharClass::Space);
    lemma_run_over(s, at_space, layout.component, CharClass::Space);
    lemma_identifier_at(s, at_kind, kind, CharClass::Upper);
    assert(all_written::<Numbers>(element.args, number_texts(element.args)));
    assert(all_written::<UpperIdentifiers>(element.nets, token_texts(element.nets)));
    lemma_list_written::<Numbers>(
        s,
        at_args,
        element.args,
        number_texts(element.args),
        layout.args,
        '(',
        ')',
        component_constructor(),
    );
    lemma_list_written::<UpperIdentifiers>(
        s,
        at_nets,
        element.nets,
        token_texts(element.nets),
        layout.nets,
        '<',
        '>',
        net_constructor(),
    );
}

/// An element that is written on its own is parsed whole, to the element
/// that was written.
pub proof fn lemma_element_alone(element: ElementView, layout: ElementLayout)
    requires
        element.is_writable(),
        layout.is_blank(element),
    ensures
        spec_element(element_text(element, layout), 0) == Ok::<(int, ElementView), ParseErrorView>(
            (element_text(element, layout).len() as int, element),
        ),
{
    let text = element_text(element, layout);
    lemma_has_at_whole(text);
    lemma_element_written(text, 0, element, layout);
}

/// An element is insensitive to white space: written with any two layouts,
/// it is parsed to the same value.
pub proof fn lemma_element_layout_free(element: ElementView, one: ElementLayout, other: ElementLayout)
    requires
        element.is_writable(),
        one.is_blank(element),
        other.is_blank(element),
    ensures
        spec_element(element_text(element, one), 0) is Ok,
        spec_element(element_text(element, other), 0) is Ok,
        spec_element(element_text(element, one), 0)->Ok_0.1 == spec_element(
            element_text(element, other),
            0,
        )->Ok_0.1,
{
    lemma_element_alone(element, one);
    lemma_element_alone(element, other);
}

/// White space before an element is insignificant: the parser yields from
/// `pos` what it yields from behind the white space at `pos`.
pub proof fn lemma_element_leading_space(s: Seq<char>, pos: int)
    ensures
        spec_elements(s, pos) == spec_elements(s, run_end(s, pos, CharClass::Space)),
        spec_element(s, pos) == spec_element(s, run_end(s, pos, CharClass::Space)),
{
    lemma_run_end_again(s, pos, CharClass::Space);
}

/// Parses one element.
pub fn element(input: &[char], pos: usize) -> (r: Parsed<Element>)
    ensures
        agrees(r, spec_element(input@, pos as int)),
{
    match elements(input, pos) {
        Err(e) => Err(e),
        Ok((headed, (instance, component))) => {
            let mut label = "element ".to_owned();
            label.append(instance.as_str());
            match com_cons(input, headed) {
                Err(e) => Err(e.labelled(label.as_str())),
                Ok((built, (args, _))) => match net_cons(input, built) {
                    Err(e) => Err(e.labelled(label.as_str())),
                    Ok((next, (nets, _))) => Ok(
                        (
                            next,
                            Element {
                                instance_name: Token::LowerIdentifier(instance),
                                component: Token::UpperIdentifier(component),
                                args,
                                nets,
                            },
                        ),
                    ),
                },
            }
        },
    }
}

} // verus!
