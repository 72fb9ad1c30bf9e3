//! A whole document: its components, and the check that names are unique.
use crate::chars::{
    all_of, has_at, lemma_has_at_index, lemma_has_at_split, lemma_has_at_whole,
    lemma_run_end_bounds, lemma_run_over, run_end, skip_run, CharClass,
};
use crate::error::{ErrorKindView, ParseError, ParseErrorView, Scope};
use crate::names::{
    check_unique, distinct, duplicate, lemma_duplicate, lemma_first_repeat, names_of, spec_names,
    Named,
};
use crate::parser::component::{
    component, component_label, component_text, lemma_component_advances,
    lemma_component_leading_space, lemma_component_written, spec_component, Component,
    ComponentLayout, ComponentView, Parameter, ParameterView, Spans, SpansView,
};
use crate::parser::element::{Element, ElementView};
use crate::tokenizer::{Token, TokenView};
use vstd::prelude::*;
use vstd::string::StringExecFns;

verus! {

impl Named for Token {
    open spec fn spec_name(value: TokenView) -> Seq<char> {
        value.text()
    }

    fn name(&self) -> (text: String) {
        self.text()
    }
}

impl Named for Parameter {
    open spec fn spec_name(value: ParameterView) -> Seq<char> {
        value.name.text()
    }

    fn name(&self) -> (text: String) {
        self.name.text()
    }
}

impl Named for Element {
    open spec fn spec_name(value: ElementView) -> Seq<char> {
        value.instance_name.text()
    }

    fn name(&self) -> (text: String) {
        self.instance_name.text()
    }
}

impl Named for Component {
    open spec fn spec_name(value: ComponentView) -> Seq<char> {
        value.name.text()
    }

    fn name(&self) -> (text: String) {
        self.name.text()
    }
}

/// A document: components in the order of the source, no two of them under
/// one name.
#[derive(Clone, Debug, PartialEq, Eq)]
pub struct Document {
    pub components: Vec<Component>,
}

/// The mathematical value of a `Document`.
pub struct DocumentView {
    pub components: Seq<ComponentView>,
}

impl View for Document {
    type V = DocumentView;

    open spec fn view(&self) -> DocumentView {
        DocumentView { components: self.components.deep_view() }
    }
}

impl DeepView for Document {
    type V = DocumentView;

    open spec fn deep_view(&self) -> DocumentView {
        self@
    }
}

impl ComponentView {
    /// Whether no two parameters, no two exported nets and no two elements of
    /// the component share a name.
    pub open spec fn well_formed(self) -> bool {
        &&& distinct(spec_names::<Parameter>(self.parameters))
        &&& distinct(spec_names::<Token>(self.exported_nets))
        &&& distinct(spec_names::<Element>(self.body))
    }
}

impl DocumentView {
    /// Whether no two components share a name and every component is well
    /// formed.
    pub open spec fn well_formed(self) -> bool {
        &&& distinct(spec_names::<Component>(self.components))
        &&& forall|k: int|
            0 <= k < self.components.len() ==> (#[trigger] self.components[k]).well_formed()
    }
}

impl SpansView {
    /// Whether the spans hold one offset for each name that `component`
    /// declares.
    pub open spec fn fits(self, component: ComponentView) -> bool {
        &&& self.parameters.len() == component.parameters.len()
        &&& self.exported_nets.len() == component.exported_nets.len()
        &&& self.body.len() == component.body.len()
    }
}

/// Whether `spans` holds the spans of each of `components`, in order.
pub open spec fn all_fit(components: Seq<ComponentView>, spans: Seq<SpansView>) -> bool {
    &&& components.len() == spans.len()
    &&& forall|k: int| 0 <= k < components.len() ==> (#[trigger] spans[k]).fits(components[k])
}

/// The error for the first name that is declared twice inside `component`:
/// among its parameters, else among its exported nets, else among its
/// elements. The error carries the component's label.
pub open spec fn component_fault(component: ComponentView, spans: SpansView) -> Option<
    ParseErrorView,
> {
    let context = seq![component_label(component.name.text())];
    match duplicate(
        spec_names::<Parameter>(component.parameters),
        spans.parameters,
        Scope::Component,
        context,
    ) {
        Some(e) => Some(e),
        None => match duplicate(
            spec_names::<Token>(component.exported_nets),
            spans.exported_nets,
            Scope::Component,
            context,
        ) {
            Some(e) => Some(e),
            None => duplicate(
                spec_names::<Element>(component.body),
                spans.body,
                Scope::Component,
                context,
            ),
        },
    }
}

/// Looks for a name that is declared twice inside `component`.
pub fn check_component(component: &Component, spans: &Spans) -> (r: Option<ParseError>)
    requires
        spans@.fits(component@),
    ensures
        r.deep_view() == component_fault(component@, spans@),
{
    let mut label = "component ".to_owned();
    label.append(component.name.text().as_str());
    let mut context: Vec<String> = Vec::new();
    context.push(label.clone());
    assert(context.deep_view() =~= seq![component_label(component@.name.text())]);
    let parameters = names_of(&component.parameters);
    match check_unique(&parameters, &spans.parameters, Scope::Component, context) {
        Some(e) => {
            return Some(e);
        },
        None => {},
    }
    let mut context: Vec<String> = Vec::new();
    context.push(label.clone());
    assert(context.deep_view() =~= seq![component_label(component@.name.text())]);
    let nets = names_of(&component.exported_nets);
    match check_unique(&nets, &spans.exported_nets, Scope::Component, context) {
        Some(e) => {
            return Some(e);
        },
        None => {},
    }
    let mut context: Vec<String> = Vec::new();
    context.push(label);
    assert(context.deep_view() =~= seq![component_label(component@.name.text())]);
    let elements = names_of(&component.body);
    check_unique(&elements, &spans.body, Scope::Component, context)
}

/// The fault of the first of `components` that has one.
pub open spec fn first_fault(components: Seq<ComponentView>, spans: Seq<SpansView>) -> Option<
    ParseErrorView,
>
    recommends
        components.len() == spans.len(),
    decreases components.len(),
{
    if components.len() == 0 || spans.len() == 0 {
        None
    } else {
        match component_fault(components[0], spans[0]) {
            Some(e) => Some(e),
            None => first_fault(components.drop_first(), spans.drop_first()),
        }
    }
}

/// The offsets of the names of the components.
pub open spec fn name_offsets(spans: Seq<SpansView>) -> Seq<usize> {
    Seq::new(spans.len(), |k: int| spans[k].name)
}

/// The document that `components` make, or the error for the first name that
/// is declared twice: among the components, else inside the first component
/// that has such a name.
pub open spec fn spec_assemble(components: Seq<ComponentView>, spans: Seq<SpansView>) -> Result<
    DocumentView,
    ParseErrorView,
> {
    match duplicate(
        spec_names::<Component>(components),
        name_offsets(spans),
        Scope::Document,
        Seq::empty(),
    ) {
        Some(e) => Err(e),
        None => match first_fault(components, spans) {
            Some(e) => Err(e),
            None => Ok(DocumentView { components }),
        },
    }
}

/// Checks that names are unique among `components` and inside each of them,
/// and makes the document of them.
pub fn assemble(components: Vec<Component>, spans: &Vec<Spans>) -> (r: Result<Document, ParseError>)
    requires
        all_fit(components.deep_view(), spans.deep_view()),
    ensures
        parsed_as(r, spec_assemble(components.deep_view(), spans.deep_view())),
{
    let ghost all = components.deep_view();
    let ghost placed = spans.deep_view();
    let mut offsets: Vec<usize> = Vec::new();
    let mut k: usize = 0;
    while k < spans.len()
        invariant
            k <= spans@.len(),
            offsets@.len() == k,
            forall|i: int| 0 <= i < k ==> offsets@[i] == spans@[i].name,
        decreases spans@.len() - k,
    {
        offsets.push(spans[k].name);
        k = k + 1;
    }
    assert(offsets@ =~= name_offsets(placed));
    let names = names_of(&components);
    let context: Vec<String> = Vec::new();
    assert(context.deep_view() =~= Seq::empty());
    match check_unique(&names, &offsets, Scope::Document, context) {
        Some(e) => {
            return Err(e);
        },
        None => {},
    }
    assert(all.subrange(0, all.len() as int) =~= all);
    assert(placed.subrange(0, placed.len() as int) =~= placed);
    let mut k: usize = 0;
    while k < components.len()
        invariant
            k <= components@.len(),
            duplicate(
                spec_names::<Component>(all),
                name_offsets(placed),
                Scope::Document,
                Seq::empty(),
            ) is None,
            all == components.deep_view(),
            placed == spans.deep_view(),
            all_fit(all, placed),
            first_fault(all, placed) == first_fault(
                all.subrange(k as int, all.len() as int),
                placed.subrange(k as int, placed.len() as int),
            ),
        decreases components@.len() - k,
    {
        let ghost rest = all.subrange(k as int, all.len() as int);
        let ghost rest_placed = placed.subrange(k as int, placed.len() as int);
        assert(rest.drop_first() =~= all.subrange(k + 1, all.len() as int));
        assert(rest_placed.drop_first() =~= placed.subrange(k + 1, placed.len() as int));
        assert(rest[0] == components@[k as int]@);
        assert(rest_placed[0] == spans@[k as int]@);
        assert(placed[k as int].fits(all[k as int]));
        match check_component(&components[k], &spans[k]) {
            Some(e) => {
                return Err(e);
            },
            None => {},
        }
        k = k + 1;
    }
    Ok(Document { components })
}

/// Where no component has a fault, every component is well formed.
pub proof fn lemma_first_fault(components: Seq<ComponentView>, spans: Seq<SpansView>)
    requires
        components.len() == spans.len(),
        first_fault(components, spans) is None,
    ensures
        forall|k: int| 0 <= k < components.len() ==> (#[trigger] components[k]).well_formed(),
    decreases components.len(),
{
    if components.len() > 0 {
        let first = components[0];
        lemma_first_repeat(spec_names::<Parameter>(first.parameters));
        lemma_first_repeat(spec_names::<Token>(first.exported_nets));
        lemma_first_repeat(spec_names::<Element>(first.body));
        lemma_first_fault(components.drop_first(), spans.drop_first());
        assert forall|k: int| 0 <= k < components.len() implies (
        #[trigger] components[k]).well_formed() by {
            if k > 0 {
                assert(components[k] == components.drop_first()[k - 1]);
            }
        }
    }
}

/// A document that is assembled holds the components it was made of, and no
/// name is declared twice in it: not among its components, and not among the
/// parameters, the exported nets or the elements of any of them.
pub proof fn lemma_assembled_is_well_formed(components: Seq<ComponentView>, spans: Seq<SpansView>)
    requires
        components.len() == spans.len(),
    ensures
        spec_assemble(components, spans) matches Ok(document) ==> document.components
            == components && document.well_formed(),
{
    if spec_assemble(components, spans) is Ok {
        lemma_first_repeat(spec_names::<Component>(components));
        lemma_first_fault(components, spans);
    }
}

/// Where the component at `k` has a fault, a fault is found: that of the
/// first component that has one, which stands at `k` or before it.
pub proof fn lemma_fault_is_found(components: Seq<ComponentView>, spans: Seq<SpansView>, k: int)
    requires
        components.len() == spans.len(),
        0 <= k < components.len(),
        component_fault(components[k], spans[k]) is Some,
    ensures
        first_fault(components, spans) is Some,
        exists|m: int|
            0 <= m <= k && first_fault(components, spans) == #[trigger] component_fault(
                components[m],
                spans[m],
            ),
    decreases k,
{
    if component_fault(components[0], spans[0]) is None {
        lemma_fault_is_found(components.drop_first(), spans.drop_first(), k - 1);
        let m = choose|m: int|
            0 <= m <= k - 1 && first_fault(components.drop_first(), spans.drop_first())
                == #[trigger] component_fault(components.drop_first()[m], spans.drop_first()[m]);
        assert(first_fault(components, spans) == component_fault(
            components[m + 1],
            spans[m + 1],
        ));
    }
}

/// Where every component is well formed, none has a fault.
pub proof fn lemma_no_fault(components: Seq<ComponentView>, spans: Seq<SpansView>)
    requires
        all_fit(components, spans),
        forall|k: int| 0 <= k < components.len() ==> (#[trigger] components[k]).well_formed(),
    ensures
        first_fault(components, spans) is None,
    decreases components.len(),
{
    if components.len() > 0 {
        let first = components[0];
        assert(first.well_formed());
        assert(spans[0].fits(first));
        lemma_first_repeat(spec_names::<Parameter>(first.parameters));
        lemma_first_repeat(spec_names::<Token>(first.exported_nets));
        lemma_first_repeat(spec_names::<Element>(first.body));
        assert forall|k: int| 0 <= k < components.drop_first().len() implies (
        #[trigger] components.drop_first()[k]).well_formed() && (#[trigger] spans.drop_first()[k]).fits(
            components.drop_first()[k],
        ) by {
            assert(components[k + 1].well_formed());
            assert(spans[k + 1].fits(components[k + 1]));
        }
        lemma_no_fault(components.drop_first(), spans.drop_first());
    }
}

/// A source in which two components stand under one name fails with
/// `DuplicateName` in the scope of the document. The error cites a name
/// under which at least two components stand, with the offset of the name
/// of each of them, and lies at the second.
pub proof fn lemma_duplicate_component(s: Seq<char>, i: int, j: int)
    requires
        spec_components(s, 0) matches Ok(found) && 0 <= i < j < found.0.len() && found.0[i].name.text()
            == found.0[j].name.text(),
    ensures
        spec_parse(s) matches Err(e) && e.fatal && e.context == Seq::<Seq<char>>::empty() && (
        e.kind matches ErrorKindView::DuplicateName { name, scope, locations } && scope
            == Scope::Document && locations.len() >= 2 && e.offset == locations[1] && forall|
            k: int,
        |
            0 <= k < spec_components(s, 0)->Ok_0.0.len() && (
            #[trigger] spec_components(s, 0)->Ok_0.0[k]).name.text() == name ==> locations.contains(
                spec_components(s, 0)->Ok_0.1[k].name,
            )),
{
    let found = spec_components(s, 0)->Ok_0;
    let names = spec_names::<Component>(found.0);
    lemma_components_fit(s, 0);
    lemma_duplicate(names, name_offsets(found.1), Scope::Document, Seq::empty());
    assert(names[i] == names[j]);
    let e = spec_parse(s)->Err_0;
    if let ErrorKindView::DuplicateName { name, scope, locations } = e.kind {
        assert forall|k: int|
            0 <= k < found.0.len() && (#[trigger] found.0[k]).name.text()
                == name implies locations.contains(found.1[k].name) by {
            assert(names[k] == name);
            assert(name_offsets(found.1)[k] == found.1[k].name);
        }
    }
}

/// A source whose components stand under distinct names, and in which two
/// elements of one component stand under one name, fails with
/// `DuplicateName` in the scope of a component: it is the fault of the first
/// component that has one, and carries that component's label.
pub proof fn lemma_duplicate_element(s: Seq<char>, k: int, i: int, j: int)
    requires
        spec_components(s, 0) matches Ok(found) && distinct(spec_names::<Component>(found.0)) && 0
            <= k < found.0.len() && 0 <= i < j < found.0[k].body.len()
            && found.0[k].body[i].instance_name.text() == found.0[k].body[j].instance_name.text(),
    ensures
        spec_parse(s) matches Err(e) && e.fatal && (e.kind matches ErrorKindView::DuplicateName {
            scope,
            locations,
            ..
        } && scope == Scope::Component && locations.len() >= 2 && e.offset == locations[1])
            && exists|m: int|
            0 <= m <= k && spec_parse(s) == Err::<DocumentView, ParseErrorView>(
                #[trigger] component_fault(
                    spec_components(s, 0)->Ok_0.0[m],
                    spec_components(s, 0)->Ok_0.1[m],
                )->0,
            ) && e.context == seq![
                component_label(spec_components(s, 0)->Ok_0.0[m].name.text()),
            ],
{
    let found = spec_components(s, 0)->Ok_0;
    lemma_components_fit(s, 0);
    lemma_first_repeat(spec_names::<Component>(found.0));
    let it = found.0[k];
    let places = found.1[k];
    assert(places.fits(it));
    let names = spec_names::<Element>(it.body);
    assert(names[i] == names[j]);
    lemma_first_repeat(names);
    assert(component_fault(it, places) is Some);
    lemma_fault_is_found(found.0, found.1, k);
    let m = choose|m: int|
        0 <= m <= k && first_fault(found.0, found.1) == #[trigger] component_fault(
            found.0[m],
            found.1[m],
        );
    let context = seq![component_label(found.0[m].name.text())];
    assert(found.1[m].fits(found.0[m]));
    lemma_duplicate(
        spec_names::<Parameter>(found.0[m].parameters),
        found.1[m].parameters,
        Scope::Component,
        context,
    );
    lemma_duplicate(
        spec_names::<Token>(found.0[m].exported_nets),
        found.1[m].exported_nets,
        Scope::Component,
        context,
    );
    lemma_duplicate(
        spec_names::<Element>(found.0[m].body),
        found.1[m].body,
        Scope::Component,
        context,
    );
}

/// A source that is in the grammar and in which no name is declared twice
/// in its scope yields the document of its components.
pub proof fn lemma_parse_succeeds(s: Seq<char>)
    requires
        spec_components(s, 0) matches Ok(found) && (DocumentView {
            components: found.0,
        }).well_formed(),
    ensures
        spec_parse(s) == Ok::<DocumentView, ParseErrorView>(
            DocumentView { components: spec_components(s, 0)->Ok_0.0 },
        ),
{
    let found = spec_components(s, 0)->Ok_0;
    lemma_components_fit(s, 0);
    lemma_first_repeat(spec_names::<Component>(found.0));
    lemma_no_fault(found.0, found.1);
}

/// The components from `pos` on up to the end of the input, each with its
/// spans: white space may stand before each component and behind the last.
pub open spec fn spec_components(s: Seq<char>, pos: int) -> Result<
    (Seq<ComponentView>, Seq<SpansView>),
    ParseErrorView,
>
    decreases s.len() - pos,
{
    let start = run_end(s, pos, CharClass::Space);
    if start >= s.len() {
        Ok((Seq::empty(), Seq::empty()))
    } else {
        match spec_component(s, start) {
            Err(e) => Err(e),
            Ok((next, found)) => {
                proof {
                    lemma_run_end_bounds(s, pos, CharClass::Space);
                    lemma_component_advances(s, start);
                }
                match spec_components(s, next) {
                    Ok(rest) => Ok((seq![found.0] + rest.0, seq![found.1] + rest.1)),
                    Err(e) => Err(e),
                }
            },
        }
    }
}

/// The components that are parsed from a source come with spans that fit.
pub proof fn lemma_components_fit(s: Seq<char>, pos: int)
    ensures
        spec_components(s, pos) matches Ok(found) ==> all_fit(found.0, found.1),
    decreases s.len() - pos,
{
    let start = run_end(s, pos, CharClass::Space);
    lemma_run_end_bounds(s, pos, CharClass::Space);
    if start < s.len() {
        lemma_component_advances(s, start);
        if let Ok((next, _)) = spec_component(s, start) {
            lemma_components_fit(s, next);
        }
    }
}

/// The components from the one at `i` on as they are written, each with its
/// layout and its parameters as `parameters` write them, and the white space
/// `trailing` behind the last.
pub open spec fn document_text(
    components: Seq<ComponentView>,
    parameters: Seq<Seq<Seq<char>>>,
    layouts: Seq<ComponentLayout>,
    trailing: Seq<char>,
    i: int,
) -> Seq<char>
    decreases components.len() - i,
{
    if 0 <= i < components.len() {
        component_text(components[i], parameters[i], layouts[i]) + document_text(
            components,
            parameters,
            layouts,
            trailing,
            i + 1,
        )
    } else {
        trailing
    }
}

/// Whether each of `components` can be written in the grammar, its
/// parameters as `parameters` write them, and `layouts` holds white space
/// only and fits.
pub open spec fn writable(
    components: Seq<ComponentView>,
    parameters: Seq<Seq<Seq<char>>>,
    layouts: Seq<ComponentLayout>,
) -> bool {
    &&& components.len() == parameters.len()
    &&& components.len() == layouts.len()
    &&& forall|k: int|
        0 <= k < components.len() ==> (#[trigger] components[k]).is_writable(parameters[k])
            && layouts[k].is_blank(components[k])
}

/// Where the components from `i` on stand written from `pos` up to the end
/// of the source, whatever the white space, the parser returns these
/// components.
pub proof fn lemma_components_written(
    s: Seq<char>,
    pos: int,
    components: Seq<ComponentView>,
    parameters: Seq<Seq<Seq<char>>>,
    layouts: Seq<ComponentLayout>,
    trailing: Seq<char>,
    i: int,
)
    requires
        writable(components, parameters, layouts),
        all_of(trailing, CharClass::Space),
        0 <= i <= components.len(),
        has_at(s, pos, document_text(components, parameters, layouts, trailing, i)),
        pos + document_text(components, parameters, layouts, trailing, i).len() == s.len(),
    ensures
        spec_components(s, pos) matches Ok(found) && found.0 == components.subrange(
            i,
            components.len() as int,
        ),
    decreases components.len() - i,
{
    if i < components.len() {
        let component = components[i];
        let layout = layouts[i];
        let text = component_text(component, parameters[i], layout);
        let rest = document_text(components, parameters, layouts, trailing, i + 1);
        assert(component.is_writable(parameters[i]) && layout.is_blank(component));
        lemma_has_at_split(s, pos, text, rest);
        let worded = text.subrange(layout.word.len() as int, text.len() as int);
        assert(text =~= layout.word + worded);
        lemma_has_at_split(s, pos, layout.word, worded);
        let start = pos + layout.word.len();
        lemma_has_at_index(s, start, worded);
        assert(s[start + 0] == worded[0]);
        assert(worded[0] == 'c');
        lemma_run_over(s, pos, layout.word, CharClass::Space);
        lemma_component_leading_space(s, pos);
        lemma_component_written(s, pos, component, parameters[i], layout);
        lemma_components_written(
            s,
            pos + text.len(),
            components,
            parameters,
            layouts,
            trailing,
            i + 1,
        );
        assert(components.subrange(i, components.len() as int) =~= seq![component]
            + components.subrange(i + 1, components.len() as int));
    } else {
        lemma_run_over(s, pos, trailing, CharClass::Space);
        assert(components.subrange(i, components.len() as int) =~= Seq::empty());
    }
}

/// A document in which no name is declared twice in its scope, written in
/// the grammar with any white space between its tokens, is parsed to
/// itself.
pub proof fn lemma_round_trip(
    document: DocumentView,
    parameters: Seq<Seq<Seq<char>>>,
    layouts: Seq<ComponentLayout>,
    trailing: Seq<char>,
)
    requires
        document.well_formed(),
        writable(document.components, parameters, layouts),
        all_of(trailing, CharClass::Space),
    ensures
        spec_parse(document_text(document.components, parameters, layouts, trailing, 0)) == Ok::<
            DocumentView,
            ParseErrorView,
        >(document),
{
    let s = document_text(document.components, parameters, layouts, trailing, 0);
    lemma_has_at_whole(s);
    lemma_components_written(s, 0, document.components, parameters, layouts, trailing, 0);
    assert(document.components.subrange(0, document.components.len() as int)
        =~= document.components);
    lemma_parse_succeeds(s);
}

/// The outcome `rest` with the components `head` put before its own.
pub open spec fn after(
    head: (Seq<ComponentView>, Seq<SpansView>),
    rest: Result<(Seq<ComponentView>, Seq<SpansView>), ParseErrorView>,
) -> Result<(Seq<ComponentView>, Seq<SpansView>), ParseErrorView> {
    match rest {
        Ok(tail) => Ok((head.0 + tail.0, head.1 + tail.1)),
        Err(e) => Err(e),
    }
}

/// Parses the components of `input` from `pos` on up to its end.
pub fn components(input: &[char], pos: usize) -> (r: Result<(Vec<Component>, Vec<Spans>), ParseError>)
    ensures
        match r {
            Ok(found) => spec_components(input@, pos as int) == Ok::<
                (Seq<ComponentView>, Seq<SpansView>),
                ParseErrorView,
            >(found.deep_view()),
            Err(e) => spec_components(input@, pos as int) == Err::<
                (Seq<ComponentView>, Seq<SpansView>),
                ParseErrorView,
            >(e@),
        },
{
    let mut found: Vec<Component> = Vec::new();
    let mut spans: Vec<Spans> = Vec::new();
    let mut at: usize = pos;
    loop
        invariant
            spec_components(input@, pos as int) == after(
                (found.deep_view(), spans.deep_view()),
                spec_components(input@, at as int),
            ),
        decreases input@.len() - at,
    {
        let ghost before = found.deep_view();
        let ghost placed = spans.deep_view();
        let start = skip_run(input, at, CharClass::Space);
        if start >= input.len() {
            assert(before + Seq::empty() =~= before);
            assert(placed + Seq::empty() =~= placed);
            return Ok((found, spans));
        }
        proof {
            lemma_component_advances(input@, start as int);
        }
        match component(input, start) {
            Err(e) => {
                return Err(e);
            },
            Ok((next, (parsed, span))) => {
                let ghost c = parsed@;
                let ghost sp = span@;
                found.push(parsed);
                spans.push(span);
                assert(found.deep_view() =~= before.push(c));
                assert(spans.deep_view() =~= placed.push(sp));
                proof {
                    if let Ok(tail) = spec_components(input@, next as int) {
                        assert((before + (seq![c] + tail.0)) =~= (before.push(c) + tail.0));
                        assert((placed + (seq![sp] + tail.1)) =~= (placed.push(sp) + tail.1));
                    }
                }
                at = next;
            },
        }
    }
}

/// The document that the source `s` describes, or the one error that it
/// yields: the first failure of the grammar, or, where the whole source is
/// in the grammar, the first name that is declared twice.
pub open spec fn spec_parse(s: Seq<char>) -> Result<DocumentView, ParseErrorView> {
    match spec_components(s, 0) {
        Err(e) => Err(e),
        Ok(found) => spec_assemble(found.0, found.1),
    }
}

/// Whether the result `r` of parsing a document is `m`.
pub open spec fn parsed_as(r: Result<Document, ParseError>, m: Result<DocumentView, ParseErrorView>) -> bool {
    match r {
        Ok(document) => m == Ok::<DocumentView, ParseErrorView>(document@),
        Err(e) => m == Err::<DocumentView, ParseErrorView>(e@),
    }
}

/// Parses a document from its characters.
pub fn parse_chars(input: &[char]) -> (r: Result<Document, ParseError>)
    ensures
        parsed_as(r, spec_parse(input@)),
        r matches Ok(document) ==> document@.well_formed(),
{
    match components(input, 0) {
        Err(e) => Err(e),
        Ok((found, spans)) => {
            proof {
                lemma_components_fit(input@, 0);
                lemma_assembled_is_well_formed(found.deep_view(), spans.deep_view());
            }
            assemble(found, &spans)
        },
    }
}

/// Parses a document.
pub fn parse(source: &str) -> (r: Result<Document, ParseError>)
    ensures
        parsed_as(r, spec_parse(source@)),
        r matches Ok(document) ==> document@.well_formed(),
{
    let input = characters(source);
    parse_chars(input.as_slice())
}

/// The characters of `source`, in order.
pub fn characters(source: &str) -> (chars: Vec<char>)
    ensures
        chars@ == source@,
{
    let mut chars: Vec<char> = Vec::new();
    for c in it: source.chars()
        invariant
            it.seq() == source@,
            chars@ == it.seq().subrange(0, it.index()),
    {
        chars.push(c);
        assert(chars@ =~= it.seq().subrange(0, it.index() + 1));
    }
    assert(chars@ =~= source@);
    chars
}

} // verus!
