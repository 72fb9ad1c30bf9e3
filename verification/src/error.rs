//! The structured error that every parser returns on failure.
use crate::chars::CharClass;
use vstd::prelude::*;

verus! {

/// What a parser was looking for where it failed.
#[derive(Clone, Copy, Debug, PartialEq, Eq, Structural)]
pub enum Expected {
    /// A character of a class.
    Class(CharClass),
    /// One given character.
    Char(char),
    /// The keyword `component`.
    Keyword,
}

/// Where a name has to be unique.
#[derive(Clone, Copy, Debug, PartialEq, Eq, Structural)]
pub enum Scope {
    /// Among the components of a document.
    Document,
    /// Among the parameters, the exported nets or the elements of one component.
    Component,
}

/// The kinds of failure.
#[derive(Clone, Debug, PartialEq, Eq)]
pub enum ErrorKind {
    /// The character at this position cannot start the token that stands here.
    LexError { class: CharClass, found: Option<char> },
    /// A digit run is followed by something that is no magnitude suffix.
    UnknownSuffix { found: Option<char> },
    /// A token or keyword is missing where the parser had not committed yet.
    SyntaxError { expected: Expected, found: Option<char> },
    /// A bracketed construct was opened, and neither a separator nor its
    /// closing delimiter follows an item.
    UnbalancedDelimiter { close: char, found: Option<char> },
    /// A name is declared more than once in its scope; `locations` holds the
    /// offset of every declaration of it, in source order.
    DuplicateName { name: String, scope: Scope, locations: Vec<usize> },
}

/// The mathematical value of an `ErrorKind`.
pub enum ErrorKindView {
    LexError { class: CharClass, found: Option<char> },
    UnknownSuffix { found: Option<char> },
    SyntaxError { expected: Expected, found: Option<char> },
    UnbalancedDelimiter { close: char, found: Option<char> },
    DuplicateName { name: Seq<char>, scope: Scope, locations: Seq<usize> },
}

impl View for ErrorKind {
    type V = ErrorKindView;

    open spec fn view(&self) -> ErrorKindView {
        match *self {
            ErrorKind::LexError { class, found } => ErrorKindView::LexError { class, found },
            ErrorKind::UnknownSuffix { found } => ErrorKindView::UnknownSuffix { found },
            ErrorKind::SyntaxError { expected, found } => ErrorKindView::SyntaxError {
                expected,
                found,
            },
            ErrorKind::UnbalancedDelimiter { close, found } => ErrorKindView::UnbalancedDelimiter {
                close,
                found,
            },
            ErrorKind::DuplicateName { name, scope, locations } => ErrorKindView::DuplicateName {
                name: name@,
                scope,
                locations: locations@,
            },
        }
    }
}

/// A failed parse: what went wrong, where, and inside which constructs.
#[derive(Clone, Debug, PartialEq, Eq)]
pub struct ParseError {
    pub kind: ErrorKind,
    /// The offset, in characters, at which the parse failed.
    pub offset: usize,
    /// Whether the failure lies behind a commit point, so that no enclosing
    /// rule may try another production.
    pub fatal: bool,
    /// The labels of the committed constructs around the failure, innermost
    /// first.
    pub context: Vec<String>,
}

/// The mathematical value of a `ParseError`.
pub struct ParseErrorView {
    pub kind: ErrorKindView,
    pub offset: int,
    pub fatal: bool,
    pub context: Seq<Seq<char>>,
}

/// The character at `pos`, if the input reaches that far.
pub open spec fn found_at(s: Seq<char>, pos: int) -> Option<char> {
    if 0 <= pos < s.len() {
        Some(s[pos])
    } else {
        None
    }
}

/// The recoverable error of the given kind at `pos`, outside any construct.
pub open spec fn recoverable(kind: ErrorKindView, pos: int) -> ParseErrorView {
    ParseErrorView { kind, offset: pos, fatal: false, context: Seq::empty() }
}

pub open spec fn lex_error(s: Seq<char>, pos: int, class: CharClass) -> ParseErrorView {
    recoverable(ErrorKindView::LexError { class, found: found_at(s, pos) }, pos)
}

pub open spec fn unknown_suffix(s: Seq<char>, pos: int) -> ParseErrorView {
    recoverable(ErrorKindView::UnknownSuffix { found: found_at(s, pos) }, pos)
}

pub open spec fn syntax_error(s: Seq<char>, pos: int, expected: Expected) -> ParseErrorView {
    recoverable(ErrorKindView::SyntaxError { expected, found: found_at(s, pos) }, pos)
}

pub open spec fn unbalanced(s: Seq<char>, pos: int, close: char) -> ParseErrorView {
    recoverable(ErrorKindView::UnbalancedDelimiter { close, found: found_at(s, pos) }, pos)
}

impl ParseErrorView {
    /// The error as it leaves a committed construct named `label`: fatal, with
    /// the label added behind those of the constructs further in.
    pub open spec fn committed(self, label: Seq<char>) -> ParseErrorView {
        ParseErrorView { fatal: true, context: self.context.push(label), ..self }
    }

    /// The error as it leaves a construct named `label` that commits only in
    /// its bracketed parts: a fatal error gets the label, another stays as it is.
    pub open spec fn labelled(self, label: Seq<char>) -> ParseErrorView {
        if self.fatal {
            self.committed(label)
        } else {
            self
        }
    }
}

impl DeepView for ParseError {
    type V = ParseErrorView;

    open spec fn deep_view(&self) -> ParseErrorView {
        self@
    }
}

impl View for ParseError {
    type V = ParseErrorView;

    open spec fn view(&self) -> ParseErrorView {
        ParseErrorView {
            kind: self.kind@,
            offset: self.offset as int,
            fatal: self.fatal,
            context: self.context.deep_view(),
        }
    }
}

/// What a parser yields in specifications: the position behind what it
/// consumed together with the value, or the error.
pub type Outcome<T> = Result<(int, T), ParseErrorView>;

/// What a parser returns: the position behind what it consumed together with
/// the value, or the error.
pub type Parsed<T> = Result<(usize, T), ParseError>;

/// Whether the result `r` of a parser is the outcome `m`.
pub open spec fn agrees<T: DeepView>(r: Parsed<T>, m: Outcome<T::V>) -> bool {
    match r {
        Ok((next, value)) => m == Ok::<(int, T::V), ParseErrorView>((next as int, value.deep_view())),
        Err(e) => m == Err::<(int, T::V), ParseErrorView>(e@),
    }
}

/// The character at `pos`, if the input reaches that far.
pub fn peek(input: &[char], pos: usize) -> (found: Option<char>)
    ensures
        found == found_at(input@, pos as int),
{
    if pos < input.len() {
        Some(input[pos])
    } else {
        None
    }
}

/// Whether the character `c` stands at `pos`.
pub fn stands_at(input: &[char], pos: usize, c: char) -> (b: bool)
    ensures
        b == (found_at(input@, pos as int) == Some(c)),
        b ==> pos < input@.len() <= usize::MAX,
{
    pos < input.len() && input[pos] == c
}

impl ParseError {
    /// A recoverable error of the given kind at `pos`.
    pub fn new(kind: ErrorKind, pos: usize) -> (e: ParseError)
        ensures
            e@ == recoverable(kind@, pos as int),
    {
        let e = ParseError { kind, offset: pos, fatal: false, context: Vec::new() };
        assert(e.context.deep_view() =~= Seq::empty());
        e
    }

    pub fn lex(input: &[char], pos: usize, class: CharClass) -> (e: ParseError)
        ensures
            e@ == lex_error(input@, pos as int, class),
    {
        ParseError::new(ErrorKind::LexError { class, found: peek(input, pos) }, pos)
    }

    pub fn suffix(input: &[char], pos: usize) -> (e: ParseError)
        ensures
            e@ == unknown_suffix(input@, pos as int),
    {
        ParseError::new(ErrorKind::UnknownSuffix { found: peek(input, pos) }, pos)
    }

    pub fn syntax(input: &[char], pos: usize, expected: Expected) -> (e: ParseError)
        ensures
            e@ == syntax_error(input@, pos as int, expected),
    {
        ParseError::new(ErrorKind::SyntaxError { expected, found: peek(input, pos) }, pos)
    }

    pub fn unbalanced(input: &[char], pos: usize, close: char) -> (e: ParseError)
        ensures
            e@ == unbalanced(input@, pos as int, close),
    {
        ParseError::new(ErrorKind::UnbalancedDelimiter { close, found: peek(input, pos) }, pos)
    }

    /// Marks the error fatal and adds `label` to its context.
    pub fn committed(self, label: &str) -> (e: ParseError)
        ensures
            e@ == self@.committed(label@),
    {
        let mut context = self.context;
        let ghost before = context.deep_view();
        context.push(label.to_owned());
        assert(context.deep_view() =~= before.push(label@));
        ParseError { kind: self.kind, offset: self.offset, fatal: true, context }
    }

    /// Adds `label` to the context of a fatal error; leaves another unchanged.
    pub fn labelled(self, label: &str) -> (e: ParseError)
        ensures
            e@ == self@.labelled(label@),
    {
        if self.fatal {
            self.committed(label)
        } else {
            self
        }
    }
}

} // verus!
