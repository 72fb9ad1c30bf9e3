//! The tokens of the language: single characters, punctuation and the three
//! kinds of identifier. None of these parsers skips white space.
use crate::chars::{
    has_at, is_digit, is_id_char, lemma_has_at_index, lemma_has_at_split, lemma_run_over, run_end,
    skip_run, CharClass,
};
use crate::error::{
    agrees, lex_error, syntax_error, Expected, Outcome, ParseError, ParseErrorView, Parsed,
};
use vstd::prelude::*;

verus! {

/// A token of the language.
#[derive(Clone, Debug, PartialEq, Eq)]
pub enum Token {
    /// An identifier that may start with any letter or an underscore.
    Identifier(String),
    /// An identifier that starts with an upper-case letter.
    UpperIdentifier(String),
    /// An identifier that starts with a lower-case letter or an underscore.
    LowerIdentifier(String),
    OpenParan,
    CloseParan,
    OpenCurlyBrace,
    CloseCurlyBrace,
    Comma,
    Colon,
    Equal,
}

/// The mathematical value of a `Token`.
pub enum TokenView {
    Identifier(Seq<char>),
    UpperIdentifier(Seq<char>),
    LowerIdentifier(Seq<char>),
    OpenParan,
    CloseParan,
    OpenCurlyBrace,
    CloseCurlyBrace,
    Comma,
    Colon,
    Equal,
}

impl TokenView {
    /// The characters of an identifier; empty for punctuation.
    pub open spec fn text(self) -> Seq<char> {
        match self {
            TokenView::Identifier(s) => s,
            TokenView::UpperIdentifier(s) => s,
            TokenView::LowerIdentifier(s) => s,
            _ => Seq::empty(),
        }
    }
}

impl View for Token {
    type V = TokenView;

    open spec fn view(&self) -> TokenView {
        match *self {
            Token::Identifier(s) => TokenView::Identifier(s@),
            Token::UpperIdentifier(s) => TokenView::UpperIdentifier(s@),
            Token::LowerIdentifier(s) => TokenView::LowerIdentifier(s@),
            Token::OpenParan => TokenView::OpenParan,
            Token::CloseParan => TokenView::CloseParan,
            Token::OpenCurlyBrace => TokenView::OpenCurlyBrace,
            Token::CloseCurlyBrace => TokenView::CloseCurlyBrace,
            Token::Comma => TokenView::Comma,
            Token::Colon => TokenView::Colon,
            Token::Equal => TokenView::Equal,
        }
    }
}

impl DeepView for Token {
    type V = TokenView;

    open spec fn deep_view(&self) -> TokenView {
        self@
    }
}

impl Token {
    /// The characters of an identifier; empty for punctuation.
    pub fn text(&self) -> (text: String)
        ensures
            text@ == self@.text(),
    {
        match self {
            Token::Identifier(s) => s.clone(),
            Token::UpperIdentifier(s) => s.clone(),
            Token::LowerIdentifier(s) => s.clone(),
            _ => String::new(),
        }
    }
}

/// `String::push` appends the character to the end of the string.
pub assume_specification[ String::push ](s: &mut String, ch: char)
    ensures
        final(s)@ == old(s)@.push(ch),
;

/// One character of `class` at `pos`.
pub open spec fn spec_one_of(s: Seq<char>, pos: int, class: CharClass) -> Outcome<char> {
    if 0 <= pos < s.len() && class.spec_contains(s[pos]) {
        Ok((pos + 1, s[pos]))
    } else {
        Err(lex_error(s, pos, class))
    }
}

/// The character `c` at `pos`.
pub open spec fn spec_symbol(s: Seq<char>, pos: int, c: char) -> Outcome<()> {
    if 0 <= pos < s.len() && s[pos] == c {
        Ok((pos + 1, ()))
    } else {
        Err(syntax_error(s, pos, Expected::Char(c)))
    }
}

/// An identifier at `pos` whose first character is of the class `first`: that
/// character and the longest run of identifier characters behind it.
pub open spec fn spec_identifier(s: Seq<char>, pos: int, first: CharClass) -> Outcome<Seq<char>> {
    if 0 <= pos < s.len() && first.spec_contains(s[pos]) {
        let end = run_end(s, pos + 1, CharClass::IdChar);
        Ok((end, s.subrange(pos, end)))
    } else {
        Err(lex_error(s, pos, first))
    }
}

/// Whether `text` is written as an identifier whose first character is of the
/// class `first`: that character, then letters, digits and underscores.
pub open spec fn is_identifier_text(text: Seq<char>, first: CharClass) -> bool {
    &&& text.len() > 0
    &&& first.spec_contains(text[0])
    &&& forall|i: int| 1 <= i < text.len() ==> is_id_char(#[trigger] text[i])
}

/// Where an identifier stands at `pos` and no identifier character follows
/// it, the parser consumes exactly the identifier and returns it unchanged.
pub proof fn lemma_identifier_at(s: Seq<char>, pos: int, text: Seq<char>, first: CharClass)
    requires
        is_identifier_text(text, first),
        has_at(s, pos, text),
        pos + text.len() < s.len() ==> !is_id_char(s[pos + text.len()]),
    ensures
        spec_identifier(s, pos, first) == Ok::<(int, Seq<char>), ParseErrorView>(
            (pos + text.len(), text),
        ),
{
    lemma_has_at_split(s, pos, text.subrange(0, 1), text.subrange(1, text.len() as int));
    assert(text.subrange(0, 1) + text.subrange(1, text.len() as int) =~= text);
    lemma_has_at_index(s, pos, text);
    assert(s[pos + 0] == text[0]);
    lemma_run_over(s, pos + 1, text.subrange(1, text.len() as int), CharClass::IdChar);
}

/// An identifier on its own is consumed whole and returned unchanged.
pub proof fn lemma_identifier_whole(text: Seq<char>, first: CharClass)
    requires
        is_identifier_text(text, first),
    ensures
        spec_identifier(text, 0, first) == Ok::<(int, Seq<char>), ParseErrorView>(
            (text.len() as int, text),
        ),
{
    assert(text.subrange(0, text.len() as int) =~= text);
    lemma_identifier_at(text, 0, text, first);
}

/// A text that starts with a digit is rejected as an identifier of any of
/// the three kinds.
pub proof fn lemma_identifier_rejects_digit(text: Seq<char>, first: CharClass)
    requires
        text.len() > 0,
        is_digit(text[0]),
        first == CharClass::IdStart || first == CharClass::Upper || first == CharClass::LowerStart,
    ensures
        spec_identifier(text, 0, first) == Err::<(int, Seq<char>), ParseErrorView>(
            lex_error(text, 0, first),
        ),
{
}

/// Consumes one character of `class`.
pub fn one_of(input: &[char], pos: usize, class: CharClass) -> (r: Parsed<char>)
    ensures
        agrees(r, spec_one_of(input@, pos as int, class)),
{
    if pos < input.len() && class.contains(input[pos]) {
        Ok((pos + 1, input[pos]))
    } else {
        Err(ParseError::lex(input, pos, class))
    }
}

/// Consumes one upper-case letter.
pub fn upper(input: &[char], pos: usize) -> (r: Parsed<char>)
    ensures
        agrees(r, spec_one_of(input@, pos as int, CharClass::Upper)),
{
    one_of(input, pos, CharClass::Upper)
}

/// Consumes one lower-case letter.
pub fn lower(input: &[char], pos: usize) -> (r: Parsed<char>)
    ensures
        agrees(r, spec_one_of(input@, pos as int, CharClass::Lower)),
{
    one_of(input, pos, CharClass::Lower)
}

/// Consumes one decimal digit.
pub fn number(input: &[char], pos: usize) -> (r: Parsed<char>)
    ensures
        agrees(r, spec_one_of(input@, pos as int, CharClass::Digit)),
{
    one_of(input, pos, CharClass::Digit)
}

/// Consumes one character that may stand inside an identifier.
pub fn id_char(input: &[char], pos: usize) -> (r: Parsed<char>)
    ensures
        agrees(r, spec_one_of(input@, pos as int, CharClass::IdChar)),
{
    one_of(input, pos, CharClass::IdChar)
}

/// Consumes one character that may start an identifier.
pub fn first_char_id(input: &[char], pos: usize) -> (r: Parsed<char>)
    ensures
        agrees(r, spec_one_of(input@, pos as int, CharClass::IdStart)),
{
    one_of(input, pos, CharClass::IdStart)
}

/// Consumes the white space at `pos`, which may be empty, and returns it.
pub fn ws(input: &[char], pos: usize) -> (r: (usize, String))
    ensures
        r.0 as int == run_end(input@, pos as int, CharClass::Space),
        pos <= input@.len() ==> r.1@ == input@.subrange(pos as int, r.0 as int),
        pos > input@.len() ==> r.1@ == Seq::<char>::empty(),
{
    let end = skip_run(input, pos, CharClass::Space);
    if pos <= input.len() {
        (end, text_of(input, pos, end))
    } else {
        (end, String::new())
    }
}

/// The characters of `input` from `from` up to `to`, as a string.
pub fn text_of(input: &[char], from: usize, to: usize) -> (text: String)
    requires
        from <= to <= input@.len(),
    ensures
        text@ == input@.subrange(from as int, to as int),
{
    let mut text = String::new();
    let mut i: usize = from;
    while i < to
        invariant
            from <= i <= to <= input@.len(),
            text@ == input@.subrange(from as int, i as int),
        decreases to - i,
    {
        text.push(input[i]);
        i = i + 1;
        assert(text@ =~= input@.subrange(from as int, i as int));
    }
    text
}

/// The string made of `first` and then the characters of `remaining`.
pub fn concat_char_remaining(first: char, remaining: Vec<char>) -> (text: String)
    ensures
        text@ == seq![first] + remaining@,
{
    let mut text = String::new();
    text.push(first);
    let mut i: usize = 0;
    while i < remaining.len()
        invariant
            i <= remaining@.len(),
            text@ == seq![first] + remaining@.subrange(0, i as int),
        decreases remaining@.len() - i,
    {
        text.push(remaining[i]);
        i = i + 1;
        assert(text@ =~= seq![first] + remaining@.subrange(0, i as int));
    }
    assert(remaining@.subrange(0, remaining@.len() as int) =~= remaining@);
    text
}

/// Consumes the character `c`.
pub fn symbol(input: &[char], pos: usize, c: char) -> (r: Parsed<()>)
    ensures
        agrees(r, spec_symbol(input@, pos as int, c)),
{
    if pos < input.len() && input[pos] == c {
        Ok((pos + 1, ()))
    } else {
        Err(ParseError::syntax(input, pos, Expected::Char(c)))
    }
}

/// The outcome of a punctuation parser: `spec_symbol` with the token in
/// place of the unit.
pub open spec fn spec_punctuation(s: Seq<char>, pos: int, c: char, token: TokenView) -> Outcome<
    TokenView,
> {
    match spec_symbol(s, pos, c) {
        Ok((next, _)) => Ok((next, token)),
        Err(e) => Err(e),
    }
}

/// Consumes a comma.
pub fn comma(input: &[char], pos: usize) -> (r: Parsed<Token>)
    ensures
        agrees(r, spec_punctuation(input@, pos as int, ',', TokenView::Comma)),
{
    match symbol(input, pos, ',') {
        Ok((next, _)) => Ok((next, Token::Comma)),
        Err(e) => Err(e),
    }
}

/// Consumes a colon.
pub fn colon(input: &[char], pos: usize) -> (r: Parsed<Token>)
    ensures
        agrees(r, spec_punctuation(input@, pos as int, ':', TokenView::Colon)),
{
    match symbol(input, pos, ':') {
        Ok((next, _)) => Ok((next, Token::Colon)),
        Err(e) => Err(e),
    }
}

/// Consumes an equals sign.
pub fn equal(input: &[char], pos: usize) -> (r: Parsed<Token>)
    ensures
        agrees(r, spec_punctuation(input@, pos as int, '=', TokenView::Equal)),
{
    match symbol(input, pos, '=') {
        Ok((next, _)) => Ok((next, Token::Equal)),
        Err(e) => Err(e),
    }
}

/// Consumes an opening parenthesis.
pub fn open_paran(input: &[char], pos: usize) -> (r: Parsed<Token>)
    ensures
        agrees(r, spec_punctuation(input@, pos as int, '(', TokenView::OpenParan)),
{
    match symbol(input, pos, '(') {
        Ok((next, _)) => Ok((next, Token::OpenParan)),
        Err(e) => Err(e),
    }
}

/// Consumes a closing parenthesis.
pub fn close_paran(input: &[char], pos: usize) -> (r: Parsed<Token>)
    ensures
        agrees(r, spec_punctuation(input@, pos as int, ')', TokenView::CloseParan)),
{
    match symbol(input, pos, ')') {
        Ok((next, _)) => Ok((next, Token::CloseParan)),
        Err(e) => Err(e),
    }
}

/// Consumes an opening curly brace.
pub fn open_curly_brace(input: &[char], pos: usize) -> (r: Parsed<Token>)
    ensures
        agrees(r, spec_punctuation(input@, pos as int, '{', TokenView::OpenCurlyBrace)),
{
    match symbol(input, pos, '{') {
        Ok((next, _)) => Ok((next, Token::OpenCurlyBrace)),
        Err(e) => Err(e),
    }
}

/// Consumes a closing curly brace.
pub fn close_curly_brace(input: &[char], pos: usize) -> (r: Parsed<Token>)
    ensures
        agrees(r, spec_punctuation(input@, pos as int, '}', TokenView::CloseCurlyBrace)),
{
    match symbol(input, pos, '}') {
        Ok((next, _)) => Ok((next, Token::CloseCurlyBrace)),
        Err(e) => Err(e),
    }
}

/// The characters of `input` from `from` up to `to`.
fn chars_of(input: &[char], from: usize, to: usize) -> (chars: Vec<char>)
    requires
        from <= to <= input@.len(),
    ensures
        chars@ == input@.subrange(from as int, to as int),
{
    let mut chars: Vec<char> = Vec::new();
    let mut i: usize = from;
    while i < to
        invariant
            from <= i <= to <= input@.len(),
            chars@ == input@.subrange(from as int, i as int),
        decreases to - i,
    {
        chars.push(input[i]);
        i = i + 1;
        assert(chars@ =~= input@.subrange(from as int, i as int));
    }
    chars
}

/// Consumes an identifier whose first character is of the class `first`.
pub fn identifier_of(input: &[char], pos: usize, first: CharClass) -> (r: Parsed<String>)
    ensures
        agrees(r, spec_identifier(input@, pos as int, first)),
{
    match one_of(input, pos, first) {
        Ok((next, head)) => {
            let end = skip_run(input, next, CharClass::IdChar);
            let text = concat_char_remaining(head, chars_of(input, next, end));
            assert(text@ =~= input@.subrange(pos as int, end as int));
            Ok((end, text))
        },
        Err(e) => Err(e),
    }
}

/// An identifier that starts with an upper-case letter, as a token.
pub open spec fn spec_upper_id(s: Seq<char>, pos: int) -> Outcome<TokenView> {
    match spec_identifier(s, pos, CharClass::Upper) {
        Ok((next, text)) => Ok((next, TokenView::UpperIdentifier(text))),
        Err(e) => Err(e),
    }
}

/// An identifier that starts with a lower-case letter or an underscore, as a
/// token.
pub open spec fn spec_lower_id(s: Seq<char>, pos: int) -> Outcome<TokenView> {
    match spec_identifier(s, pos, CharClass::LowerStart) {
        Ok((next, text)) => Ok((next, TokenView::LowerIdentifier(text))),
        Err(e) => Err(e),
    }
}

/// Consumes an identifier that starts with an upper-case letter.
pub fn upper_id(input: &[char], pos: usize) -> (r: Parsed<Token>)
    ensures
        agrees(r, spec_upper_id(input@, pos as int)),
{
    match identifier_of(input, pos, CharClass::Upper) {
        Ok((next, text)) => Ok((next, Token::UpperIdentifier(text))),
        Err(e) => Err(e),
    }
}

/// Consumes an identifier that starts with a lower-case letter or an
/// underscore.
pub fn lower_id(input: &[char], pos: usize) -> (r: Parsed<Token>)
    ensures
        agrees(r, spec_lower_id(input@, pos as int)),
{
    match identifier_of(input, pos, CharClass::LowerStart) {
        Ok((next, text)) => Ok((next, Token::LowerIdentifier(text))),
        Err(e) => Err(e),
    }
}

/// Consumes an identifier that starts with any letter or an underscore.
pub fn identifier(input: &[char], pos: usize) -> (r: Parsed<String>)
    ensures
        agrees(r, spec_identifier(input@, pos as int, CharClass::IdStart)),
{
    identifier_of(input, pos, CharClass::IdStart)
}

} // verus!
