//! Identifiers behind white space, and numeric literals with their magnitude
//! suffix.
use crate::chars::{
    has_at, is_digit, is_suffix, lemma_has_at_index, lemma_has_at_split, lemma_run_end_again,
    lemma_run_over, run_end, skip_run, CharClass,
};
use crate::error::{
    agrees, lex_error, unknown_suffix, ErrorKind, ErrorKindView, Outcome, ParseError,
    ParseErrorView, Parsed,
};
use crate::tokenizer::{
    concat_char_remaining, identifier_of, spec_identifier, text_of, Token, TokenView,
};
pub use crate::tokenizer::{lower, number, upper};
use vstd::prelude::*;

verus! {

/// A magnitude suffix of a numeric literal.
#[derive(Clone, Copy, Debug, PartialEq, Eq, Structural)]
pub enum Suffix {
    /// `p`, ten to the power -12.
    Pico,
    /// `n`, ten to the power -9.
    Nano,
    /// `u`, ten to the power -6.
    Micro,
    /// `m`, ten to the power -3.
    Milli,
    /// `k`, ten to the power 3.
    Kilo,
    /// `M`, ten to the power 6.
    Mega,
    /// `G`, ten to the power 9.
    Giga,
}

/// Ten to the power `e`.
pub open spec fn pow10(e: nat) -> nat
    decreases e,
{
    if e == 0 {
        1
    } else {
        10 * pow10((e - 1) as nat)
    }
}

/// The suffix that the character `c` stands for, if it stands for one.
pub open spec fn suffix_of(c: char) -> Option<Suffix> {
    if c == 'p' {
        Some(Suffix::Pico)
    } else if c == 'n' {
        Some(Suffix::Nano)
    } else if c == 'u' {
        Some(Suffix::Micro)
    } else if c == 'm' {
        Some(Suffix::Milli)
    } else if c == 'k' {
        Some(Suffix::Kilo)
    } else if c == 'M' {
        Some(Suffix::Mega)
    } else if c == 'G' {
        Some(Suffix::Giga)
    } else {
        None
    }
}

impl Suffix {
    /// The power of ten by which the suffix multiplies.
    pub open spec fn spec_exponent(self) -> int {
        match self {
            Suffix::Pico => -12,
            Suffix::Nano => -9,
            Suffix::Micro => -6,
            Suffix::Milli => -3,
            Suffix::Kilo => 3,
            Suffix::Mega => 6,
            Suffix::Giga => 9,
        }
    }

    /// The power of ten by which the suffix multiplies.
    pub fn exponent(self) -> (e: i32)
        ensures
            e == self.spec_exponent(),
    {
        match self {
            Suffix::Pico => -12,
            Suffix::Nano => -9,
            Suffix::Micro => -6,
            Suffix::Milli => -3,
            Suffix::Kilo => 3,
            Suffix::Mega => 6,
            Suffix::Giga => 9,
        }
    }

    /// The character that stands for the suffix.
    pub open spec fn spec_letter(self) -> char {
        match self {
            Suffix::Pico => 'p',
            Suffix::Nano => 'n',
            Suffix::Micro => 'u',
            Suffix::Milli => 'm',
            Suffix::Kilo => 'k',
            Suffix::Mega => 'M',
            Suffix::Giga => 'G',
        }
    }

    /// The character that stands for the suffix.
    pub fn letter(self) -> (c: char)
        ensures
            c == self.spec_letter(),
            suffix_of(c) == Some(self),
    {
        match self {
            Suffix::Pico => 'p',
            Suffix::Nano => 'n',
            Suffix::Micro => 'u',
            Suffix::Milli => 'm',
            Suffix::Kilo => 'k',
            Suffix::Mega => 'M',
            Suffix::Giga => 'G',
        }
    }

    /// The multiplier as a fraction, numerator and denominator: ten to the
    /// power of the exponent.
    pub open spec fn spec_multiplier(self) -> (nat, nat) {
        if self.spec_exponent() >= 0 {
            (pow10(self.spec_exponent() as nat), 1)
        } else {
            (1, pow10((-self.spec_exponent()) as nat))
        }
    }

    /// The multiplier as a fraction, numerator and denominator.
    pub fn multiplier(self) -> (m: (u64, u64))
        ensures
            m.0 == self.spec_multiplier().0,
            m.1 == self.spec_multiplier().1,
    {
        proof {
            reveal_with_fuel(pow10, 13);
        }
        match self {
            Suffix::Pico => (1, 1_000_000_000_000),
            Suffix::Nano => (1, 1_000_000_000),
            Suffix::Micro => (1, 1_000_000),
            Suffix::Milli => (1, 1_000),
            Suffix::Kilo => (1_000, 1),
            Suffix::Mega => (1_000_000, 1),
            Suffix::Giga => (1_000_000_000, 1),
        }
    }

    /// The suffix that `s` stands for; `UnknownSuffix` for any character but
    /// `p n u m k M G`.
    pub fn from_char(s: char) -> (r: Result<Suffix, ErrorKind>)
        ensures
            match r {
                Ok(suffix) => suffix_of(s) == Some(suffix),
                Err(e) => suffix_of(s) is None && e@ == (ErrorKindView::UnknownSuffix {
                    found: Some(s),
                }),
            },
            r is Ok <==> is_suffix(s),
    {
        match s {
            'p' => Ok(Suffix::Pico),
            'n' => Ok(Suffix::Nano),
            'u' => Ok(Suffix::Micro),
            'm' => Ok(Suffix::Milli),
            'k' => Ok(Suffix::Kilo),
            'M' => Ok(Suffix::Mega),
            'G' => Ok(Suffix::Giga),
            _ => Err(ErrorKind::UnknownSuffix { found: Some(s) }),
        }
    }
}

/// The value of the decimal digit `c`.
pub open spec fn digit_value(c: char) -> nat {
    (c as int - '0' as int) as nat
}

/// The number that the digit run `digits` writes in base ten.
pub open spec fn decimal_value(digits: Seq<char>) -> nat
    decreases digits.len(),
{
    if digits.len() == 0 {
        0
    } else {
        10 * decimal_value(digits.drop_last()) + digit_value(digits.last())
    }
}

/// Whether `digits` is a digit run: not empty, and decimal digits only.
pub open spec fn is_digit_run(digits: Seq<char>) -> bool {
    digits.len() > 0 && forall|i: int| 0 <= i < digits.len() ==> is_digit(#[trigger] digits[i])
}

/// A numeric literal: the digit run as written, and the suffix. It stands for
/// the number that the digits write, times the suffix's power of ten.
#[derive(Clone, Debug, PartialEq, Eq)]
pub struct NumericLiteral {
    pub digits: String,
    pub suffix: Suffix,
}

/// The mathematical value of a `NumericLiteral`.
pub struct NumericLiteralView {
    pub digits: Seq<char>,
    pub suffix: Suffix,
}

impl NumericLiteralView {
    /// The number before the suffix.
    pub open spec fn mantissa(self) -> nat {
        decimal_value(self.digits)
    }

    /// The literal's value as a fraction, numerator and denominator: the
    /// mantissa times the suffix's multiplier.
    pub open spec fn value(self) -> (nat, nat) {
        (self.mantissa() * self.suffix.spec_multiplier().0, self.suffix.spec_multiplier().1)
    }
}

impl View for NumericLiteral {
    type V = NumericLiteralView;

    open spec fn view(&self) -> NumericLiteralView {
        NumericLiteralView { digits: self.digits@, suffix: self.suffix }
    }
}

impl DeepView for NumericLiteral {
    type V = NumericLiteralView;

    open spec fn deep_view(&self) -> NumericLiteralView {
        self@
    }
}

impl NumericLiteral {
    /// The number before the suffix, where the digits are a digit run whose
    /// number fits in 64 bits.
    pub fn mantissa(&self) -> (m: Option<u64>)
        ensures
            m is Some <==> is_digit_run(self@.digits) && self@.mantissa() <= u64::MAX,
            m is Some ==> m->0 == self@.mantissa(),
    {
        let text = self.digits.as_str();
        let n = text.unicode_len();
        if n == 0 {
            return None;
        }
        let mut value: u64 = 0;
        let mut i: usize = 0;
        while i < n
            invariant
                n == text@.len(),
                text@ == self@.digits,
                i <= n,
                value == decimal_value(text@.subrange(0, i as int)),
                forall|j: int| 0 <= j < i ==> is_digit(#[trigger] text@[j]),
            decreases n - i,
        {
            let c = text.get_char(i);
            let ghost before = text@.subrange(0, i as int);
            let ghost after = text@.subrange(0, i + 1);
            proof {
                assert(after.drop_last() =~= before);
                assert(after.last() == c);
                if i + 1 < n {
                    lemma_decimal_value_prefix(text@, i + 1);
                } else {
                    assert(after =~= text@);
                }
            }
            if !CharClass::Digit.contains(c) {
                return None;
            }
            let d: u64 = digit_of(c);
            if value > (u64::MAX - d) / 10 {
                assert(decimal_value(after) > u64::MAX);
                return None;
            }
            value = 10 * value + d;
            i = i + 1;
        }
        assert(text@.subrange(0, n as int) =~= text@);
        Some(value)
    }
}

/// The number that a prefix of a digit sequence writes is at most the number
/// that the whole sequence writes.
pub proof fn lemma_decimal_value_prefix(digits: Seq<char>, k: int)
    requires
        0 <= k <= digits.len(),
    ensures
        decimal_value(digits.subrange(0, k)) <= decimal_value(digits),
    decreases digits.len() - k,
{
    if k < digits.len() {
        let longer = digits.subrange(0, k + 1);
        assert(longer.drop_last() =~= digits.subrange(0, k));
        lemma_decimal_value_prefix(digits, k + 1);
    } else {
        assert(digits.subrange(0, k) =~= digits);
    }
}

/// The value of the decimal digit `c`.
fn digit_of(c: char) -> (d: u64)
    requires
        is_digit(c),
    ensures
        d == digit_value(c),
        d <= 9,
{
    (c as u32 - '0' as u32) as u64
}

/// A numeric literal behind optional white space: a digit run and one suffix
/// character.
pub open spec fn spec_number_suffix(s: Seq<char>, pos: int) -> Outcome<NumericLiteralView> {
    let start = run_end(s, pos, CharClass::Space);
    let end = run_end(s, start, CharClass::Digit);
    if end == start {
        Err(lex_error(s, start, CharClass::Digit))
    } else if 0 <= end < s.len() && suffix_of(s[end]) is Some {
        Ok((end + 1, NumericLiteralView { digits: s.subrange(start, end), suffix: suffix_of(s[end])->0 }))
    } else {
        Err(unknown_suffix(s, end))
    }
}

/// The literal as it is written: its digits and the letter of its suffix.
pub open spec fn number_text(literal: NumericLiteralView) -> Seq<char> {
    literal.digits.push(literal.suffix.spec_letter())
}

/// Where a digit run and a suffix character stand at `pos`, the parser
/// consumes exactly these and returns the digits and the suffix.
pub proof fn lemma_number_at(s: Seq<char>, pos: int, digits: Seq<char>, c: char)
    requires
        is_digit_run(digits),
        is_suffix(c),
        has_at(s, pos, digits.push(c)),
    ensures
        spec_number_suffix(s, pos) == Ok::<(int, NumericLiteralView), ParseErrorView>(
            (pos + digits.len() + 1, NumericLiteralView { digits, suffix: suffix_of(c)->0 }),
        ),
{
    assert(digits.push(c) =~= digits + seq![c]);
    lemma_has_at_split(s, pos, digits, seq![c]);
    lemma_has_at_index(s, pos, digits);
    lemma_has_at_index(s, pos + digits.len(), seq![c]);
    assert(s[pos + 0] == digits[0]);
    assert(s[pos + digits.len() + 0] == c);
    assert(s.subrange(pos, pos + 0) =~= Seq::<char>::empty());
    lemma_run_over(s, pos, Seq::empty(), CharClass::Space);
    lemma_run_over(s, pos, digits, CharClass::Digit);
}

/// White space before a numeric literal is insignificant: the parser yields
/// from `pos` what it yields from behind the white space at `pos`.
pub proof fn lemma_number_leading_space(s: Seq<char>, pos: int)
    ensures
        spec_number_suffix(s, pos) == spec_number_suffix(s, run_end(s, pos, CharClass::Space)),
{
    lemma_run_end_again(s, pos, CharClass::Space);
}

/// White space before an identifier is insignificant: the parser yields
/// from `pos` what it yields from behind the white space at `pos`.
pub proof fn lemma_identifier_leading_space(s: Seq<char>, pos: int)
    ensures
        spec_identifier_token(s, pos) == spec_identifier_token(
            s,
            run_end(s, pos, CharClass::Space),
        ),
{
    lemma_run_end_again(s, pos, CharClass::Space);
}

/// For every digit run `digits` and every suffix character `c`, the literal
/// written as the digits and then `c` is parsed whole, and its value is the
/// number that the digits write times the multiplier of `c`.
pub proof fn lemma_number_suffix_value(digits: Seq<char>, c: char)
    requires
        is_digit_run(digits),
        is_suffix(c),
    ensures
        suffix_of(c) is Some,
        spec_number_suffix(digits.push(c), 0) matches Ok((next, literal)) && next == digits.len()
            + 1 && literal.digits == digits && literal.suffix == suffix_of(c)->0 && literal.value()
            == (
            decimal_value(digits) * suffix_of(c)->0.spec_multiplier().0,
            suffix_of(c)->0.spec_multiplier().1,
        ),
{
    let s = digits.push(c);
    assert(s.subrange(0, s.len() as int) =~= s);
    lemma_number_at(s, 0, digits, c);
}

/// Parses a numeric literal behind optional white space.
pub fn number_suffix(input: &[char], pos: usize) -> (r: Parsed<NumericLiteral>)
    ensures
        agrees(r, spec_number_suffix(input@, pos as int)),
{
    let start = skip_run(input, pos, CharClass::Space);
    let end = skip_run(input, start, CharClass::Digit);
    if end == start {
        return Err(ParseError::lex(input, start, CharClass::Digit));
    }
    if end < input.len() {
        match Suffix::from_char(input[end]) {
            Ok(suffix) => {
                proof {
                    crate::chars::lemma_run_end_bounds(input@, start as int, CharClass::Digit);
                }
                let digits = text_of(input, start, end);
                Ok((end + 1, NumericLiteral { digits, suffix }))
            },
            Err(_) => Err(ParseError::suffix(input, end)),
        }
    } else {
        Err(ParseError::suffix(input, end))
    }
}

/// An identifier behind optional white space, as a token.
pub open spec fn spec_identifier_token(s: Seq<char>, pos: int) -> Outcome<TokenView> {
    match spec_identifier(s, run_end(s, pos, CharClass::Space), CharClass::IdStart) {
        Ok((next, text)) => Ok((next, TokenView::Identifier(text))),
        Err(e) => Err(e),
    }
}

/// Parses an identifier behind optional white space.
pub fn identifier(input: &[char], pos: usize) -> (r: Parsed<Token>)
    ensures
        agrees(r, spec_identifier_token(input@, pos as int)),
{
    let start = skip_run(input, pos, CharClass::Space);
    match identifier_of(input, start, CharClass::IdStart) {
        Ok((next, text)) => Ok((next, Token::Identifier(text))),
        Err(e) => Err(e),
    }
}

/// The string made of the first character and then the others.
pub fn concat_char_string(pair: (char, Vec<char>)) -> (text: String)
    ensures
        text@ == seq![pair.0] + pair.1@,
{
    concat_char_remaining(pair.0, pair.1)
}

} // verus!
