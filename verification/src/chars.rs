//! Character classes of the language and scanning of runs of one class.
use vstd::prelude::*;

verus! {

/// The character classes that the grammar distinguishes.
#[derive(Clone, Copy, Debug, PartialEq, Eq, Structural)]
pub enum CharClass {
    /// `A` to `Z`.
    Upper,
    /// `a` to `z`.
    Lower,
    /// `0` to `9`.
    Digit,
    /// A lower-case letter or an underscore: what the name of an instance or
    /// of a parameter may start with.
    LowerStart,
    /// A letter or an underscore: what an identifier may start with.
    IdStart,
    /// A letter, a digit or an underscore: what an identifier may go on with.
    IdChar,
    /// Space, tab, carriage return or line feed.
    Space,
    /// One of the magnitude suffixes `p n u m k M G`.
    Suffix,
}

pub open spec fn is_upper(c: char) -> bool {
    'A' <= c <= 'Z'
}

pub open spec fn is_lower(c: char) -> bool {
    'a' <= c <= 'z'
}

pub open spec fn is_digit(c: char) -> bool {
    '0' <= c <= '9'
}

pub open spec fn is_space(c: char) -> bool {
    c == ' ' || c == '\t' || c == '\r' || c == '\n'
}

pub open spec fn is_suffix(c: char) -> bool {
    c == 'p' || c == 'n' || c == 'u' || c == 'm' || c == 'k' || c == 'M' || c == 'G'
}

pub open spec fn is_id_start(c: char) -> bool {
    is_upper(c) || is_lower(c) || c == '_'
}

pub open spec fn is_id_char(c: char) -> bool {
    is_id_start(c) || is_digit(c)
}

impl CharClass {
    /// Whether `c` belongs to the class.
    pub open spec fn spec_contains(self, c: char) -> bool {
        match self {
            CharClass::Upper => is_upper(c),
            CharClass::Lower => is_lower(c),
            CharClass::Digit => is_digit(c),
            CharClass::LowerStart => is_lower(c) || c == '_',
            CharClass::IdStart => is_id_start(c),
            CharClass::IdChar => is_id_char(c),
            CharClass::Space => is_space(c),
            CharClass::Suffix => is_suffix(c),
        }
    }

    /// Whether `c` belongs to the class.
    #[verifier::when_used_as_spec(spec_contains)]
    pub fn contains(self, c: char) -> (b: bool)
        ensures
            b == self.spec_contains(c),
    {
        match self {
            CharClass::Upper => 'A' <= c && c <= 'Z',
            CharClass::Lower => 'a' <= c && c <= 'z',
            CharClass::Digit => '0' <= c && c <= '9',
            CharClass::LowerStart => ('a' <= c && c <= 'z') || c == '_',
            CharClass::IdStart => ('A' <= c && c <= 'Z') || ('a' <= c && c <= 'z') || c == '_',
            CharClass::IdChar => ('A' <= c && c <= 'Z') || ('a' <= c && c <= 'z') || c == '_' || (
            '0' <= c && c <= '9'),
            CharClass::Space => c == ' ' || c == '\t' || c == '\r' || c == '\n',
            CharClass::Suffix => c == 'p' || c == 'n' || c == 'u' || c == 'm' || c == 'k' || c
                == 'M' || c == 'G',
        }
    }
}

/// The end of the longest run of characters of `class` that starts at `pos`.
pub open spec fn run_end(s: Seq<char>, pos: int, class: CharClass) -> int
    decreases s.len() - pos,
{
    if 0 <= pos < s.len() && class.spec_contains(s[pos]) {
        run_end(s, pos + 1, class)
    } else {
        pos
    }
}

/// `run_end` is the one position from `pos` on up to which every character is
/// of the class and at which the input ends or a character outside it stands.
pub proof fn lemma_run_end(s: Seq<char>, pos: int, class: CharClass)
    requires
        0 <= pos <= s.len(),
    ensures
        pos <= run_end(s, pos, class) <= s.len(),
        forall|i: int| pos <= i < run_end(s, pos, class) ==> class.spec_contains(#[trigger] s[i]),
        run_end(s, pos, class) < s.len() ==> !class.spec_contains(s[run_end(s, pos, class)]),
    decreases s.len() - pos,
{
    if pos < s.len() && class.spec_contains(s[pos]) {
        lemma_run_end(s, pos + 1, class);
    }
}

/// Any position that ends a run of the class from `pos` is `run_end`.
pub proof fn lemma_run_end_unique(s: Seq<char>, pos: int, class: CharClass, end: int)
    requires
        0 <= pos <= end <= s.len(),
        forall|i: int| pos <= i < end ==> class.spec_contains(#[trigger] s[i]),
        end < s.len() ==> !class.spec_contains(s[end]),
    ensures
        run_end(s, pos, class) == end,
    decreases end - pos,
{
    if pos < end {
        lemma_run_end_unique(s, pos + 1, class, end);
    }
}

/// Skipping a run twice is skipping it once.
pub proof fn lemma_run_end_again(s: Seq<char>, pos: int, class: CharClass)
    ensures
        run_end(s, run_end(s, pos, class), class) == run_end(s, pos, class),
    decreases s.len() - pos,
{
    if 0 <= pos < s.len() && class.spec_contains(s[pos]) {
        lemma_run_end_again(s, pos + 1, class);
    }
}

/// A run never ends before it starts, and ends inside the input if it starts
/// there.
pub proof fn lemma_run_end_bounds(s: Seq<char>, pos: int, class: CharClass)
    ensures
        pos <= run_end(s, pos, class),
        pos <= s.len() ==> run_end(s, pos, class) <= s.len(),
        pos >= s.len() ==> run_end(s, pos, class) == pos,
    decreases s.len() - pos,
{
    if 0 <= pos < s.len() && class.spec_contains(s[pos]) {
        lemma_run_end_bounds(s, pos + 1, class);
    }
}

/// Whether the text `t` stands in `s` at `pos`.
pub open spec fn has_at(s: Seq<char>, pos: int, t: Seq<char>) -> bool {
    0 <= pos && pos + t.len() <= s.len() && s.subrange(pos, pos + t.len()) == t
}

/// Whether every character of `t` is of the class.
pub open spec fn all_of(t: Seq<char>, class: CharClass) -> bool {
    forall|i: int| 0 <= i < t.len() ==> class.spec_contains(#[trigger] t[i])
}

/// Every text stands at the start of itself.
pub proof fn lemma_has_at_whole(t: Seq<char>)
    ensures
        has_at(t, 0, t),
{
    assert(t.subrange(0, t.len() as int) =~= t);
}

/// A text that stands at `pos` gives the characters from `pos` on.
pub proof fn lemma_has_at_index(s: Seq<char>, pos: int, t: Seq<char>)
    requires
        has_at(s, pos, t),
    ensures
        forall|i: int| 0 <= i < t.len() ==> #[trigger] s[pos + i] == t[i],
{
    assert forall|i: int| 0 <= i < t.len() implies #[trigger] s[pos + i] == t[i] by {
        assert(s.subrange(pos, pos + t.len())[i] == s[pos + i]);
    }
}

/// A text of two parts stands at `pos` exactly when the first part stands
/// there and the second behind it.
pub proof fn lemma_has_at_split(s: Seq<char>, pos: int, a: Seq<char>, b: Seq<char>)
    ensures
        has_at(s, pos, a + b) <==> has_at(s, pos, a) && has_at(s, pos + a.len(), b),
{
    if has_at(s, pos, a + b) {
        lemma_has_at_index(s, pos, a + b);
        assert(s.subrange(pos, pos + a.len()) =~= a) by {
            assert forall|i: int| 0 <= i < a.len() implies s[pos + i] == a[i] by {
                assert((a + b)[i] == a[i]);
            }
        }
        assert(s.subrange(pos + a.len(), pos + a.len() + b.len()) =~= b) by {
            assert forall|i: int| 0 <= i < b.len() implies s[pos + a.len() + i] == b[i] by {
                assert((a + b)[a.len() + i] == b[i]);
                assert(s[pos + (a.len() + i)] == (a + b)[a.len() + i]);
            }
        }
    }
    if has_at(s, pos, a) && has_at(s, pos + a.len(), b) {
        lemma_has_at_index(s, pos, a);
        lemma_has_at_index(s, pos + a.len(), b);
        assert(s.subrange(pos, pos + (a + b).len()) =~= a + b) by {
            assert forall|i: int| 0 <= i < (a + b).len() implies s[pos + i] == (a + b)[i] by {
                if i < a.len() {
                    assert((a + b)[i] == a[i]);
                } else {
                    assert((a + b)[i] == b[i - a.len()]);
                    assert(s[pos + a.len() + (i - a.len())] == b[i - a.len()]);
                }
            }
        }
    }
}

/// Where a text of the class stands at `pos` and no character of the class
/// follows it, the run from `pos` ends behind the text.
pub proof fn lemma_run_over(s: Seq<char>, pos: int, t: Seq<char>, class: CharClass)
    requires
        has_at(s, pos, t),
        all_of(t, class),
        pos + t.len() < s.len() ==> !class.spec_contains(s[pos + t.len()]),
    ensures
        run_end(s, pos, class) == pos + t.len(),
{
    lemma_has_at_index(s, pos, t);
    assert forall|i: int| pos <= i < pos + t.len() implies class.spec_contains(#[trigger] s[i]) by {
        assert(s[pos + (i - pos)] == t[i - pos]);
    }
    lemma_run_end_unique(s, pos, class, pos + t.len());
}

/// Skips the characters of `class` from `pos` on and returns where they end.
pub fn skip_run(input: &[char], pos: usize, class: CharClass) -> (end: usize)
    ensures
        end as int == run_end(input@, pos as int, class),
        pos <= end,
        pos <= input@.len() ==> end <= input@.len(),
{
    let mut i: usize = pos;
    while i < input.len() && class.contains(input[i])
        invariant
            pos <= i,
            pos <= input@.len() ==> i <= input@.len(),
            run_end(input@, pos as int, class) == run_end(input@, i as int, class),
        decreases input@.len() - i,
    {
        i = i + 1;
    }
    i
}

} // verus!
