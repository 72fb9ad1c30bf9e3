//! The delimited list: an opening delimiter, items separated by commas, and a
//! closing delimiter. Behind the opening delimiter every failure is fatal.
use crate::chars::{
    all_of, has_at, is_id_char, is_space, lemma_has_at_index, lemma_has_at_split, lemma_run_end_again,
    lemma_run_end_bounds, lemma_run_over, run_end, skip_run, CharClass,
};
use crate::error::{
    agrees, found_at, stands_at, unbalanced, Outcome, ParseError, ParseErrorView, Parsed,
};
use crate::tokenizer::{spec_symbol, symbol};
use vstd::prelude::*;

verus! {

/// The parser of one item of a list. The list skips the white space before
/// each item.
pub trait ItemParser {
    /// What the parser makes of an item.
    type Item: DeepView;

    /// The outcome of the item parser at `pos`.
    spec fn spec_item(s: Seq<char>, pos: int) -> Outcome<<Self::Item as DeepView>::V>;

    /// Parses one item at `pos`.
    fn item(input: &[char], pos: usize) -> (r: Parsed<Self::Item>)
        ensures
            agrees(r, Self::spec_item(input@, pos as int)),
    ;

    /// An item is never empty and lies inside the input.
    proof fn lemma_item_advances(s: Seq<char>, pos: int)
        ensures
            Self::spec_item(s, pos) matches Ok((next, _)) ==> 0 <= pos < next <= s.len(),
    ;

    /// Whether `text` is a way to write the item `value`.
    spec fn written(value: <Self::Item as DeepView>::V, text: Seq<char>) -> bool;

    /// What writes an item starts with a letter, an underscore or a digit.
    proof fn lemma_written_starts(value: <Self::Item as DeepView>::V, text: Seq<char>)
        requires
            Self::written(value, text),
        ensures
            text.len() > 0 && is_id_char(text[0]),
    ;

    /// Where a text that writes `value` stands at `pos`, and a separator or
    /// the closing delimiter follows it behind optional white space, the
    /// item parser consumes exactly the text and returns `value`.
    proof fn lemma_written_is_read(
        s: Seq<char>,
        pos: int,
        value: <Self::Item as DeepView>::V,
        text: Seq<char>,
        close: char,
    )
        requires
            Self::written(value, text),
            has_at(s, pos, text),
            closes_list(close),
            delimiter_follows(s, pos + text.len(), close),
        ensures
            Self::spec_item(s, pos) == Ok::<(int, <Self::Item as DeepView>::V), ParseErrorView>(
                (pos + text.len(), value),
            ),
    ;
}

/// Whether `c` is one of the delimiters that close a list, `)` and `>`.
pub open spec fn closes_list(c: char) -> bool {
    c == ')' || c == '>'
}

/// Whether a comma or `close` follows at `pos` behind optional white space.
pub open spec fn delimiter_follows(s: Seq<char>, pos: int, close: char) -> bool {
    let stop = run_end(s, pos, CharClass::Space);
    found_at(s, stop) == Some(',') || found_at(s, stop) == Some(close)
}

/// The items of a list in order, and the offset at which each of them starts.
pub type Listed<V> = (Seq<V>, Seq<usize>);

/// The items from `pos` on, where the first of them is due, up to the closing
/// delimiter: the position behind the delimiter, the items in order and
/// where each of them starts.
pub open spec fn spec_items<P: ItemParser>(s: Seq<char>, pos: int, close: char) -> Outcome<
    Listed<<P::Item as DeepView>::V>,
>
    decreases s.len() - pos,
{
    let start = run_end(s, pos, CharClass::Space);
    match P::spec_item(s, start) {
        Err(e) => Err(e),
        Ok((next, value)) => {
            let stop = run_end(s, next, CharClass::Space);
            if found_at(s, stop) == Some(',') {
                proof {
                    lemma_run_end_bounds(s, pos, CharClass::Space);
                    P::lemma_item_advances(s, start);
                    lemma_run_end_bounds(s, next, CharClass::Space);
                }
                match spec_items::<P>(s, stop + 1, close) {
                    Ok((end, rest)) => Ok(
                        (end, (seq![value] + rest.0, seq![start as usize] + rest.1)),
                    ),
                    Err(e) => Err(e),
                }
            } else if found_at(s, stop) == Some(close) {
                Ok((stop + 1, (seq![value], seq![start as usize])))
            } else {
                Err(unbalanced(s, stop, close))
            }
        },
    }
}

/// A list at `pos`: white space, `open`, then either white space and `close`,
/// or the items and `close`. A failure to find `open` is recoverable; one
/// behind it is fatal and carries `label`.
pub open spec fn spec_list<P: ItemParser>(
    s: Seq<char>,
    pos: int,
    open: char,
    close: char,
    label: Seq<char>,
) -> Outcome<Listed<<P::Item as DeepView>::V>> {
    match spec_symbol(s, run_end(s, pos, CharClass::Space), open) {
        Err(e) => Err(e),
        Ok((inside, _)) => {
            let first = run_end(s, inside, CharClass::Space);
            if found_at(s, first) == Some(close) {
                Ok((first + 1, (Seq::empty(), Seq::empty())))
            } else {
                match spec_items::<P>(s, inside, close) {
                    Ok(done) => Ok(done),
                    Err(e) => Err(e.committed(label)),
                }
            }
        },
    }
}

/// The items of a list end behind where they start, inside the input, and
/// there are as many offsets as items.
pub proof fn lemma_items_advance<P: ItemParser>(s: Seq<char>, pos: int, close: char)
    ensures
        spec_items::<P>(s, pos, close) matches Ok((next, found)) ==> 0 <= pos < next <= s.len()
            && found.0.len() == found.1.len() && found.0.len() > 0,
    decreases s.len() - pos,
{
    let start = run_end(s, pos, CharClass::Space);
    lemma_run_end_bounds(s, pos, CharClass::Space);
    P::lemma_item_advances(s, start);
    if let Ok((next, _)) = P::spec_item(s, start) {
        let stop = run_end(s, next, CharClass::Space);
        lemma_run_end_bounds(s, next, CharClass::Space);
        if found_at(s, stop) == Some(',') {
            lemma_items_advance::<P>(s, stop + 1, close);
        }
    }
}

/// A list ends behind where it starts, inside the input, and there are as
/// many offsets as items.
pub proof fn lemma_list_advances<P: ItemParser>(
    s: Seq<char>,
    pos: int,
    open: char,
    close: char,
    label: Seq<char>,
)
    ensures
        spec_list::<P>(s, pos, open, close, label) matches Ok((next, found)) ==> 0 <= pos < next
            <= s.len() && found.0.len() == found.1.len(),
{
    let start = run_end(s, pos, CharClass::Space);
    lemma_run_end_bounds(s, pos, CharClass::Space);
    lemma_run_end_bounds(s, start + 1, CharClass::Space);
    lemma_items_advance::<P>(s, start + 1, close);
}

/// The white space of a written list: `lead` before the opening delimiter,
/// `gap` between the delimiters of an empty list, and `before` and `after`
/// each item.
pub struct ListLayout {
    pub lead: Seq<char>,
    pub gap: Seq<char>,
    pub before: Seq<Seq<char>>,
    pub after: Seq<Seq<char>>,
}

impl ListLayout {
    /// Whether the layout is white space only, and fits a list of `n` items.
    pub open spec fn is_blank(self, n: nat) -> bool {
        &&& all_of(self.lead, CharClass::Space)
        &&& all_of(self.gap, CharClass::Space)
        &&& self.before.len() == n
        &&& self.after.len() == n
        &&& forall|i: int| 0 <= i < n ==> all_of(#[trigger] self.before[i], CharClass::Space)
        &&& forall|i: int| 0 <= i < n ==> all_of(#[trigger] self.after[i], CharClass::Space)
    }
}

/// The items from the one at `i` on as they are written: each between its
/// white space, a comma between two of them, and `close` behind the last.
pub open spec fn items_text(texts: Seq<Seq<char>>, layout: ListLayout, close: char, i: int) -> Seq<
    char,
>
    decreases texts.len() - i,
{
    if 0 <= i < texts.len() {
        layout.before[i] + (texts[i] + (layout.after[i] + (if i + 1 == texts.len() {
            seq![close]
        } else {
            seq![','] + items_text(texts, layout, close, i + 1)
        })))
    } else {
        Seq::empty()
    }
}

/// A list as it is written: white space, `open`, and either white space and
/// `close` or the items and `close`.
pub open spec fn list_text(texts: Seq<Seq<char>>, layout: ListLayout, open: char, close: char) -> Seq<
    char,
> {
    layout.lead + (seq![open] + (if texts.len() == 0 {
        layout.gap + seq![close]
    } else {
        items_text(texts, layout, close, 0)
    }))
}

/// Whether `texts` write the items `values`, one each.
pub open spec fn all_written<P: ItemParser>(
    values: Seq<<P::Item as DeepView>::V>,
    texts: Seq<Seq<char>>,
) -> bool {
    &&& values.len() == texts.len()
    &&& forall|i: int| 0 <= i < values.len() ==> P::written(values[i], #[trigger] texts[i])
}

/// Where the items from `i` on stand written at `pos`, whatever the white
/// space around them, the parser consumes exactly what is written and
/// returns these items.
pub proof fn lemma_items_written<P: ItemParser>(
    s: Seq<char>,
    pos: int,
    values: Seq<<P::Item as DeepView>::V>,
    texts: Seq<Seq<char>>,
    layout: ListLayout,
    close: char,
    i: int,
)
    requires
        all_written::<P>(values, texts),
        layout.is_blank(texts.len()),
        closes_list(close),
        0 <= i < texts.len(),
        has_at(s, pos, items_text(texts, layout, close, i)),
    ensures
        spec_items::<P>(s, pos, close) matches Ok((next, found)) && next == pos + items_text(
            texts,
            layout,
            close,
            i,
        ).len() && found.0 == values.subrange(i, values.len() as int),
    decreases texts.len() - i,
{
    let before = layout.before[i];
    let text = texts[i];
    let after = layout.after[i];
    let last = i + 1 == texts.len();
    let rest = if last {
        seq![close]
    } else {
        seq![','] + items_text(texts, layout, close, i + 1)
    };
    let start = pos + before.len();
    let end = start + text.len();
    let stop = end + after.len();
    lemma_has_at_split(s, pos, before, text + (after + rest));
    lemma_has_at_split(s, start, text, after + rest);
    lemma_has_at_split(s, end, after, rest);
    lemma_has_at_index(s, start, text);
    lemma_has_at_index(s, stop, rest);
    P::lemma_written_starts(values[i], text);
    assert(s[start + 0] == text[0]);
    assert(s[stop + 0] == rest[0]);
    assert(all_of(before, CharClass::Space));
    assert(all_of(after, CharClass::Space));
    lemma_run_over(s, pos, before, CharClass::Space);
    lemma_run_over(s, end, after, CharClass::Space);
    P::lemma_written_is_read(s, start, values[i], text, close);
    if last {
        assert(values.subrange(i, values.len() as int) =~= seq![values[i]]);
    } else {
        lemma_has_at_split(s, stop, seq![','], items_text(texts, layout, close, i + 1));
        lemma_items_written::<P>(s, stop + 1, values, texts, layout, close, i + 1);
        assert(values.subrange(i, values.len() as int) =~= seq![values[i]] + values.subrange(
            i + 1,
            values.len() as int,
        ));
    }
}

/// Where a list stands written at `pos`, whatever the white space around
/// its delimiters and its items, the parser consumes exactly what is
/// written and returns the items: none for an empty list.
pub proof fn lemma_list_written<P: ItemParser>(
    s: Seq<char>,
    pos: int,
    values: Seq<<P::Item as DeepView>::V>,
    texts: Seq<Seq<char>>,
    layout: ListLayout,
    open: char,
    close: char,
    label: Seq<char>,
)
    requires
        all_written::<P>(values, texts),
        layout.is_blank(texts.len()),
        closes_list(close),
        !is_space(open),
        has_at(s, pos, list_text(texts, layout, open, close)),
    ensures
        spec_list::<P>(s, pos, open, close, label) matches Ok((next, found)) && next == pos
            + list_text(texts, layout, open, close).len() && found.0 == values,
{
    let inner = if texts.len() == 0 {
        layout.gap + seq![close]
    } else {
        items_text(texts, layout, close, 0)
    };
    let opened = pos + layout.lead.len();
    lemma_has_at_split(s, pos, layout.lead, seq![open] + inner);
    lemma_has_at_split(s, opened, seq![open], inner);
    lemma_has_at_index(s, opened, seq![open]);
    assert(s[opened + 0] == open);
    lemma_run_over(s, pos, layout.lead, CharClass::Space);
    let inside = opened + 1;
    if texts.len() == 0 {
        lemma_has_at_split(s, inside, layout.gap, seq![close]);
        lemma_has_at_index(s, inside + layout.gap.len(), seq![close]);
        assert(s[inside + layout.gap.len() + 0] == close);
        lemma_run_over(s, inside, layout.gap, CharClass::Space);
        assert(values =~= Seq::empty());
    } else {
        let rest = texts[0] + (layout.after[0] + (if 1 == texts.len() {
            seq![close]
        } else {
            seq![','] + items_text(texts, layout, close, 1)
        }));
        lemma_has_at_split(s, inside, layout.before[0], rest);
        let first = inside + layout.before[0].len();
        lemma_has_at_index(s, first, rest);
        P::lemma_written_starts(values[0], texts[0]);
        assert(s[first + 0] == texts[0][0]);
        assert(all_of(layout.before[0], CharClass::Space));
        lemma_run_over(s, inside, layout.before[0], CharClass::Space);
        lemma_items_written::<P>(s, inside, values, texts, layout, close, 0);
        assert(values.subrange(0, values.len() as int) =~= values);
    }
}

/// White space before a list is insignificant: the parser yields from `pos`
/// what it yields from behind the white space at `pos`.
pub proof fn lemma_list_leading_space<P: ItemParser>(
    s: Seq<char>,
    pos: int,
    open: char,
    close: char,
    label: Seq<char>,
)
    ensures
        spec_list::<P>(s, pos, open, close, label) == spec_list::<P>(
            s,
            run_end(s, pos, CharClass::Space),
            open,
            close,
            label,
        ),
{
    lemma_run_end_again(s, pos, CharClass::Space);
}

/// The outcome `rest` with the items `head` put before its own.
pub open spec fn prepend<V>(head: Listed<V>, rest: Outcome<Listed<V>>) -> Outcome<Listed<V>> {
    match rest {
        Ok((end, tail)) => Ok((end, (head.0 + tail.0, head.1 + tail.1))),
        Err(e) => Err(e),
    }
}

/// Parses the items of a list from `pos` on, where the first is due, and the
/// closing delimiter.
pub fn items<P: ItemParser>(input: &[char], pos: usize, close: char) -> (r: Parsed<
    (Vec<P::Item>, Vec<usize>),
>)
    ensures
        agrees(r, spec_items::<P>(input@, pos as int, close)),
{
    let mut found: Vec<P::Item> = Vec::new();
    let mut offsets: Vec<usize> = Vec::new();
    let mut at: usize = pos;
    loop
        invariant
            spec_items::<P>(input@, pos as int, close) == prepend(
                (found.deep_view(), offsets@),
                spec_items::<P>(input@, at as int, close),
            ),
        decreases input@.len() - at,
    {
        let ghost before = found.deep_view();
        let ghost starts = offsets@;
        let start = skip_run(input, at, CharClass::Space);
        proof {
            P::lemma_item_advances(input@, start as int);
        }
        match P::item(input, start) {
            Err(e) => {
                return Err(e);
            },
            Ok((next, value)) => {
                let ghost v = value.deep_view();
                found.push(value);
                offsets.push(start);
                assert(found.deep_view() =~= before.push(v));
                let stop = skip_run(input, next, CharClass::Space);
                if stands_at(input, stop, ',') {
                    proof {
                        let rest = spec_items::<P>(input@, stop + 1, close);
                        if let Ok((end, tail)) = rest {
                            assert((before + (seq![v] + tail.0)) =~= (before.push(v) + tail.0));
                            assert((starts + (seq![start] + tail.1)) =~= (starts.push(start)
                                + tail.1));
                        }
                    }
                    at = stop + 1;
                } else if stands_at(input, stop, close) {
                    assert((before + seq![v]) =~= found.deep_view());
                    assert((starts + seq![start]) =~= offsets@);
                    assert(offsets.deep_view() =~= offsets@);
                    return Ok((stop + 1, (found, offsets)));
                } else {
                    return Err(ParseError::unbalanced(input, stop, close));
                }
            },
        }
    }
}

/// Parses a list of items of `P` between `open` and `close`, and returns the
/// items and the offset of each. `label` names the construct in the context
/// of a fatal error.
pub fn list<P: ItemParser>(input: &[char], pos: usize, open: char, close: char, label: &str) -> (r:
    Parsed<(Vec<P::Item>, Vec<usize>)>)
    ensures
        agrees(r, spec_list::<P>(input@, pos as int, open, close, label@)),
{
    let start = skip_run(input, pos, CharClass::Space);
    match symbol(input, start, open) {
        Err(e) => Err(e),
        Ok((inside, _)) => {
            let first = skip_run(input, inside, CharClass::Space);
            if stands_at(input, first, close) {
                let none: Vec<P::Item> = Vec::new();
                let nowhere: Vec<usize> = Vec::new();
                assert(none.deep_view() =~= Seq::empty());
                assert(nowhere.deep_view() =~= Seq::empty());
                Ok((first + 1, (none, nowhere)))
            } else {
                match items::<P>(input, inside, close) {
                    Ok(done) => Ok(done),
                    Err(e) => Err(e.committed(label)),
                }
            }
        },
    }
}

} // verus!
