//! Names that have to be unique in their scope, and the search for one that
//! is declared twice.
use crate::error::{ErrorKind, ErrorKindView, ParseError, ParseErrorView, Scope};
use vstd::prelude::*;

verus! {

/// Something that is declared under a name.
pub trait Named: DeepView {
    /// The name under which a value is declared.
    spec fn spec_name(value: <Self as DeepView>::V) -> Seq<char>;

    /// The name under which the value is declared.
    fn name(&self) -> (text: String)
        ensures
            text@ == Self::spec_name(self.deep_view()),
    ;
}

/// The names of `items`, in order.
pub open spec fn spec_names<T: Named>(items: Seq<<T as DeepView>::V>) -> Seq<Seq<char>> {
    Seq::new(items.len(), |i: int| T::spec_name(items[i]))
}

/// The names of `items`, in order.
pub fn names_of<T: Named>(items: &Vec<T>) -> (names: Vec<String>)
    ensures
        names.deep_view() == spec_names::<T>(items.deep_view()),
{
    let mut names: Vec<String> = Vec::new();
    let mut i: usize = 0;
    while i < items.len()
        invariant
            i <= items@.len(),
            names@.len() == i,
            forall|k: int| 0 <= k < i ==> (#[trigger] names@[k])@ == T::spec_name(items@[k].deep_view()),
        decreases items@.len() - i,
    {
        names.push(items[i].name());
        i = i + 1;
    }
    assert(names.deep_view() =~= spec_names::<T>(items.deep_view()));
    names
}

/// The first position in `names` whose name stands at an earlier position
/// too, if there is one.
pub open spec fn first_repeat(names: Seq<Seq<char>>) -> Option<int>
    decreases names.len(),
{
    if names.len() == 0 {
        None
    } else {
        match first_repeat(names.drop_last()) {
            Some(j) => Some(j),
            None => if names.drop_last().contains(names.last()) {
                Some(names.len() - 1)
            } else {
                None
            },
        }
    }
}

/// Whether no name stands at two positions of `names`.
pub open spec fn distinct(names: Seq<Seq<char>>) -> bool {
    forall|i: int, j: int| 0 <= i < j < names.len() ==> names[i] != names[j]
}

/// `first_repeat` finds nothing exactly when the names are distinct. What it
/// finds is a position whose name stands before it too, and before which the
/// names are distinct.
pub proof fn lemma_first_repeat(names: Seq<Seq<char>>)
    ensures
        first_repeat(names) is None <==> distinct(names),
        first_repeat(names) matches Some(j) ==> 0 < j < names.len() && distinct(
            names.subrange(0, j),
        ) && exists|i: int| 0 <= i < j && names[i] == names[j],
    decreases names.len(),
{
    if names.len() > 0 {
        let front = names.drop_last();
        let last = names.len() - 1;
        lemma_first_repeat(front);
        match first_repeat(front) {
            Some(j) => {
                assert(front.subrange(0, j) =~= names.subrange(0, j));
                let i = choose|i: int| 0 <= i < j && front[i] == front[j];
                assert(names[i] == names[j]);
            },
            None => {
                if front.contains(names.last()) {
                    let i = choose|i: int| 0 <= i < front.len() && front[i] == names.last();
                    assert(names[i] == names[last]);
                    assert(names.subrange(0, last) =~= front);
                } else {
                    assert forall|i: int, j: int| 0 <= i < j < names.len() implies names[i]
                        != names[j] by {
                        if j < last {
                            assert(front[i] != front[j]);
                        } else {
                            assert(front[i] == names[i]);
                        }
                    }
                }
            },
        }
    }
}

/// What `first_repeat` finds in the first `k` names, it finds in all of them.
pub proof fn lemma_first_repeat_extends(names: Seq<Seq<char>>, k: int)
    requires
        0 <= k <= names.len(),
        first_repeat(names.subrange(0, k)) is Some,
    ensures
        first_repeat(names) == first_repeat(names.subrange(0, k)),
    decreases names.len() - k,
{
    if k < names.len() {
        assert(names.subrange(0, k + 1).drop_last() =~= names.subrange(0, k));
        lemma_first_repeat_extends(names, k + 1);
    } else {
        assert(names.subrange(0, k) =~= names);
    }
}

/// Finds the first position in `names` whose name stands at an earlier
/// position too.
pub fn find_repeat(names: &Vec<String>) -> (found: Option<usize>)
    ensures
        match found {
            Some(j) => first_repeat(names.deep_view()) == Some(j as int),
            None => first_repeat(names.deep_view()) is None,
        },
{
    let ghost texts = names.deep_view();
    let mut j: usize = 0;
    while j < names.len()
        invariant
            j <= names@.len(),
            texts == names.deep_view(),
            first_repeat(texts.subrange(0, j as int)) is None,
        decreases names@.len() - j,
    {
        let ghost front = texts.subrange(0, j as int);
        assert(texts.subrange(0, j + 1).drop_last() =~= front);
        let mut i: usize = 0;
        while i < j
            invariant
                i <= j < names@.len(),
                texts == names.deep_view(),
                front == texts.subrange(0, j as int),
                front == texts.subrange(0, j + 1).drop_last(),
                first_repeat(front) is None,
                forall|k: int| 0 <= k < i ==> texts[k] != texts[j as int],
            decreases j - i,
        {
            if names[i] == names[j] {
                proof {
                    assert(front[i as int] == texts[j as int]);
                    assert(front.contains(texts.subrange(0, j + 1).last()));
                    assert(first_repeat(texts.subrange(0, j + 1)) == Some(j as int));
                    lemma_first_repeat_extends(texts, j + 1);
                }
                return Some(j);
            }
            i = i + 1;
        }
        proof {
            if front.contains(texts[j as int]) {
                let k = choose|k: int| 0 <= k < front.len() && front[k] == texts[j as int];
                assert(texts[k] == front[k]);
            }
        }
        j = j + 1;
    }
    assert(texts.subrange(0, j as int) =~= texts);
    None
}

/// The offsets that stand at the positions of `name` in `names`, in order.
pub open spec fn occurrences(names: Seq<Seq<char>>, offsets: Seq<usize>, name: Seq<char>) -> Seq<
    usize,
>
    recommends
        names.len() == offsets.len(),
    decreases names.len(),
{
    if names.len() == 0 || offsets.len() == 0 {
        Seq::empty()
    } else {
        let before = occurrences(names.drop_last(), offsets.drop_last(), name);
        if names.last() == name {
            before.push(offsets.last())
        } else {
            before
        }
    }
}

/// Collects the offsets that stand at the positions of `name` in `names`.
pub fn occurrences_of(names: &Vec<String>, offsets: &Vec<usize>, name: &String) -> (found: Vec<
    usize,
>)
    requires
        names@.len() == offsets@.len(),
    ensures
        found@ == occurrences(names.deep_view(), offsets@, name@),
{
    let ghost texts = names.deep_view();
    let mut found: Vec<usize> = Vec::new();
    let mut i: usize = 0;
    while i < names.len()
        invariant
            i <= names@.len() == offsets@.len(),
            texts == names.deep_view(),
            found@ == occurrences(texts.subrange(0, i as int), offsets@.subrange(0, i as int), name@),
        decreases names@.len() - i,
    {
        assert(texts.subrange(0, i + 1).drop_last() =~= texts.subrange(0, i as int));
        assert(offsets@.subrange(0, i + 1).drop_last() =~= offsets@.subrange(0, i as int));
        if names[i] == *name {
            found.push(offsets[i]);
        }
        i = i + 1;
    }
    assert(texts.subrange(0, i as int) =~= texts);
    assert(offsets@.subrange(0, i as int) =~= offsets@);
    found
}

/// The error for the first name of `names` that is declared twice, if one
/// is: it cites the name, the scope and the offset of every declaration of
/// the name, and lies at the second of them.
pub open spec fn duplicate(
    names: Seq<Seq<char>>,
    offsets: Seq<usize>,
    scope: Scope,
    context: Seq<Seq<char>>,
) -> Option<ParseErrorView>
    recommends
        names.len() == offsets.len(),
{
    match first_repeat(names) {
        None => None,
        Some(j) => Some(
            ParseErrorView {
                kind: ErrorKindView::DuplicateName {
                    name: names[j],
                    scope,
                    locations: occurrences(names, offsets, names[j]),
                },
                offset: offsets[j] as int,
                fatal: true,
                context,
            },
        ),
    }
}

/// The occurrences in the first `k` names are the first of the occurrences
/// in all of them.
pub proof fn lemma_occurrences_prefix(
    names: Seq<Seq<char>>,
    offsets: Seq<usize>,
    name: Seq<char>,
    k: int,
)
    requires
        names.len() == offsets.len(),
        0 <= k <= names.len(),
    ensures
        occurrences(names.subrange(0, k), offsets.subrange(0, k), name).is_prefix_of(
            occurrences(names, offsets, name),
        ),
    decreases names.len() - k,
{
    if k < names.len() {
        assert(names.subrange(0, k + 1).drop_last() =~= names.subrange(0, k));
        assert(offsets.subrange(0, k + 1).drop_last() =~= offsets.subrange(0, k));
        lemma_occurrences_prefix(names, offsets, name, k + 1);
    } else {
        assert(names.subrange(0, k) =~= names);
        assert(offsets.subrange(0, k) =~= offsets);
    }
}

/// The occurrences of a name hold the offset of every position at which the
/// name stands. Among distinct names, a name that stands at `i` has that one
/// occurrence.
pub proof fn lemma_occurrences(names: Seq<Seq<char>>, offsets: Seq<usize>, name: Seq<char>)
    requires
        names.len() == offsets.len(),
    ensures
        forall|k: int|
            0 <= k < names.len() && #[trigger] names[k] == name ==> occurrences(
                names,
                offsets,
                name,
            ).contains(offsets[k]),
        !names.contains(name) ==> occurrences(names, offsets, name) == Seq::<usize>::empty(),
        forall|i: int|
            distinct(names) && 0 <= i < names.len() && #[trigger] names[i] == name ==> occurrences(
                names,
                offsets,
                name,
            ) == seq![offsets[i]],
    decreases names.len(),
{
    let found = occurrences(names, offsets, name);
    if names.len() > 0 {
        let front = names.drop_last();
        let before = occurrences(front, offsets.drop_last(), name);
        let last = names.len() - 1;
        lemma_occurrences(front, offsets.drop_last(), name);
        assert forall|k: int| 0 <= k < names.len() && #[trigger] names[k] == name implies found.contains(
            offsets[k],
        ) by {
            if k < last {
                assert(front[k] == name);
                let at = choose|at: int| 0 <= at < before.len() && before[at] == offsets.drop_last()[k];
                assert(found[at] == offsets[k]);
            } else {
                assert(found[found.len() - 1] == offsets[k]);
            }
        }
        if !names.contains(name) {
            assert(names[last] != name);
            if front.contains(name) {
                let at = choose|at: int| 0 <= at < front.len() && front[at] == name;
                assert(names[at] == name);
            }
        }
        assert forall|i: int|
            distinct(names) && 0 <= i < names.len() && #[trigger] names[i] == name implies found
            == seq![offsets[i]] by {
            assert(distinct(front)) by {
                assert forall|a: int, b: int| 0 <= a < b < front.len() implies front[a]
                    != front[b] by {
                    assert(names[a] != names[b]);
                }
            }
            if i < last {
                assert(front[i] == name);
                assert(names[i] != names[last]);
                assert(before == seq![offsets.drop_last()[i]]);
            } else {
                if front.contains(name) {
                    let at = choose|at: int| 0 <= at < front.len() && front[at] == name;
                    assert(names[at] != names[last]);
                }
                assert(found =~= seq![offsets[i]]);
            }
        }
    }
}

/// Names are reported as a duplicate exactly when they are not distinct. The
/// error then cites a name that is declared at least twice, with the offset
/// of every declaration of it, and lies at the second declaration.
pub proof fn lemma_duplicate(
    names: Seq<Seq<char>>,
    offsets: Seq<usize>,
    scope: Scope,
    context: Seq<Seq<char>>,
)
    requires
        names.len() == offsets.len(),
    ensures
        duplicate(names, offsets, scope, context) is None <==> distinct(names),
        duplicate(names, offsets, scope, context) matches Some(e) ==> e.fatal && e.context
            == context && (e.kind matches ErrorKindView::DuplicateName {
            name,
            scope: within,
            locations,
        } && within == scope && locations.len() >= 2 && e.offset == locations[1] && forall|k: int|
            0 <= k < names.len() && #[trigger] names[k] == name ==> locations.contains(offsets[k])),
{
    lemma_first_repeat(names);
    if let Some(j) = first_repeat(names) {
        let name = names[j];
        let front = names.subrange(0, j);
        let i = choose|i: int| 0 <= i < j && names[i] == names[j];
        lemma_occurrences(names, offsets, name);
        lemma_occurrences(front, offsets.subrange(0, j), name);
        assert(front[i] == name);
        let upto = names.subrange(0, j + 1);
        assert(upto.drop_last() =~= front);
        assert(offsets.subrange(0, j + 1).drop_last() =~= offsets.subrange(0, j));
        assert(occurrences(upto, offsets.subrange(0, j + 1), name) == seq![
            offsets[i],
            offsets[j],
        ]) by {
            assert(occurrences(front, offsets.subrange(0, j), name) == seq![
                offsets.subrange(0, j)[i],
            ]);
            assert(seq![offsets[i]].push(offsets[j]) =~= seq![offsets[i], offsets[j]]);
        }
        lemma_occurrences_prefix(names, offsets, name, j + 1);
        let all = occurrences(names, offsets, name);
        assert(all[1] == seq![offsets[i], offsets[j]][1]);
    }
}

/// Looks for a name that is declared twice, and returns the error for it.
pub fn check_unique(names: &Vec<String>, offsets: &Vec<usize>, scope: Scope, context: Vec<String>) -> (r:
    Option<ParseError>)
    requires
        names@.len() == offsets@.len(),
    ensures
        r.deep_view() == duplicate(names.deep_view(), offsets@, scope, context.deep_view()),
{
    match find_repeat(names) {
        None => None,
        Some(j) => {
            proof {
                lemma_first_repeat(names.deep_view());
            }
            let name = names[j].clone();
            let locations = occurrences_of(names, offsets, &name);
            Some(
                ParseError {
                    kind: ErrorKind::DuplicateName { name, scope, locations },
                    offset: offsets[j],
                    fatal: true,
                    context,
                },
            )
        },
    }
}

} // verus!
