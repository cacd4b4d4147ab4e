//! Sequence notions shared by the models: element-wise views and first matches.
use vstd::prelude::*;

verus! {

/// The views of the elements of `items`, one for one.
pub open spec fn models<T: View>(items: Seq<T>) -> Seq<T::V> {
    Seq::new(items.len(), |i: int| items[i]@)
}

/// The index of the first element that satisfies `wanted`, or the length of
/// the sequence when none does.
pub open spec fn first_match<T>(items: Seq<T>, wanted: spec_fn(T) -> bool) -> int
    decreases items.len(),
{
    if items.len() == 0 {
        0
    } else if wanted(items[0]) {
        0
    } else {
        1 + first_match(items.skip(1), wanted)
    }
}

/// The first element that satisfies `wanted`, if there is one.
pub open spec fn find_first<T>(items: Seq<T>, wanted: spec_fn(T) -> bool) -> Option<T> {
    let i = first_match(items, wanted);
    if i < items.len() {
        Some(items[i])
    } else {
        None
    }
}

/// `first_match` stays within bounds, points at a satisfying element when it
/// is within them, and nothing before it satisfies `wanted`.
pub proof fn lemma_first_match<T>(items: Seq<T>, wanted: spec_fn(T) -> bool)
    ensures
        0 <= first_match(items, wanted) <= items.len(),
        first_match(items, wanted) < items.len() ==> wanted(items[first_match(items, wanted)]),
        forall|j: int| 0 <= j < first_match(items, wanted) ==> !wanted(#[trigger] items[j]),
    decreases items.len(),
{
    if items.len() > 0 && !wanted(items[0]) {
        let rest = items.skip(1);
        lemma_first_match(rest, wanted);
        assert forall|j: int| 0 <= j < first_match(items, wanted) implies !wanted(
            #[trigger] items[j],
        ) by {
            if j > 0 {
                assert(rest[j - 1] == items[j]);
            }
        }
    }
}

/// An index with nothing satisfying before it, which satisfies `wanted` itself
/// or is the end of the sequence, is the `first_match`.
pub proof fn lemma_first_match_at<T>(items: Seq<T>, wanted: spec_fn(T) -> bool, at: int)
    requires
        0 <= at <= items.len(),
        forall|j: int| 0 <= j < at ==> !wanted(#[trigger] items[j]),
        at < items.len() ==> wanted(items[at]),
    ensures
        first_match(items, wanted) == at,
        at < items.len() ==> find_first(items, wanted) == Some(items[at]),
        at == items.len() ==> find_first(items, wanted).is_none(),
{
    lemma_first_match(items, wanted);
    let i = first_match(items, wanted);
    if i < at {
        assert(wanted(items[i]));
    }
}

/// Two sequences of one length whose elements satisfy their predicates at the
/// same places have their first match at the same place.
pub proof fn lemma_first_match_mapped<A, B>(
    a: Seq<A>,
    wanted_a: spec_fn(A) -> bool,
    b: Seq<B>,
    wanted_b: spec_fn(B) -> bool,
)
    requires
        a.len() == b.len(),
        forall|i: int| 0 <= i < a.len() ==> wanted_a(#[trigger] a[i]) == wanted_b(b[i]),
    ensures
        first_match(a, wanted_a) == first_match(b, wanted_b),
{
    lemma_first_match(a, wanted_a);
    let at = first_match(a, wanted_a);
    assert forall|j: int| 0 <= j < at implies !wanted_b(#[trigger] b[j]) by {
        assert(!wanted_a(a[j]));
    }
    if at < a.len() {
        assert(wanted_a(a[at]));
    }
    lemma_first_match_at(b, wanted_b, at);
}

/// Whether `text` reads exactly as `literal`.
pub fn text_is(text: &String, literal: &str) -> (same: bool)
    ensures
        same == (text@ == literal@),
{
    let owned = literal.to_owned();
    *text == owned
}

/// Compares two lists of strings element by element.
pub fn strings_eq(a: &Vec<String>, b: &Vec<String>) -> (same: bool)
    ensures
        same == (models(a@) == models(b@)),
{
    if a.len() != b.len() {
        assert(models(a@).len() != models(b@).len());
        return false;
    }
    let mut i: usize = 0;
    while i < a.len()
        invariant
            i <= a.len(),
            a.len() == b.len(),
            forall|j: int| 0 <= j < i ==> a[j]@ == b[j]@,
        decreases a.len() - i,
    {
        if !(a[i] == b[i]) {
            assert(models(a@)[i as int] != models(b@)[i as int]);
            return false;
        }
        i += 1;
    }
    assert(models(a@) =~= models(b@));
    true
}

/// Copies a list of strings.
pub fn clone_names(names: &Vec<String>) -> (copy: Vec<String>)
    ensures
        models(copy@) == models(names@),
{
    let mut out: Vec<String> = Vec::new();
    let mut i: usize = 0;
    while i < names.len()
        invariant
            i <= names.len(),
            out.len() == i,
            forall|j: int| 0 <= j < i ==> out[j]@ == names[j]@,
        decreases names.len() - i,
    {
        out.push(names[i].clone());
        i += 1;
    }
    assert(models(out@) =~= models(names@));
    out
}

/// Whether `name` occurs in `names`.
pub fn contains_name(names: &Vec<String>, name: &String) -> (found: bool)
    ensures
        found == models(names@).contains(name@),
{
    let mut i: usize = 0;
    while i < names.len()
        invariant
            i <= names.len(),
            forall|j: int| 0 <= j < i ==> names[j]@ != name@,
        decreases names.len() - i,
    {
        if names[i] == *name {
            assert(models(names@)[i as int] == name@);
            return true;
        }
        i += 1;
    }
    assert forall|j: int| 0 <= j < models(names@).len() implies models(names@)[j] != name@ by {
        assert(models(names@)[j] == names[j]@);
    }
    false
}

} // verus!
