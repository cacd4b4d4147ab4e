//! Field collection: how a selection set is flattened into groups of fields
//! that share a response key.
use vstd::prelude::*;
use crate::ast::{DocumentModel, FieldModel, FragmentDefinitionModel, SelectionModel};
use crate::error::ErrorModel;
use crate::schema::{ObjectTypeModel, SchemaModel, TypeDefinitionModel};
use crate::util::{first_match, lemma_first_match};

verus! {

/// The position of the group keyed `key`, or the number of groups when there
/// is none.
pub open spec fn group_position(groups: Seq<(Seq<char>, Seq<FieldModel>)>, key: Seq<char>) -> int {
    first_match(groups, group_keyed(key))
}

/// The test that a group's key is `key`.
pub open spec fn group_keyed(key: Seq<char>) -> spec_fn((Seq<char>, Seq<FieldModel>)) -> bool {
    |g: (Seq<char>, Seq<FieldModel>)| g.0 == key
}

/// `groups` with `fields` added under `key`: appended to the group of that
/// key, which stays in its place, or as a new last group when no group has
/// that key yet.
pub open spec fn append_group(
    groups: Seq<(Seq<char>, Seq<FieldModel>)>,
    key: Seq<char>,
    fields: Seq<FieldModel>,
) -> Seq<(Seq<char>, Seq<FieldModel>)> {
    let at = group_position(groups, key);
    if at < groups.len() {
        groups.update(at, (groups[at].0, groups[at].1 + fields))
    } else {
        groups.push((key, fields))
    }
}

/// `groups` with the first `upto` groups of `more` added, one after the other.
pub open spec fn merge_groups(
    groups: Seq<(Seq<char>, Seq<FieldModel>)>,
    more: Seq<(Seq<char>, Seq<FieldModel>)>,
    upto: int,
) -> Seq<(Seq<char>, Seq<FieldModel>)>
    decreases upto,
{
    if upto <= 0 {
        groups
    } else {
        append_group(merge_groups(groups, more, upto - 1), more[upto - 1].0, more[upto - 1].1)
    }
}

/// Whether a fragment on the type named `condition` applies to `object_type`:
/// the name is that of the same object type, of an interface that the object
/// type implements, or of a union that has the object type as a member.
pub open spec fn type_applies(
    schema: SchemaModel,
    object_type: ObjectTypeModel,
    condition: Seq<char>,
) -> bool {
    match schema.named_type(condition) {
        Some(TypeDefinitionModel::Object(t)) => object_type == t,
        Some(TypeDefinitionModel::Interface(t)) => object_type.implements_interfaces.contains(
            t.name,
        ),
        Some(TypeDefinitionModel::Union(t)) => t.types.contains(object_type.name),
        _ => false,
    }
}

/// How many of `fragments` have a name that is not in `visited`.
pub open spec fn unvisited_count(
    fragments: Seq<FragmentDefinitionModel>,
    visited: Seq<Seq<char>>,
) -> nat
    decreases fragments.len(),
{
    if fragments.len() == 0 {
        0
    } else {
        let rest = unvisited_count(fragments.drop_last(), visited);
        if visited.contains(fragments.last().name) {
            rest
        } else {
            rest + 1
        }
    }
}

/// Visiting more fragments leaves no more of them unvisited.
pub proof fn lemma_unvisited_monotone(
    fragments: Seq<FragmentDefinitionModel>,
    fewer: Seq<Seq<char>>,
    more: Seq<Seq<char>>,
)
    requires
        forall|name: Seq<char>| fewer.contains(name) ==> more.contains(name),
    ensures
        unvisited_count(fragments, more) <= unvisited_count(fragments, fewer),
    decreases fragments.len(),
{
    if fragments.len() > 0 {
        lemma_unvisited_monotone(fragments.drop_last(), fewer, more);
    }
}

/// Visiting a fragment of the document that was not visited before leaves
/// strictly fewer unvisited.
pub proof fn lemma_unvisited_strict(
    fragments: Seq<FragmentDefinitionModel>,
    fewer: Seq<Seq<char>>,
    more: Seq<Seq<char>>,
    name: Seq<char>,
    at: int,
)
    requires
        forall|other: Seq<char>| fewer.contains(other) ==> more.contains(other),
        !fewer.contains(name),
        more.contains(name),
        0 <= at < fragments.len(),
        fragments[at].name == name,
    ensures
        unvisited_count(fragments, more) < unvisited_count(fragments, fewer),
    decreases fragments.len(),
{
    let shorter = fragments.drop_last();
    if at == fragments.len() - 1 {
        lemma_unvisited_monotone(shorter, fewer, more);
    } else {
        assert(shorter[at] == fragments[at]);
        lemma_unvisited_strict(shorter, fewer, more, name, at);
    }
}

/// Pushing onto a sequence keeps what it contained, and the pushed element is
/// contained.
pub proof fn lemma_push_keeps<T>(items: Seq<T>, x: T)
    ensures
        forall|added: T| items.contains(x) ==> (#[trigger] items.push(added)).contains(x),
        items.push(x).contains(x),
{
    assert(items.push(x)[items.len() as int] == x);
    assert forall|added: T| items.contains(x) implies (#[trigger] items.push(added)).contains(
        x,
    ) by {
        let i = choose|i: int| 0 <= i < items.len() && items[i] == x;
        assert(items.push(added)[i] == x);
    }
}

/// The text of the error raised for an inline fragment.
pub open spec fn inline_fragment_message() -> Seq<char> {
    "Inline fragments are not supported"@
}

/// What a collection gives: the groups of fields, and the names of the
/// fragments that it visited, in the order in which it came to them.
pub struct Collected {
    pub groups: Seq<(Seq<char>, Seq<FieldModel>)>,
    pub added: Seq<Seq<char>>,
}

/// What is collected from the first `upto` of `selections` for an object of
/// type `object_type`, or the error that stops the collection. `visited` are
/// the names of the fragments that were visited before.
///
/// Selections that are skipped or not included are passed over. A field joins
/// the group of its response key. A spread whose fragment was not visited yet,
/// before the collection or in the course of it, marks the fragment visited;
/// when the document defines the fragment and it applies to `object_type`,
/// what is collected from the fragment's own selections is merged in, and the
/// fragments visited there stay visited for the selections that follow. An
/// inline fragment stops the collection with an error.
pub open spec fn collect(
    document: DocumentModel,
    schema: SchemaModel,
    object_type: ObjectTypeModel,
    selections: Seq<SelectionModel>,
    upto: int,
    visited: Seq<Seq<char>>,
) -> Result<Collected, ErrorModel>
    decreases unvisited_count(document.fragments, visited), upto,
{
    if upto <= 0 {
        Ok(Collected { groups: Seq::empty(), added: Seq::empty() })
    } else {
        match collect(document, schema, object_type, selections, upto - 1, visited) {
            Err(e) => Err(e),
            Ok(before) => {
                let selection = selections[upto - 1];
                if !selection.considered() {
                    Ok(before)
                } else {
                    match selection {
                        SelectionModel::Field(f) => Ok(
                            Collected {
                                groups: append_group(before.groups, f.response_key(), seq![f]),
                                added: before.added,
                            },
                        ),
                        SelectionModel::InlineFragment(_) => Err(
                            ErrorModel::NotSupported(inline_fragment_message()),
                        ),
                        SelectionModel::FragmentSpread(spread) => {
                            let seen = visited + before.added;
                            let name = spread.fragment_name;
                            if seen.contains(name) {
                                Ok(before)
                            } else {
                                let marked = Collected {
                                    groups: before.groups,
                                    added: before.added.push(name),
                                };
                                match document.fragment(name) {
                                    Some(fragment) => if type_applies(
                                        schema,
                                        object_type,
                                        fragment.type_condition,
                                    ) {
                                        proof {
                                            lemma_spread_decreases(
                                                document,
                                                visited,
                                                before.added,
                                                name,
                                            );
                                        }
                                        match collect(
                                            document,
                                            schema,
                                            object_type,
                                            fragment.selection_set.items,
                                            fragment.selection_set.items.len() as int,
                                            seen.push(name),
                                        ) {
                                            Ok(inner) => Ok(
                                                Collected {
                                                    groups: merge_groups(
                                                        before.groups,
                                                        inner.groups,
                                                        inner.groups.len() as int,
                                                    ),
                                                    added: marked.added + inner.added,
                                                },
                                            ),
                                            Err(e) => Err(e),
                                        }
                                    } else {
                                        Ok(marked)
                                    },
                                    None => Ok(marked),
                                }
                            }
                        },
                    }
                }
            },
        }
    }
}

/// Expanding a fragment of the document that was not visited yet leaves
/// strictly fewer fragments unvisited than there were at the start.
pub proof fn lemma_spread_decreases(
    document: DocumentModel,
    visited: Seq<Seq<char>>,
    added: Seq<Seq<char>>,
    name: Seq<char>,
)
    requires
        !(visited + added).contains(name),
        document.fragment(name).is_some(),
    ensures
        unvisited_count(document.fragments, (visited + added).push(name)) < unvisited_count(
            document.fragments,
            visited,
        ),
{
    let seen = visited + added;
    lemma_push_keeps(seen, name);
    let wanted = |f: FragmentDefinitionModel| f.name == name;
    lemma_first_match(document.fragments, wanted);
    let at = first_match(document.fragments, wanted);
    assert forall|other: Seq<char>| visited.contains(other) implies seen.push(name).contains(
        other,
    ) by {
        let i = choose|i: int| 0 <= i < visited.len() && visited[i] == other;
        assert(seen[i] == other);
        lemma_push_keeps(seen, other);
    }
    if visited.contains(name) {
        let i = choose|i: int| 0 <= i < visited.len() && visited[i] == name;
        assert(seen[i] == name);
    }
    lemma_unvisited_strict(document.fragments, visited, seen.push(name), name, at);
}

} // verus!
