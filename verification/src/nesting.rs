//! How deep the fields of a document nest once its fragments are expanded.
//!
//! An execution descends one level for every field that has selections of its
//! own. A document whose fragments lead back to themselves through a field
//! nests without bound; the engine executes the documents that do not.
use vstd::prelude::*;
use crate::ast::{
    get_fragment, include_selection, lemma_selection_set_view, skip_selection, Document,
    DocumentModel, Field, FieldModel, Selection, SelectionModel, SelectionSet,
};
use crate::fields::{
    append_group, collect, group_keyed, group_position, lemma_push_keeps, lemma_spread_decreases,
    merge_groups, type_applies, unvisited_count,
};
use crate::schema::{ObjectTypeModel, SchemaModel};
use crate::semantics::merged_items;
use crate::util::{clone_names, contains_name, lemma_first_match, models};

verus! {

/// Whether the fields reached from `selection` nest at most `depth` levels
/// deep. A field takes one level and its own selections the rest; a spread
/// takes what its fragment's selections take, unless the fragment is in
/// `visited`, the fragments that are being expanded already. Selections that
/// are skipped or not included take nothing.
pub open spec fn selection_within(
    document: DocumentModel,
    selection: SelectionModel,
    visited: Seq<Seq<char>>,
    depth: nat,
) -> bool
    decreases depth, unvisited_count(document.fragments, visited), 0int,
{
    if !selection.considered() {
        true
    } else {
        match selection {
            SelectionModel::Field(f) => depth > 0 && selections_within(
                document,
                f.selection_set.items,
                f.selection_set.items.len() as int,
                Seq::empty(),
                (depth - 1) as nat,
            ),
            SelectionModel::FragmentSpread(spread) => visited.contains(spread.fragment_name)
                || match document.fragment(spread.fragment_name) {
                Some(fragment) => {
                    proof {
                        lemma_expansion_decreases(document, visited, spread.fragment_name);
                    }
                    selections_within(
                        document,
                        fragment.selection_set.items,
                        fragment.selection_set.items.len() as int,
                        visited.push(spread.fragment_name),
                        depth,
                    )
                },
                None => true,
            },
            SelectionModel::InlineFragment(_) => true,
        }
    }
}

/// Whether the fields reached from the first `upto` of `selections` nest at
/// most `depth` levels deep.
pub open spec fn selections_within(
    document: DocumentModel,
    selections: Seq<SelectionModel>,
    upto: int,
    visited: Seq<Seq<char>>,
    depth: nat,
) -> bool
    decreases depth, unvisited_count(document.fragments, visited), upto + 1,
{
    if upto <= 0 {
        true
    } else {
        selections_within(document, selections, upto - 1, visited, depth) && selection_within(
            document,
            selections[upto - 1],
            visited,
            depth,
        )
    }
}

/// Expanding a fragment of the document that is not being expanded yet leaves
/// strictly fewer fragments to expand.
pub proof fn lemma_expansion_decreases(
    document: DocumentModel,
    visited: Seq<Seq<char>>,
    name: Seq<char>,
)
    requires
        !visited.contains(name),
        document.fragment(name).is_some(),
    ensures
        unvisited_count(document.fragments, visited.push(name)) < unvisited_count(
            document.fragments,
            visited,
        ),
{
    assert(visited + Seq::<Seq<char>>::empty() =~= visited);
    lemma_spread_decreases(document, visited, Seq::empty(), name);
}

/// Whether the selections of `field` nest at most `depth - 1` levels deep, so
/// that the field itself nests at most `depth` deep.
pub open spec fn field_within(document: DocumentModel, field: FieldModel, depth: nat) -> bool {
    depth > 0 && selections_within(
        document,
        field.selection_set.items,
        field.selection_set.items.len() as int,
        Seq::empty(),
        (depth - 1) as nat,
    )
}

/// Whether the group has a field and each of its fields nests within `depth`.
pub open spec fn group_within(document: DocumentModel, fields: Seq<FieldModel>, depth: nat) -> bool {
    fields.len() > 0 && forall|j: int|
        0 <= j < fields.len() ==> field_within(document, #[trigger] fields[j], depth)
}

/// Whether every group has a field and every field of every group nests at
/// most `depth` levels deep.
pub open spec fn groups_within(
    document: DocumentModel,
    groups: Seq<(Seq<char>, Seq<FieldModel>)>,
    depth: nat,
) -> bool {
    &&& forall|i: int| 0 <= i < groups.len() ==> (#[trigger] groups[i]).1.len() > 0
    &&& forall|i: int, j: int|
        0 <= i < groups.len() && 0 <= j < groups[i].1.len() ==> field_within(
            document,
            #[trigger] groups[i].1[j],
            depth,
        )
}

/// Whether the document's fields, reached from `selections`, nest within some
/// depth.
pub open spec fn nesting_bounded(document: DocumentModel, selections: Seq<SelectionModel>) -> bool {
    exists|depth: nat|
        selections_within(document, selections, selections.len() as int, Seq::empty(), depth)
}

/// A depth within which the fields reached from `selections` nest, when there
/// is one.
pub open spec fn nesting_depth(document: DocumentModel, selections: Seq<SelectionModel>) -> nat {
    choose|depth: nat|
        selections_within(document, selections, selections.len() as int, Seq::empty(), depth)
}

/// The selections nest within a depth exactly when each of them does.
pub proof fn lemma_within_each(
    document: DocumentModel,
    selections: Seq<SelectionModel>,
    upto: int,
    visited: Seq<Seq<char>>,
    depth: nat,
)
    requires
        0 <= upto <= selections.len(),
    ensures
        selections_within(document, selections, upto, visited, depth) <==> (forall|i: int|
            0 <= i < upto ==> selection_within(document, #[trigger] selections[i], visited, depth)),
    decreases upto,
{
    if upto > 0 {
        lemma_within_each(document, selections, upto - 1, visited, depth);
    }
}

/// With more fragments counted as being expanded already, a selection nests
/// no deeper.
pub proof fn lemma_selection_within_monotone(
    document: DocumentModel,
    selection: SelectionModel,
    fewer: Seq<Seq<char>>,
    more: Seq<Seq<char>>,
    depth: nat,
)
    requires
        forall|name: Seq<char>| fewer.contains(name) ==> more.contains(name),
        selection_within(document, selection, fewer, depth),
    ensures
        selection_within(document, selection, more, depth),
    decreases depth, unvisited_count(document.fragments, fewer), 0int,
{
    if selection.considered() {
        match selection {
            SelectionModel::FragmentSpread(spread) => {
                let name = spread.fragment_name;
                if !more.contains(name) {
                    match document.fragment(name) {
                        Some(fragment) => {
                            lemma_expansion_decreases(document, fewer, name);
                            assert forall|other: Seq<char>|
                                fewer.push(name).contains(other) implies more.push(name).contains(
                                other,
                            ) by {
                                lemma_push_cases(fewer, name, other);
                                lemma_push_keeps(more, other);
                                lemma_push_keeps(more, name);
                            }
                            lemma_selections_within_monotone(
                                document,
                                fragment.selection_set.items,
                                fragment.selection_set.items.len() as int,
                                fewer.push(name),
                                more.push(name),
                                depth,
                            );
                        },
                        None => {},
                    }
                }
            },
            _ => {},
        }
    }
}

/// With more fragments counted as being expanded already, selections nest no
/// deeper.
pub proof fn lemma_selections_within_monotone(
    document: DocumentModel,
    selections: Seq<SelectionModel>,
    upto: int,
    fewer: Seq<Seq<char>>,
    more: Seq<Seq<char>>,
    depth: nat,
)
    requires
        forall|name: Seq<char>| fewer.contains(name) ==> more.contains(name),
        selections_within(document, selections, upto, fewer, depth),
    ensures
        selections_within(document, selections, upto, more, depth),
    decreases depth, unvisited_count(document.fragments, fewer), upto + 1,
{
    if upto > 0 {
        lemma_selections_within_monotone(document, selections, upto - 1, fewer, more, depth);
        lemma_selection_within_monotone(document, selections[upto - 1], fewer, more, depth);
    }
}

/// What a sequence contains after a push is what it contained before, or the
/// pushed element.
pub proof fn lemma_push_cases<T>(items: Seq<T>, pushed: T, x: T)
    requires
        items.push(pushed).contains(x),
    ensures
        items.contains(x) || x == pushed,
{
    let i = choose|i: int| 0 <= i < items.push(pushed).len() && items.push(pushed)[i] == x;
    if i < items.len() {
        assert(items[i] == x);
    }
}

/// Whether the fields reached from `selections` nest at most `depth` levels
/// deep, with the fragments named in `visited` counted as being expanded
/// already.
pub fn selections_nest_within(
    document: &Document,
    selections: &Vec<Selection>,
    visited: &Vec<String>,
    depth: usize,
) -> (within: bool)
    ensures
        within == selections_within(
            document@,
            models(selections@),
            selections.len() as int,
            models(visited@),
            depth as nat,
        ),
    decreases depth, unvisited_count(document@.fragments, models(visited@)),
{
    let ghost items = models(selections@);
    let ghost seen = models(visited@);
    let mut i: usize = 0;
    while i < selections.len()
        invariant
            i <= selections.len(),
            items == models(selections@),
            seen == models(visited@),
            selections_within(document@, items, i as int, seen, depth as nat),
        decreases selections.len() - i,
    {
        let selection = &selections[i];
        assert(items[i as int] == selection@);
        let within = if skip_selection(selection) || !include_selection(selection) {
            true
        } else {
            match selection {
                Selection::Field(f) => {
                    if depth == 0 {
                        false
                    } else {
                        proof {
                            lemma_selection_set_view(f.selection_set);
                        }
                        let fresh: Vec<String> = Vec::new();
                        assert(models(fresh@) =~= Seq::<Seq<char>>::empty());
                        selections_nest_within(document, &f.selection_set.items, &fresh, depth - 1)
                    }
                },
                Selection::InlineFragment(_) => true,
                Selection::FragmentSpread(spread) => {
                    if contains_name(visited, &spread.fragment_name) {
                        true
                    } else {
                        match get_fragment(document, &spread.fragment_name) {
                            None => true,
                            Some(fragment) => {
                                let mut longer = clone_names(visited);
                                longer.push(spread.fragment_name.clone());
                                proof {
                                    assert(models(longer@) =~= seen.push(spread.fragment_name@));
                                    lemma_expansion_decreases(
                                        document@,
                                        seen,
                                        spread.fragment_name@,
                                    );
                                    lemma_selection_set_view(fragment.selection_set);
                                }
                                selections_nest_within(
                                    document,
                                    &fragment.selection_set.items,
                                    &longer,
                                    depth,
                                )
                            },
                        }
                    }
                },
            }
        };
        assert(within == selection_within(document@, items[i as int], seen, depth as nat));
        if !within {
            proof {
                lemma_within_each(document@, items, items.len() as int, seen, depth as nat);
            }
            return false;
        }
        i += 1;
    }
    true
}

/// Whether the fields of `selection_set` nest at most `depth` levels deep.
/// What does can be executed.
pub fn nests_within(document: &Document, selection_set: &SelectionSet, depth: usize) -> (within:
    bool)
    ensures
        within == selections_within(
            document@,
            selection_set@.items,
            selection_set@.items.len() as int,
            Seq::empty(),
            depth as nat,
        ),
        within ==> nesting_bounded(document@, selection_set@.items),
{
    let fresh: Vec<String> = Vec::new();
    proof {
        assert(models(fresh@) =~= Seq::<Seq<char>>::empty());
        lemma_selection_set_view(*selection_set);
    }
    selections_nest_within(document, &selection_set.items, &fresh, depth)
}

/// Whether the group `fields` has a field and each of its fields nests at most
/// `depth` levels deep. Such a group can be executed.
pub fn group_nests_within(document: &Document, fields: &Vec<Field>, depth: usize) -> (within: bool)
    ensures
        within == group_within(document@, models(fields@), depth as nat),
{
    if fields.len() == 0 {
        return false;
    }
    if depth == 0 {
        assert(!field_within(document@, models(fields@)[0], depth as nat));
        return false;
    }
    let fresh: Vec<String> = Vec::new();
    assert(models(fresh@) =~= Seq::<Seq<char>>::empty());
    let mut i: usize = 0;
    while i < fields.len()
        invariant
            i <= fields.len(),
            depth > 0,
            models(fresh@) == Seq::<Seq<char>>::empty(),
            forall|j: int|
                0 <= j < i ==> field_within(document@, #[trigger] models(fields@)[j], depth as nat),
        decreases fields.len() - i,
    {
        proof {
            lemma_selection_set_view(fields[i as int].selection_set);
            assert(models(fields@)[i as int] == fields[i as int]@);
        }
        if !selections_nest_within(document, &fields[i].selection_set.items, &fresh, depth - 1) {
            assert(!field_within(document@, models(fields@)[i as int], depth as nat));
            return false;
        }
        i += 1;
    }
    true
}

/// The merged selections of fields that nest within `depth` nest within one
/// level less.
pub proof fn lemma_merged_within(
    document: DocumentModel,
    fields: Seq<FieldModel>,
    upto: int,
    depth: nat,
)
    requires
        0 <= upto <= fields.len(),
        depth > 0,
        forall|j: int| 0 <= j < upto ==> field_within(document, #[trigger] fields[j], depth),
    ensures
        selections_within(
            document,
            merged_items(fields, upto),
            merged_items(fields, upto).len() as int,
            Seq::empty(),
            (depth - 1) as nat,
        ),
    decreases upto,
{
    let inner = (depth - 1) as nat;
    let none = Seq::<Seq<char>>::empty();
    if upto > 0 {
        lemma_merged_within(document, fields, upto - 1, depth);
        let before = merged_items(fields, upto - 1);
        let added = fields[upto - 1].selection_set.items;
        let all = merged_items(fields, upto);
        assert(field_within(document, fields[upto - 1], depth));
        lemma_within_each(document, before, before.len() as int, none, inner);
        lemma_within_each(document, added, added.len() as int, none, inner);
        lemma_within_each(document, all, all.len() as int, none, inner);
        assert forall|i: int| 0 <= i < all.len() implies selection_within(
            document,
            #[trigger] all[i],
            none,
            inner,
        ) by {
            if i < before.len() {
                assert(all[i] == before[i]);
            } else {
                assert(all[i] == added[i - before.len()]);
            }
        }
    }
}

/// Adding fields that nest within `depth` to groups that do leaves groups
/// that do.
pub proof fn lemma_append_within(
    document: DocumentModel,
    groups: Seq<(Seq<char>, Seq<FieldModel>)>,
    key: Seq<char>,
    fields: Seq<FieldModel>,
    depth: nat,
)
    requires
        groups_within(document, groups, depth),
        fields.len() > 0,
        forall|j: int| 0 <= j < fields.len() ==> field_within(document, #[trigger] fields[j], depth),
    ensures
        groups_within(document, append_group(groups, key, fields), depth),
{
    let at = group_position(groups, key);
    lemma_first_match(groups, group_keyed(key));
    let after = append_group(groups, key, fields);
    assert forall|i: int| 0 <= i < after.len() implies (#[trigger] after[i]).1.len() > 0 by {
        if i < groups.len() {
            assert(groups[i].1.len() > 0);
        }
    }
    assert forall|i: int, j: int| 0 <= i < after.len() && 0 <= j < after[i].1.len() implies field_within(
        document,
        #[trigger] after[i].1[j],
        depth,
    ) by {
        if at < groups.len() && i == at {
            if j < groups[i].1.len() {
                assert(after[i].1[j] == groups[i].1[j]);
            } else {
                assert(after[i].1[j] == fields[j - groups[i].1.len()]);
            }
        } else if i < groups.len() {
            assert(after[i] == groups[i]);
            assert(field_within(document, groups[i].1[j], depth));
        } else {
            assert(after[i].1[j] == fields[j]);
        }
    }
}

/// Merging groups that nest within `depth` into groups that do leaves groups
/// that do.
pub proof fn lemma_merge_within(
    document: DocumentModel,
    groups: Seq<(Seq<char>, Seq<FieldModel>)>,
    more: Seq<(Seq<char>, Seq<FieldModel>)>,
    upto: int,
    depth: nat,
)
    requires
        0 <= upto <= more.len(),
        groups_within(document, groups, depth),
        groups_within(document, more, depth),
    ensures
        groups_within(document, merge_groups(groups, more, upto), depth),
    decreases upto,
{
    if upto > 0 {
        lemma_merge_within(document, groups, more, upto - 1, depth);
        let last = more[upto - 1];
        assert(last.1.len() > 0);
        assert forall|j: int| 0 <= j < last.1.len() implies field_within(
            document,
            #[trigger] last.1[j],
            depth,
        ) by {
            assert(field_within(document, more[upto - 1].1[j], depth));
        }
        lemma_append_within(
            document,
            merge_groups(groups, more, upto - 1),
            last.0,
            last.1,
            depth,
        );
    }
}

/// The groups collected from selections that nest within `depth` hold fields
/// that nest within `depth`, and no group is empty.
pub proof fn lemma_collect_within(
    document: DocumentModel,
    schema: SchemaModel,
    object_type: ObjectTypeModel,
    selections: Seq<SelectionModel>,
    upto: int,
    visited: Seq<Seq<char>>,
    depth: nat,
)
    requires
        0 <= upto <= selections.len(),
        selections_within(document, selections, upto, visited, depth),
        collect(document, schema, object_type, selections, upto, visited).is_ok(),
    ensures
        groups_within(
            document,
            collect(document, schema, object_type, selections, upto, visited)->Ok_0.groups,
            depth,
        ),
    decreases unvisited_count(document.fragments, visited), upto,
{
    if upto > 0 {
        lemma_collect_within(document, schema, object_type, selections, upto - 1, visited, depth);
        let before = collect(document, schema, object_type, selections, upto - 1, visited)->Ok_0;
        let groups = before.groups;
        let selection = selections[upto - 1];
        assert(selection_within(document, selection, visited, depth));
        if selection.considered() {
            match selection {
                SelectionModel::Field(f) => {
                    assert(field_within(document, f, depth));
                    assert(seq![f][0] == f);
                    lemma_append_within(document, groups, f.response_key(), seq![f], depth);
                },
                SelectionModel::InlineFragment(_) => {},
                SelectionModel::FragmentSpread(spread) => {
                    let seen = visited + before.added;
                    let name = spread.fragment_name;
                    if !seen.contains(name) {
                        match document.fragment(name) {
                            Some(fragment) => {
                                if type_applies(schema, object_type, fragment.type_condition) {
                                    lemma_spread_decreases(document, visited, before.added, name);
                                    assert forall|other: Seq<char>|
                                        visited.contains(other) implies seen.contains(other) by {
                                        let i = choose|i: int|
                                            0 <= i < visited.len() && visited[i] == other;
                                        assert(seen[i] == other);
                                    }
                                    assert forall|other: Seq<char>|
                                        visited.push(name).contains(
                                            other,
                                        ) implies seen.push(name).contains(other) by {
                                        lemma_push_cases(visited, name, other);
                                        lemma_push_keeps(seen, other);
                                        lemma_push_keeps(seen, name);
                                    }
                                    let items = fragment.selection_set.items;
                                    assert(!visited.contains(name));
                                    assert(selections_within(
                                        document,
                                        items,
                                        items.len() as int,
                                        visited.push(name),
                                        depth,
                                    ));
                                    lemma_selections_within_monotone(
                                        document,
                                        items,
                                        items.len() as int,
                                        visited.push(name),
                                        seen.push(name),
                                        depth,
                                    );
                                    lemma_collect_within(
                                        document,
                                        schema,
                                        object_type,
                                        items,
                                        items.len() as int,
                                        seen.push(name),
                                        depth,
                                    );
                                    let more = collect(
                                        document,
                                        schema,
                                        object_type,
                                        items,
                                        items.len() as int,
                                        seen.push(name),
                                    )->Ok_0.groups;
                                    lemma_merge_within(
                                        document,
                                        groups,
                                        more,
                                        more.len() as int,
                                        depth,
                                    );
                                }
                            },
                            None => {},
                        }
                    }
                },
            }
        }
    } else {
        assert(collect(document, schema, object_type, selections, upto, visited)->Ok_0.groups
            =~= Seq::empty());
    }
}

} // verus!
