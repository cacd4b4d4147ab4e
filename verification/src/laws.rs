//! What holds of every execution.
use vstd::prelude::*;
use crate::ast::{DocumentModel, FieldModel, SelectionModel};
use crate::error::ErrorModel;
use crate::execution::{collected_as, lemma_coercion_stops, Scope};
use crate::fields::{
    append_group, collect, group_keyed, group_position, lemma_spread_decreases, merge_groups,
    type_applies, unvisited_count, Collected,
};
use crate::depth::lemma_selection_set_deeper;
use crate::introspection::{
    field, introspection_model, lemma_meta_fields_are_defined, named, required,
};
use crate::resolver::Request;
use crate::semantics::sub_field;
use crate::resolver::ResolverCall;
use crate::schema::{FieldDefinitionModel, ObjectTypeModel, SchemaModel, TypeModel};
use crate::schema::TypeDefinitionModel;
use crate::semantics::{
    coerce_arguments, complete, complete_items, field_definition_for, merged_items, picked,
    resolve, resolve_list, resolve_listed, resolve_named, run_field, run_groups,
    run_selection_set, slot, failure, type_height, upsert, FieldRun, GroupsRun, Resolved,
    SetRun,
};
use crate::coercion::coerce;
use crate::schema::InputValueModel;
use crate::util::{first_match, lemma_first_match, lemma_first_match_at};
use crate::value::{entry_keyed, entry_value, ValueModel};

verus! {

/// A value that completes to `Null` against a type fails against the non-null
/// type around it: the outcome is one `NonNullError` at the field's position,
/// with the errors raised beneath the field and the rest of the trace as they
/// were.
pub proof fn law_null_fails_non_null(
    scope: Scope,
    depth: nat,
    introspecting: bool,
    field: FieldModel,
    inner: TypeModel,
    fields: Seq<FieldModel>,
    value: ValueModel,
    trace: Seq<ResolverCall>,
)
    requires
        complete(scope, depth, introspecting, field, inner, fields, value, trace) is Some,
        complete(scope, depth, introspecting, field, inner, fields, value, trace)->Some_0.result
            == Ok::<ValueModel, ErrorModel>(ValueModel::Null),
    ensures
        complete(
            scope,
            depth,
            introspecting,
            field,
            TypeModel::NonNullType(Box::new(inner)),
            fields,
            value,
            trace,
        ) == Some(
            FieldRun {
                result: Err(ErrorModel::NonNullError(field.position, field.name)),
                errors: complete(
                    scope,
                    depth,
                    introspecting,
                    field,
                    inner,
                    fields,
                    value,
                    trace,
                )->Some_0.errors,
                rest: complete(
                    scope,
                    depth,
                    introspecting,
                    field,
                    inner,
                    fields,
                    value,
                    trace,
                )->Some_0.rest,
            },
        ),
{
}

/// A field that fails leaves `Null` under its own response key and adds
/// exactly one error, its own, after those raised beneath it. The entries and
/// errors of the fields before it stay as they were.
pub proof fn law_failed_field_is_null_in_place(
    scope: Scope,
    depth: nat,
    introspecting: bool,
    object_type: ObjectTypeModel,
    parent: Option<ValueModel>,
    groups: Seq<(Seq<char>, Seq<FieldModel>)>,
    upto: int,
    trace: Seq<ResolverCall>,
    before: GroupsRun,
    definition: FieldDefinitionModel,
    under_meta: bool,
    run: FieldRun,
    e: ErrorModel,
)
    requires
        0 < upto <= groups.len(),
        run_groups(scope, depth, introspecting, object_type, parent, groups, upto - 1, trace)
            == Some(before),
        field_definition_for(scope, introspecting, object_type, groups[upto - 1].1[0].name)
            == Some((definition, under_meta)),
        run_field(scope, depth, under_meta, parent, groups[upto - 1].1, definition, before.rest)
            == Some(run),
        run.result == Err::<ValueModel, ErrorModel>(e),
    ensures
        run_groups(scope, depth, introspecting, object_type, parent, groups, upto, trace) == Some(
            GroupsRun {
                entries: before.entries.push((groups[upto - 1].0, ValueModel::Null)),
                errors: before.errors + run.errors + seq![e],
                rest: run.rest,
            },
        ),
{
}

/// The spread of a fragment that does not apply to the object type adds no
/// field: the groups after the spread are the groups before it.
pub proof fn law_unmatched_fragment_adds_nothing(
    document: DocumentModel,
    schema: SchemaModel,
    object_type: ObjectTypeModel,
    selections: Seq<SelectionModel>,
    upto: int,
    visited: Seq<Seq<char>>,
)
    requires
        0 < upto <= selections.len(),
        selections[upto - 1] is FragmentSpread,
        match document.fragment(selections[upto - 1]->FragmentSpread_0.fragment_name) {
            Some(fragment) => !type_applies(schema, object_type, fragment.type_condition),
            None => true,
        },
    ensures
        match collect(document, schema, object_type, selections, upto - 1, visited) {
            Ok(before) => collected_as(
                collect(document, schema, object_type, selections, upto, visited),
                before.groups,
            ),
            Err(e) => collect(document, schema, object_type, selections, upto, visited) == Err::<
                Collected,
                ErrorModel,
            >(e),
        },
{
}

/// What the field of the group at `at` gives when the groups before it have
/// been executed on `trace`; `None` where the object type does not define
/// the field, or where the trace does not fit.
pub open spec fn field_run_at(
    scope: Scope,
    depth: nat,
    introspecting: bool,
    object_type: ObjectTypeModel,
    parent: Option<ValueModel>,
    groups: Seq<(Seq<char>, Seq<FieldModel>)>,
    at: int,
    trace: Seq<ResolverCall>,
) -> Option<FieldRun> {
    match (
        run_groups(scope, depth, introspecting, object_type, parent, groups, at, trace),
        field_definition_for(scope, introspecting, object_type, groups[at].1[0].name),
    ) {
        (Some(before), Some((definition, under_meta))) => run_field(
            scope,
            depth,
            under_meta,
            parent,
            groups[at].1,
            definition,
            before.rest,
        ),
        _ => None,
    }
}

/// Executing more groups leaves what the groups before them gave as it was:
/// their entries stay the first entries and their errors the first errors.
pub proof fn law_earlier_fields_are_unaffected(
    scope: Scope,
    depth: nat,
    introspecting: bool,
    object_type: ObjectTypeModel,
    parent: Option<ValueModel>,
    groups: Seq<(Seq<char>, Seq<FieldModel>)>,
    earlier: int,
    upto: int,
    trace: Seq<ResolverCall>,
)
    requires
        0 <= earlier <= upto <= groups.len(),
        run_groups(scope, depth, introspecting, object_type, parent, groups, upto, trace) is Some,
    ensures
        run_groups(scope, depth, introspecting, object_type, parent, groups, earlier, trace)
            is Some,
        ({
            let first = run_groups(
                scope,
                depth,
                introspecting,
                object_type,
                parent,
                groups,
                earlier,
                trace,
            )->Some_0;
            let all = run_groups(
                scope,
                depth,
                introspecting,
                object_type,
                parent,
                groups,
                upto,
                trace,
            )->Some_0;
            &&& first.entries.len() <= all.entries.len()
            &&& all.entries.take(first.entries.len() as int) == first.entries
            &&& first.errors.len() <= all.errors.len()
            &&& all.errors.take(first.errors.len() as int) == first.errors
        }),
    decreases upto - earlier,
{
    let all = run_groups(scope, depth, introspecting, object_type, parent, groups, upto, trace)->Some_0;
    if earlier < upto {
        law_earlier_fields_are_unaffected(
            scope,
            depth,
            introspecting,
            object_type,
            parent,
            groups,
            earlier,
            upto - 1,
            trace,
        );
        let first = run_groups(
            scope,
            depth,
            introspecting,
            object_type,
            parent,
            groups,
            earlier,
            trace,
        )->Some_0;
        let before = run_groups(
            scope,
            depth,
            introspecting,
            object_type,
            parent,
            groups,
            upto - 1,
            trace,
        )->Some_0;
        assert(all.entries.take(first.entries.len() as int) =~= before.entries.take(
            first.entries.len() as int,
        ));
        assert(all.errors.take(first.errors.len() as int) =~= before.errors.take(
            first.errors.len() as int,
        ));
    } else {
        assert(all.entries.take(all.entries.len() as int) =~= all.entries);
        assert(all.errors.take(all.errors.len() as int) =~= all.errors);
    }
}

/// In the response of any groups, each field that the object type defines
/// has its one entry, under its own response key and in its own place: its
/// value, or `Null` when the field failed. Its errors stand in their own
/// place too: those raised beneath it, then its own when it failed, and
/// nothing else. A field that fails changes no other entry.
pub proof fn law_each_field_leaves_its_entry(
    scope: Scope,
    depth: nat,
    introspecting: bool,
    object_type: ObjectTypeModel,
    parent: Option<ValueModel>,
    groups: Seq<(Seq<char>, Seq<FieldModel>)>,
    at: int,
    upto: int,
    trace: Seq<ResolverCall>,
)
    requires
        0 <= at < upto <= groups.len(),
        run_groups(scope, depth, introspecting, object_type, parent, groups, upto, trace) is Some,
        field_definition_for(scope, introspecting, object_type, groups[at].1[0].name) is Some,
    ensures
        run_groups(scope, depth, introspecting, object_type, parent, groups, at, trace) is Some,
        field_run_at(scope, depth, introspecting, object_type, parent, groups, at, trace)
            is Some,
        ({
            let before = run_groups(
                scope,
                depth,
                introspecting,
                object_type,
                parent,
                groups,
                at,
                trace,
            )->Some_0;
            let run = field_run_at(
                scope,
                depth,
                introspecting,
                object_type,
                parent,
                groups,
                at,
                trace,
            )->Some_0;
            let all = run_groups(
                scope,
                depth,
                introspecting,
                object_type,
                parent,
                groups,
                upto,
                trace,
            )->Some_0;
            let own = run.errors + failure(run.result);
            &&& before.entries.len() < all.entries.len()
            &&& all.entries[before.entries.len() as int] == (groups[at].0, slot(run.result))
            &&& before.errors.len() + own.len() <= all.errors.len()
            &&& all.errors.subrange(
                before.errors.len() as int,
                (before.errors.len() + own.len()) as int,
            ) == own
        }),
{
    law_earlier_fields_are_unaffected(
        scope,
        depth,
        introspecting,
        object_type,
        parent,
        groups,
        at + 1,
        upto,
        trace,
    );
    let before = run_groups(scope, depth, introspecting, object_type, parent, groups, at, trace)->Some_0;
    let after = run_groups(
        scope,
        depth,
        introspecting,
        object_type,
        parent,
        groups,
        at + 1,
        trace,
    )->Some_0;
    let run = field_run_at(scope, depth, introspecting, object_type, parent, groups, at, trace)->Some_0;
    let all = run_groups(scope, depth, introspecting, object_type, parent, groups, upto, trace)->Some_0;
    let own = run.errors + failure(run.result);
    assert(after.entries == before.entries.push((groups[at].0, slot(run.result))));
    assert(after.errors =~= before.errors + own);
    assert(all.entries.take(after.entries.len() as int)[before.entries.len() as int]
        == all.entries[before.entries.len() as int]);
    assert(all.errors.subrange(before.errors.len() as int, (before.errors.len() + own.len()) as int)
        =~= all.errors.take(after.errors.len() as int).subrange(
        before.errors.len() as int,
        (before.errors.len() + own.len()) as int,
    ));
    assert(after.errors.subrange(before.errors.len() as int, (before.errors.len() + own.len()) as int)
        =~= own);
}

/// A field declared non-null whose value completes to `Null` fails: executing
/// its group gives one `NonNullError` at the position of the first field,
/// after the errors raised beneath it, and leaves `Null`. A value that
/// completes to anything else, or fails to complete, gives what the
/// completion against the inner type gives.
pub proof fn law_non_null_field_fails(
    scope: Scope,
    depth: nat,
    introspecting: bool,
    parent: Option<ValueModel>,
    fields: Seq<FieldModel>,
    definition: FieldDefinitionModel,
    inner: TypeModel,
    trace: Seq<ResolverCall>,
)
    requires
        definition.field_type == TypeModel::NonNullType(Box::new(inner)),
        run_field(scope, depth, introspecting, parent, fields, definition, trace) is Some,
    ensures
        ({
            let run = run_field(scope, depth, introspecting, parent, fields, definition, trace)->Some_0;
            let coerced = coerce_arguments(
                scope.active(introspecting),
                definition.arguments,
                definition.arguments.len() as int,
                fields[0],
            );
            coerced is Ok ==> {
                let resolved = resolve(
                    scope,
                    introspecting,
                    parent,
                    fields[0],
                    definition,
                    definition.field_type,
                    coerced->Ok_0,
                    trace,
                )->Some_0;
                resolved.result is Ok ==> {
                    let completed = complete(
                        scope,
                        depth,
                        introspecting,
                        fields[0],
                        inner,
                        fields,
                        resolved.result->Ok_0,
                        resolved.rest,
                    );
                    &&& completed is Some
                    &&& completed->Some_0.result == Ok::<ValueModel, ErrorModel>(ValueModel::Null)
                        ==> run.result == Err::<ValueModel, ErrorModel>(
                        ErrorModel::NonNullError(fields[0].position, fields[0].name),
                    )
                    &&& !(completed->Some_0.result == Ok::<ValueModel, ErrorModel>(
                        ValueModel::Null,
                    )) ==> run == completed->Some_0
                    &&& run.errors == completed->Some_0.errors
                    &&& run.rest == completed->Some_0.rest
                    &&& slot(run.result) == slot(completed->Some_0.result)
                }
            }
        }),
{
}

/// Fields that the object type does not define leave nothing: where none of
/// the groups has a definition, the response has no entry, no error is raised
/// and no resolver is asked.
pub proof fn law_undeclared_fields_are_dropped(
    scope: Scope,
    depth: nat,
    introspecting: bool,
    object_type: ObjectTypeModel,
    parent: Option<ValueModel>,
    groups: Seq<(Seq<char>, Seq<FieldModel>)>,
    upto: int,
    trace: Seq<ResolverCall>,
)
    requires
        0 <= upto <= groups.len(),
        forall|i: int|
            0 <= i < upto ==> field_definition_for(
                scope,
                introspecting,
                object_type,
                (#[trigger] groups[i]).1[0].name,
            ) is None,
    ensures
        run_groups(scope, depth, introspecting, object_type, parent, groups, upto, trace) == Some(
            GroupsRun { entries: Seq::empty(), errors: Seq::empty(), rest: trace },
        ),
    decreases upto,
{
    if upto > 0 {
        law_undeclared_fields_are_dropped(
            scope,
            depth,
            introspecting,
            object_type,
            parent,
            groups,
            upto - 1,
            trace,
        );
        assert(field_definition_for(scope, introspecting, object_type, groups[upto - 1].1[0].name)
            is None);
    }
}

/// A selection set of which no collected field is defined on the object type
/// gives the empty object: no entry, no error, and no resolver is asked.
pub proof fn law_selection_of_undeclared_fields_is_empty(
    scope: Scope,
    depth: nat,
    introspecting: bool,
    selections: Seq<SelectionModel>,
    object_type: ObjectTypeModel,
    parent: Option<ValueModel>,
    trace: Seq<ResolverCall>,
)
    requires
        collect(
            scope.document,
            scope.active(introspecting),
            object_type,
            selections,
            selections.len() as int,
            Seq::empty(),
        ) is Ok,
        ({
            let groups = collect(
                scope.document,
                scope.active(introspecting),
                object_type,
                selections,
                selections.len() as int,
                Seq::empty(),
            )->Ok_0.groups;
            forall|i: int|
                0 <= i < groups.len() ==> field_definition_for(
                    scope,
                    introspecting,
                    object_type,
                    (#[trigger] groups[i]).1[0].name,
                ) is None
        }),
    ensures
        run_selection_set(scope, depth, introspecting, selections, object_type, parent, trace)
            == Some(
            SetRun { value: ValueModel::Object(Seq::empty()), errors: Seq::empty(), rest: trace },
        ),
{
    let groups = collect(
        scope.document,
        scope.active(introspecting),
        object_type,
        selections,
        selections.len() as int,
        Seq::empty(),
    )->Ok_0.groups;
    law_undeclared_fields_are_dropped(
        scope,
        depth,
        introspecting,
        object_type,
        parent,
        groups,
        groups.len() as int,
        trace,
    );
}

/// The names of the fragments visited in a collection stay visited: what was
/// added up to a selection is the start of what is added up to any later one.
pub proof fn law_visited_fragments_stay_visited(
    document: DocumentModel,
    schema: SchemaModel,
    object_type: ObjectTypeModel,
    selections: Seq<SelectionModel>,
    upto: int,
    visited: Seq<Seq<char>>,
)
    requires
        0 < upto <= selections.len(),
        collect(document, schema, object_type, selections, upto, visited) is Ok,
    ensures
        collect(document, schema, object_type, selections, upto - 1, visited) is Ok,
        ({
            let before = collect(document, schema, object_type, selections, upto - 1, visited)->Ok_0.added;
            let after = collect(document, schema, object_type, selections, upto, visited)->Ok_0.added;
            before.len() <= after.len() && after.take(before.len() as int) == before
        }),
{
    let before = collect(document, schema, object_type, selections, upto - 1, visited)->Ok_0.added;
    let after = collect(document, schema, object_type, selections, upto, visited)->Ok_0.added;
    assert(after.take(before.len() as int) =~= before);
}

/// A group keeps its start: the fields grouped under a key up to a selection
/// are the first fields of the group at any later selection.
pub proof fn law_groups_keep_their_start(
    document: DocumentModel,
    schema: SchemaModel,
    object_type: ObjectTypeModel,
    selections: Seq<SelectionModel>,
    earlier: int,
    upto: int,
    visited: Seq<Seq<char>>,
    key: Seq<char>,
)
    requires
        0 <= earlier <= upto <= selections.len(),
        collect(document, schema, object_type, selections, upto, visited) is Ok,
    ensures
        collect(document, schema, object_type, selections, earlier, visited) is Ok,
        starts(
            group_of(
                collect(document, schema, object_type, selections, upto, visited)->Ok_0.groups,
                key,
            ),
            group_of(
                collect(document, schema, object_type, selections, earlier, visited)->Ok_0.groups,
                key,
            ),
        ),
    decreases upto - earlier,
{
    let last = group_of(
        collect(document, schema, object_type, selections, upto, visited)->Ok_0.groups,
        key,
    );
    if earlier < upto {
        law_groups_have_distinct_keys_and_grow(
            document,
            schema,
            object_type,
            selections,
            upto,
            visited,
            key,
        );
        law_groups_keep_their_start(
            document,
            schema,
            object_type,
            selections,
            earlier,
            upto - 1,
            visited,
            key,
        );
        let first = group_of(
            collect(document, schema, object_type, selections, earlier, visited)->Ok_0.groups,
            key,
        );
        let middle = group_of(
            collect(document, schema, object_type, selections, upto - 1, visited)->Ok_0.groups,
            key,
        );
        assert(last.take(first.len() as int) =~= middle.take(first.len() as int));
    } else {
        assert(last.take(last.len() as int) =~= last);
    }
}

/// Of two sibling fields with one response key, the first leads the group:
/// where no field had the key before it, the group starts with it, and the
/// second stands in the same group after it.
pub proof fn law_first_sibling_leads_its_group(
    document: DocumentModel,
    schema: SchemaModel,
    object_type: ObjectTypeModel,
    selections: Seq<SelectionModel>,
    first: int,
    second: int,
    upto: int,
    visited: Seq<Seq<char>>,
)
    requires
        0 <= first < second < upto <= selections.len(),
        selections[first] is Field,
        selections[first].considered(),
        selections[second] is Field,
        selections[second].considered(),
        selections[first]->Field_0.response_key() == selections[second]->Field_0.response_key(),
        collect(document, schema, object_type, selections, upto, visited) is Ok,
        collect(document, schema, object_type, selections, first, visited) is Ok ==> group_of(
            collect(document, schema, object_type, selections, first, visited)->Ok_0.groups,
            selections[first]->Field_0.response_key(),
        ).len() == 0,
    ensures
        ({
            let group = group_of(
                collect(document, schema, object_type, selections, upto, visited)->Ok_0.groups,
                selections[first]->Field_0.response_key(),
            );
            let place = group_of(
                collect(document, schema, object_type, selections, second, visited)->Ok_0.groups,
                selections[first]->Field_0.response_key(),
            ).len() as int;
            &&& 1 <= place < group.len()
            &&& group[0] == selections[first]->Field_0
            &&& group[place] == selections[second]->Field_0
        }),
{
    let key = selections[first]->Field_0.response_key();
    law_groups_keep_their_start(document, schema, object_type, selections, second + 1, upto, visited, key);
    law_groups_keep_their_start(document, schema, object_type, selections, first + 1, second, visited, key);
    law_groups_keep_their_start(document, schema, object_type, selections, first, first + 1, visited, key);
    law_field_joins_its_group(document, schema, object_type, selections, first + 1, visited);
    law_field_joins_its_group(document, schema, object_type, selections, second + 1, visited);
    let g0 = group_of(
        collect(document, schema, object_type, selections, first, visited)->Ok_0.groups,
        key,
    );
    let g1 = group_of(
        collect(document, schema, object_type, selections, first + 1, visited)->Ok_0.groups,
        key,
    );
    let g2 = group_of(
        collect(document, schema, object_type, selections, second, visited)->Ok_0.groups,
        key,
    );
    let g3 = group_of(
        collect(document, schema, object_type, selections, second + 1, visited)->Ok_0.groups,
        key,
    );
    let g4 = group_of(
        collect(document, schema, object_type, selections, upto, visited)->Ok_0.groups,
        key,
    );
    assert(g1 == g0.push(selections[first]->Field_0));
    assert(g1[0] == selections[first]->Field_0);
    assert(g2.take(g1.len() as int)[0] == g2[0]);
    assert(g3 == g2.push(selections[second]->Field_0));
    assert(g3[g2.len() as int] == selections[second]->Field_0);
    assert(g4.take(g3.len() as int)[0] == g4[0]);
    assert(g4.take(g3.len() as int)[g2.len() as int] == g4[g2.len() as int]);
}

/// What the first groups give depends on those groups alone.
pub proof fn lemma_groups_of_start(
    scope: Scope,
    depth: nat,
    introspecting: bool,
    object_type: ObjectTypeModel,
    parent: Option<ValueModel>,
    groups: Seq<(Seq<char>, Seq<FieldModel>)>,
    others: Seq<(Seq<char>, Seq<FieldModel>)>,
    upto: int,
    trace: Seq<ResolverCall>,
)
    requires
        0 <= upto <= groups.len(),
        upto <= others.len(),
        forall|i: int| 0 <= i < upto ==> groups[i] == others[i],
    ensures
        run_groups(scope, depth, introspecting, object_type, parent, groups, upto, trace)
            == run_groups(scope, depth, introspecting, object_type, parent, others, upto, trace),
    decreases upto,
{
    if upto > 0 {
        lemma_groups_of_start(
            scope,
            depth,
            introspecting,
            object_type,
            parent,
            groups,
            others,
            upto - 1,
            trace,
        );
    }
}

/// A field that fails before anything is asked leaves its siblings as they
/// would be without it: the other entries, the other errors and the calls are
/// those of the groups without this one. What the field adds is `Null` under
/// its key, in its place, and its one error, in its place.
#[verifier::rlimit(60)]
pub proof fn law_unasked_failure_leaves_siblings(
    scope: Scope,
    depth: nat,
    introspecting: bool,
    object_type: ObjectTypeModel,
    parent: Option<ValueModel>,
    groups: Seq<(Seq<char>, Seq<FieldModel>)>,
    at: int,
    upto: int,
    trace: Seq<ResolverCall>,
    e: ErrorModel,
)
    requires
        0 <= at < upto <= groups.len(),
        run_groups(scope, depth, introspecting, object_type, parent, groups, at, trace) is Some,
        field_run_at(scope, depth, introspecting, object_type, parent, groups, at, trace) == Some(
            FieldRun {
                result: Err(e),
                errors: Seq::empty(),
                rest: run_groups(
                    scope,
                    depth,
                    introspecting,
                    object_type,
                    parent,
                    groups,
                    at,
                    trace,
                )->Some_0.rest,
            },
        ),
    ensures
        ({
            let before = run_groups(
                scope,
                depth,
                introspecting,
                object_type,
                parent,
                groups,
                at,
                trace,
            )->Some_0;
            let with = run_groups(
                scope,
                depth,
                introspecting,
                object_type,
                parent,
                groups,
                upto,
                trace,
            );
            let without = run_groups(
                scope,
                depth,
                introspecting,
                object_type,
                parent,
                groups.remove(at),
                upto - 1,
                trace,
            );
            match without {
                Some(other) => with == Some(
                    GroupsRun {
                        entries: other.entries.insert(
                            before.entries.len() as int,
                            (groups[at].0, ValueModel::Null),
                        ),
                        errors: other.errors.insert(before.errors.len() as int, e),
                        rest: other.rest,
                    },
                ) && before.entries.len() <= other.entries.len() && before.errors.len()
                    <= other.errors.len(),
                None => with is None,
            }
        }),
    decreases upto,
{
    let rest = groups.remove(at);
    let before = run_groups(scope, depth, introspecting, object_type, parent, groups, at, trace)->Some_0;
    if upto == at + 1 {
        lemma_groups_of_start(
            scope,
            depth,
            introspecting,
            object_type,
            parent,
            groups,
            rest,
            at,
            trace,
        );
        assert(before.entries.insert(before.entries.len() as int, (groups[at].0, ValueModel::Null))
            =~= before.entries.push((groups[at].0, ValueModel::Null)));
        assert(before.errors.insert(before.errors.len() as int, e) =~= before.errors
            + Seq::<ErrorModel>::empty() + seq![e]);
    } else {
        law_unasked_failure_leaves_siblings(
            scope,
            depth,
            introspecting,
            object_type,
            parent,
            groups,
            at,
            upto - 1,
            trace,
            e,
        );
        assert(rest[upto - 2] == groups[upto - 1]);
        let without = run_groups(
            scope,
            depth,
            introspecting,
            object_type,
            parent,
            rest,
            upto - 2,
            trace,
        );
        match without {
            Some(other) => {
                let p = before.entries.len() as int;
                let q = before.errors.len() as int;
                let group = groups[upto - 1];
                match field_definition_for(scope, introspecting, object_type, group.1[0].name) {
                    None => {},
                    Some((definition, under_meta)) => {
                        match run_field(
                            scope,
                            depth,
                            under_meta,
                            parent,
                            group.1,
                            definition,
                            other.rest,
                        ) {
                            None => {},
                            Some(run) => {
                                let entry = (group.0, slot(run.result));
                                let more = run.errors + failure(run.result);
                                assert(other.entries.insert(p, (groups[at].0, ValueModel::Null)).push(
                                    entry,
                                ) =~= other.entries.push(entry).insert(
                                    p,
                                    (groups[at].0, ValueModel::Null),
                                ));
                                assert(other.errors.insert(q, e) + run.errors + failure(run.result)
                                    =~= (other.errors + run.errors + failure(run.result)).insert(
                                    q,
                                    e,
                                ));
                            },
                        }
                    },
                }
            },
            None => {},
        }
    }
}

/// Whether the spread of the fragment named `name` can add nothing for an
/// object of type `object_type`: the document does not define the fragment,
/// or the fragment does not apply to the type.
pub open spec fn adds_nothing(
    document: DocumentModel,
    schema: SchemaModel,
    object_type: ObjectTypeModel,
    name: Seq<char>,
) -> bool {
    match document.fragment(name) {
        Some(fragment) => !type_applies(schema, object_type, fragment.type_condition),
        None => true,
    }
}

/// Whether two lists of names hold the same names, `name` apart.
pub open spec fn same_but(a: Seq<Seq<char>>, b: Seq<Seq<char>>, name: Seq<char>) -> bool {
    forall|x: Seq<char>| x != name ==> (a.contains(x) <==> b.contains(x))
}

/// Whether two collections gave the same groups, or the same error, and
/// visited the same fragments, `name` apart.
pub open spec fn same_groups(
    one: Result<Collected, ErrorModel>,
    visited_one: Seq<Seq<char>>,
    other: Result<Collected, ErrorModel>,
    visited_other: Seq<Seq<char>>,
    name: Seq<char>,
) -> bool {
    match (one, other) {
        (Ok(a), Ok(b)) => a.groups == b.groups && same_but(
            visited_one + a.added,
            visited_other + b.added,
            name,
        ),
        (Err(e), Err(f)) => e == f,
        _ => false,
    }
}

/// What a list of names contains after names were added to it.
pub proof fn lemma_contains_more(a: Seq<Seq<char>>, b: Seq<Seq<char>>, y: Seq<char>)
    ensures
        forall|x: Seq<char>| (a + b).contains(x) <==> a.contains(x) || b.contains(x),
        forall|x: Seq<char>| a.push(y).contains(x) <==> a.contains(x) || x == y,
{
    assert forall|x: Seq<char>| (a + b).contains(x) <==> a.contains(x) || b.contains(x) by {
        if (a + b).contains(x) {
            let i = choose|i: int| 0 <= i < (a + b).len() && (a + b)[i] == x;
            if i < a.len() {
                assert(a[i] == x);
            } else {
                assert(b[i - a.len()] == x);
            }
        }
        if a.contains(x) {
            let i = choose|i: int| 0 <= i < a.len() && a[i] == x;
            assert((a + b)[i] == x);
        }
        if b.contains(x) {
            let i = choose|i: int| 0 <= i < b.len() && b[i] == x;
            assert((a + b)[a.len() + i] == x);
        }
    }
    assert forall|x: Seq<char>| a.push(y).contains(x) <==> a.contains(x) || x == y by {
        if a.push(y).contains(x) {
            let i = choose|i: int| 0 <= i < a.push(y).len() && a.push(y)[i] == x;
            if i < a.len() {
                assert(a[i] == x);
            }
        }
        if a.contains(x) {
            let i = choose|i: int| 0 <= i < a.len() && a[i] == x;
            assert(a.push(y)[i] == x);
        }
        assert(a.push(y)[a.len() as int] == y);
    }
}

/// Two lists with the same names, `name` apart, still have the same names,
/// `name` apart, when one name is added to both or `name` to either.
pub proof fn lemma_same_but_more(
    a: Seq<Seq<char>>,
    b: Seq<Seq<char>>,
    x: Seq<char>,
    name: Seq<char>,
)
    requires
        same_but(a, b, name),
    ensures
        same_but(a.push(x), b.push(x), name),
        same_but(a.push(name), b, name),
        same_but(a, b.push(name), name),
{
    lemma_contains_more(a, Seq::empty(), x);
    lemma_contains_more(b, Seq::empty(), x);
    lemma_contains_more(a, Seq::empty(), name);
    lemma_contains_more(b, Seq::empty(), name);
    assert forall|z: Seq<char>| z != name implies (a.push(x).contains(z) <==> b.push(x).contains(
        z,
    )) by {
        assert(a.contains(z) <==> b.contains(z));
    }
    assert forall|z: Seq<char>| z != name implies (a.push(name).contains(z) <==> b.contains(
        z,
    )) by {
        assert(a.contains(z) <==> b.contains(z));
    }
    assert forall|z: Seq<char>| z != name implies (a.contains(z) <==> b.push(name).contains(
        z,
    )) by {
        assert(a.contains(z) <==> b.contains(z));
    }
}

/// One more selection keeps two collections alike, where the collections
/// before it were alike and the selection is the same.
pub proof fn lemma_same_groups_step(
    document: DocumentModel,
    schema: SchemaModel,
    object_type: ObjectTypeModel,
    one: Seq<SelectionModel>,
    upto_one: int,
    visited_one: Seq<Seq<char>>,
    other: Seq<SelectionModel>,
    upto_other: int,
    visited_other: Seq<Seq<char>>,
    name: Seq<char>,
)
    requires
        adds_nothing(document, schema, object_type, name),
        0 < upto_one <= one.len(),
        0 < upto_other <= other.len(),
        one[upto_one - 1] == other[upto_other - 1],
        same_groups(
            collect(document, schema, object_type, one, upto_one - 1, visited_one),
            visited_one,
            collect(document, schema, object_type, other, upto_other - 1, visited_other),
            visited_other,
            name,
        ),
    ensures
        same_groups(
            collect(document, schema, object_type, one, upto_one, visited_one),
            visited_one,
            collect(document, schema, object_type, other, upto_other, visited_other),
            visited_other,
            name,
        ),
    decreases unvisited_count(document.fragments, visited_one), upto_one, 0int,
{
    let before_one = collect(document, schema, object_type, one, upto_one - 1, visited_one);
    let before_other = collect(document, schema, object_type, other, upto_other - 1, visited_other);
    let selection = one[upto_one - 1];
    if before_one is Ok && selection.considered() {
        let a = before_one->Ok_0;
        let b = before_other->Ok_0;
        match selection {
            SelectionModel::FragmentSpread(spread) => {
                let x = spread.fragment_name;
                let seen_one = visited_one + a.added;
                let seen_other = visited_other + b.added;
                lemma_same_but_more(seen_one, seen_other, x, name);
                assert(visited_one + a.added.push(x) =~= seen_one.push(x));
                assert(visited_other + b.added.push(x) =~= seen_other.push(x));
                if x != name {
                    assert(seen_one.contains(x) <==> seen_other.contains(x));
                }
                if x != name && !seen_one.contains(x) {
                    match document.fragment(x) {
                        Some(fragment) => {
                            if type_applies(schema, object_type, fragment.type_condition) {
                                let items = fragment.selection_set.items;
                                lemma_spread_decreases(document, visited_one, a.added, x);
                                lemma_same_groups(
                                    document,
                                    schema,
                                    object_type,
                                    items,
                                    items.len() as int,
                                    seen_one.push(x),
                                    seen_other.push(x),
                                    name,
                                );
                                let inner_one = collect(
                                    document,
                                    schema,
                                    object_type,
                                    items,
                                    items.len() as int,
                                    seen_one.push(x),
                                );
                                let inner_other = collect(
                                    document,
                                    schema,
                                    object_type,
                                    items,
                                    items.len() as int,
                                    seen_other.push(x),
                                );
                                if inner_one is Ok {
                                    assert(visited_one + (a.added.push(x) + inner_one->Ok_0.added)
                                        =~= seen_one.push(x) + inner_one->Ok_0.added);
                                    assert(visited_other + (b.added.push(x)
                                        + inner_other->Ok_0.added) =~= seen_other.push(x)
                                        + inner_other->Ok_0.added);
                                }
                            }
                        },
                        None => {},
                    }
                }
            },
            _ => {},
        }
    }
}

/// What is collected does not depend on whether a fragment that can add
/// nothing counts as visited.
pub proof fn lemma_same_groups(
    document: DocumentModel,
    schema: SchemaModel,
    object_type: ObjectTypeModel,
    selections: Seq<SelectionModel>,
    upto: int,
    visited_one: Seq<Seq<char>>,
    visited_other: Seq<Seq<char>>,
    name: Seq<char>,
)
    requires
        adds_nothing(document, schema, object_type, name),
        0 <= upto <= selections.len(),
        same_but(visited_one, visited_other, name),
    ensures
        same_groups(
            collect(document, schema, object_type, selections, upto, visited_one),
            visited_one,
            collect(document, schema, object_type, selections, upto, visited_other),
            visited_other,
            name,
        ),
    decreases unvisited_count(document.fragments, visited_one), upto, 1int,
{
    if upto > 0 {
        lemma_same_groups(
            document,
            schema,
            object_type,
            selections,
            upto - 1,
            visited_one,
            visited_other,
            name,
        );
        lemma_same_groups_step(
            document,
            schema,
            object_type,
            selections,
            upto,
            visited_one,
            selections,
            upto,
            visited_other,
            name,
        );
    } else {
        assert(visited_one + Seq::<Seq<char>>::empty() =~= visited_one);
        assert(visited_other + Seq::<Seq<char>>::empty() =~= visited_other);
    }
}

/// What is collected from the first selections depends on those selections
/// alone.
pub proof fn lemma_collect_same_start(
    document: DocumentModel,
    schema: SchemaModel,
    object_type: ObjectTypeModel,
    one: Seq<SelectionModel>,
    other: Seq<SelectionModel>,
    upto: int,
    visited: Seq<Seq<char>>,
)
    requires
        0 <= upto <= one.len(),
        upto <= other.len(),
        forall|i: int| 0 <= i < upto ==> one[i] == other[i],
    ensures
        collect(document, schema, object_type, one, upto, visited) == collect(
            document,
            schema,
            object_type,
            other,
            upto,
            visited,
        ),
    decreases upto,
{
    if upto > 0 {
        lemma_collect_same_start(document, schema, object_type, one, other, upto - 1, visited);
    }
}

/// The spread of a fragment that does not apply to the object type, or that
/// the document does not define, adds no field wherever it stands: what is
/// collected with the spread has the groups of what is collected without it.
pub proof fn law_unmatched_fragment_adds_nothing_anywhere(
    document: DocumentModel,
    schema: SchemaModel,
    object_type: ObjectTypeModel,
    selections: Seq<SelectionModel>,
    at: int,
    upto: int,
    visited: Seq<Seq<char>>,
)
    requires
        0 <= at < upto <= selections.len(),
        selections[at] is FragmentSpread,
        adds_nothing(
            document,
            schema,
            object_type,
            selections[at]->FragmentSpread_0.fragment_name,
        ),
    ensures
        same_groups(
            collect(document, schema, object_type, selections, upto, visited),
            visited,
            collect(document, schema, object_type, selections.remove(at), upto - 1, visited),
            visited,
            selections[at]->FragmentSpread_0.fragment_name,
        ),
    decreases upto,
{
    let name = selections[at]->FragmentSpread_0.fragment_name;
    let without = selections.remove(at);
    if upto == at + 1 {
        lemma_collect_same_start(document, schema, object_type, selections, without, at, visited);
        let before = collect(document, schema, object_type, selections, at, visited);
        if before is Ok {
            let seen = visited + before->Ok_0.added;
            assert(same_but(seen, seen, name));
            lemma_same_but_more(seen, seen, name, name);
            assert(visited + before->Ok_0.added.push(name) =~= seen.push(name));
        }
    } else {
        law_unmatched_fragment_adds_nothing_anywhere(
            document,
            schema,
            object_type,
            selections,
            at,
            upto - 1,
            visited,
        );
        assert(selections[upto - 1] == without[upto - 2]);
        lemma_same_groups_step(
            document,
            schema,
            object_type,
            selections,
            upto,
            visited,
            without,
            upto - 1,
            visited,
            name,
        );
    }
}

/// The spread of a fragment that does not apply to the object type changes
/// nothing wherever it stands: the selection set gives the same response,
/// raises the same errors and makes the same calls as the selection set
/// without the spread.
pub proof fn law_unmatched_fragment_changes_nothing_anywhere(
    scope: Scope,
    depth: nat,
    introspecting: bool,
    selections: Seq<SelectionModel>,
    at: int,
    object_type: ObjectTypeModel,
    parent: Option<ValueModel>,
    trace: Seq<ResolverCall>,
)
    requires
        0 <= at < selections.len(),
        selections[at] is FragmentSpread,
        adds_nothing(
            scope.document,
            scope.active(introspecting),
            object_type,
            selections[at]->FragmentSpread_0.fragment_name,
        ),
    ensures
        run_selection_set(scope, depth, introspecting, selections, object_type, parent, trace)
            == run_selection_set(
            scope,
            depth,
            introspecting,
            selections.remove(at),
            object_type,
            parent,
            trace,
        ),
{
    law_unmatched_fragment_adds_nothing_anywhere(
        scope.document,
        scope.active(introspecting),
        object_type,
        selections,
        at,
        selections.len() as int,
        Seq::empty(),
    );
}

/// Putting a value under a name keeps the names distinct.
pub proof fn lemma_upsert_distinct(
    entries: Seq<(Seq<char>, ValueModel)>,
    key: Seq<char>,
    value: ValueModel,
)
    requires
        entries_distinct(entries),
    ensures
        entries_distinct(upsert(entries, key, value)),
{
    let after = upsert(entries, key, value);
    lemma_first_match(entries, entry_keyed(key));
    let at = first_match(entries, entry_keyed(key));
    assert forall|i: int, j: int| 0 <= i < j < after.len() implies (#[trigger] after[i]).0 != (
    #[trigger] after[j]).0 by {
        if at < entries.len() {
            assert(after[i].0 == entries[i].0);
            assert(after[j].0 == entries[j].0);
        } else {
            assert(after[i] == entries[i]);
            if j < entries.len() {
                assert(after[j] == entries[j]);
            } else {
                assert(!entry_keyed(key)(entries[i]));
            }
        }
    }
}

/// The coerced arguments of a field hold no name twice.
pub proof fn law_coerced_arguments_have_distinct_names(
    schema: SchemaModel,
    definitions: Seq<InputValueModel>,
    upto: int,
    field: FieldModel,
)
    requires
        0 <= upto <= definitions.len(),
        coerce_arguments(schema, definitions, upto, field) is Ok,
    ensures
        entries_distinct(coerce_arguments(schema, definitions, upto, field)->Ok_0),
    decreases upto,
{
    if upto > 0 {
        law_coerced_arguments_have_distinct_names(schema, definitions, upto - 1, field);
        let before = coerce_arguments(schema, definitions, upto - 1, field)->Ok_0;
        let definition = definitions[upto - 1];
        match entry_value(field.arguments, definition.name) {
            Some(literal) => {
                match coerce(schema, literal, definition.value_type) {
                    Some(coerced) => {
                        lemma_upsert_distinct(before, definition.name, coerced);
                    },
                    None => {},
                }
            },
            None => {
                match definition.default_value {
                    Some(default) => {
                        lemma_upsert_distinct(before, definition.name, default);
                    },
                    None => {},
                }
            },
        }
    }
}

/// A fragment is visited once in a collection: where no name stood twice
/// among the fragments visited before, none stands twice among those visited
/// before and in the course of the collection.
pub proof fn law_fragments_are_visited_once(
    document: DocumentModel,
    schema: SchemaModel,
    object_type: ObjectTypeModel,
    selections: Seq<SelectionModel>,
    upto: int,
    visited: Seq<Seq<char>>,
)
    requires
        0 <= upto <= selections.len(),
        visited.no_duplicates(),
        collect(document, schema, object_type, selections, upto, visited) is Ok,
    ensures
        (visited + collect(
            document,
            schema,
            object_type,
            selections,
            upto,
            visited,
        )->Ok_0.added).no_duplicates(),
    decreases unvisited_count(document.fragments, visited), upto,
{
    if upto > 0 {
        law_fragments_are_visited_once(document, schema, object_type, selections, upto - 1, visited);
        let before = collect(document, schema, object_type, selections, upto - 1, visited)->Ok_0;
        let seen = visited + before.added;
        let selection = selections[upto - 1];
        if selection.considered() {
            match selection {
                SelectionModel::FragmentSpread(spread) => {
                    let name = spread.fragment_name;
                    if !seen.contains(name) {
                        assert(visited + before.added.push(name) =~= seen.push(name));
                        assert(seen.push(name).no_duplicates()) by {
                            assert forall|i: int, j: int|
                                0 <= i < seen.push(name).len() && 0 <= j < seen.push(name).len()
                                    && i != j implies seen.push(name)[i] != seen.push(name)[j] by {
                                if i < seen.len() && j < seen.len() {
                                    assert(seen[i] != seen[j]);
                                } else if i < seen.len() {
                                    assert(seen.contains(seen[i]));
                                } else {
                                    assert(seen.contains(seen[j]));
                                }
                            }
                        }
                        match document.fragment(name) {
                            Some(fragment) => {
                                if type_applies(schema, object_type, fragment.type_condition) {
                                    let items = fragment.selection_set.items;
                                    lemma_spread_decreases(document, visited, before.added, name);
                                    law_fragments_are_visited_once(
                                        document,
                                        schema,
                                        object_type,
                                        items,
                                        items.len() as int,
                                        seen.push(name),
                                    );
                                    let inner = collect(
                                        document,
                                        schema,
                                        object_type,
                                        items,
                                        items.len() as int,
                                        seen.push(name),
                                    )->Ok_0;
                                    assert(visited + (before.added.push(name) + inner.added)
                                        =~= seen.push(name) + inner.added);
                                }
                            },
                            None => {},
                        }
                    }
                },
                _ => {},
            }
        }
    } else {
        assert(visited + Seq::<Seq<char>>::empty() =~= visited);
    }
}

/// A non-null argument without a default for which the field gives no literal
/// fails the field before anything is asked: the outcome is one
/// `MissingArgumentError` at the field's position, nothing is raised beneath
/// the field and the trace is left as it was.
pub proof fn law_missing_argument_fails_field(
    scope: Scope,
    depth: nat,
    introspecting: bool,
    parent: Option<ValueModel>,
    fields: Seq<FieldModel>,
    definition: FieldDefinitionModel,
    at: int,
    trace: Seq<ResolverCall>,
)
    requires
        0 <= at < definition.arguments.len(),
        definition.arguments[at].value_type is NonNullType,
        definition.arguments[at].default_value is None,
        entry_value(fields[0].arguments, definition.arguments[at].name) is None,
        coerce_arguments(scope.active(introspecting), definition.arguments, at, fields[0]) is Ok,
    ensures
        run_field(scope, depth, introspecting, parent, fields, definition, trace) == Some(
            FieldRun {
                result: Err(
                    ErrorModel::MissingArgumentError(
                        fields[0].position,
                        definition.arguments[at].name,
                    ),
                ),
                errors: Seq::empty(),
                rest: trace,
            },
        ),
{
    let schema = scope.active(introspecting);
    assert(coerce_arguments(schema, definition.arguments, at + 1, fields[0]) == Err::<
        Seq<(Seq<char>, ValueModel)>,
        ErrorModel,
    >(ErrorModel::MissingArgumentError(fields[0].position, definition.arguments[at].name)));
    lemma_coercion_stops(schema, definition.arguments, at + 1, fields[0]);
}

/// The value found under a name once an entry was added at the end: what was
/// found before, or the added value where nothing was found and the names
/// agree.
pub proof fn lemma_entry_value_push(
    entries: Seq<(Seq<char>, ValueModel)>,
    name: Seq<char>,
    value: ValueModel,
    key: Seq<char>,
)
    ensures
        entry_value(entries.push((name, value)), key) == (if entry_value(entries, key) is Some {
            entry_value(entries, key)
        } else if key == name {
            Some(value)
        } else {
            None
        }),
{
    let longer = entries.push((name, value));
    lemma_first_match(entries, entry_keyed(key));
    let at = first_match(entries, entry_keyed(key));
    if at < entries.len() {
        assert forall|j: int| 0 <= j < at implies !entry_keyed(key)(#[trigger] longer[j]) by {
            assert(longer[j] == entries[j]);
        }
        assert(longer[at] == entries[at]);
        lemma_first_match_at(longer, entry_keyed(key), at);
    } else {
        assert forall|j: int| 0 <= j < entries.len() implies !entry_keyed(key)(
            #[trigger] longer[j],
        ) by {
            assert(longer[j] == entries[j]);
        }
        if key == name {
            lemma_first_match_at(longer, entry_keyed(key), entries.len() as int);
        } else {
            lemma_first_match_at(longer, entry_keyed(key), longer.len() as int);
        }
    }
}

/// `field` with one more argument after those it has.
pub open spec fn with_argument(field: FieldModel, name: Seq<char>, value: ValueModel) -> FieldModel {
    FieldModel {
        position: field.position,
        alias: field.alias,
        name: field.name,
        arguments: field.arguments.push((name, value)),
        directives: field.directives,
        selection_set: field.selection_set,
    }
}

/// Leaving out an argument that has a default gives the same coerced
/// arguments as giving the default literal explicitly.
///
/// This holds where the default literal is itself a value of the declared
/// type, one that coercion takes as it stands, and where no other argument of
/// the field definition has the same name. A default is taken without being
/// coerced, so a default that coercion would refuse separates the two.
pub proof fn law_default_as_explicit(
    schema: SchemaModel,
    definitions: Seq<InputValueModel>,
    at: int,
    field: FieldModel,
    default: ValueModel,
    upto: int,
)
    requires
        0 <= at < definitions.len(),
        0 <= upto <= definitions.len(),
        definitions[at].default_value == Some(default),
        forall|j: int|
            0 <= j < definitions.len() && j != at ==> (#[trigger] definitions[j]).name
                != definitions[at].name,
        entry_value(field.arguments, definitions[at].name) is None,
        coerce(schema, default, definitions[at].value_type) == Some(default),
        !(default is Variable),
    ensures
        coerce_arguments(
            schema,
            definitions,
            upto,
            with_argument(field, definitions[at].name, default),
        ) == coerce_arguments(schema, definitions, upto, field),
    decreases upto,
{
    if upto > 0 {
        law_default_as_explicit(schema, definitions, at, field, default, upto - 1);
        let name = definitions[at].name;
        lemma_entry_value_push(field.arguments, name, default, definitions[upto - 1].name);
        if upto - 1 != at {
            assert(definitions[upto - 1].name != name);
        }
    }
}

/// Whether `rest` is what is left of `trace` once some calls were taken from
/// its front, every one of them a call of the resolver chosen by
/// `introspection`.
pub open spec fn took_only(
    trace: Seq<ResolverCall>,
    rest: Seq<ResolverCall>,
    introspection: bool,
) -> bool {
    &&& rest.len() <= trace.len()
    &&& trace.skip(trace.len() - rest.len()) == rest
    &&& forall|i: int|
        0 <= i < trace.len() - rest.len() ==> (#[trigger] trace[i]).introspection == introspection
}

/// Taking calls of one resolver and then more calls of the same resolver is
/// taking calls of that resolver.
pub proof fn lemma_took_then(
    a: Seq<ResolverCall>,
    b: Seq<ResolverCall>,
    c: Seq<ResolverCall>,
    introspection: bool,
)
    requires
        took_only(a, b, introspection),
        took_only(b, c, introspection),
    ensures
        took_only(a, c, introspection),
{
    let first = a.len() - b.len();
    let second = b.len() - c.len();
    assert(a.skip(first + second) =~= a.skip(first).skip(second));
    assert forall|i: int| 0 <= i < a.len() - c.len() implies (#[trigger] a[i]).introspection
        == introspection by {
        if i >= first {
            assert(a[i] == a.skip(first)[i - first]);
            assert(b[i - first].introspection == introspection);
        }
    }
}

/// Taking nothing is taking calls of either resolver only.
pub proof fn lemma_took_none(a: Seq<ResolverCall>, introspection: bool)
    ensures
        took_only(a, a, introspection),
{
    assert(a.skip(0) =~= a);
}

/// What `resolve_named` and `resolve_listed` take from the trace is nothing
/// or one call of the resolver in charge.
pub proof fn lemma_resolve_named_takes(
    scope: Scope,
    introspecting: bool,
    parent: Option<ValueModel>,
    field: FieldModel,
    definition: FieldDefinitionModel,
    name: Seq<char>,
    arguments: Seq<(Seq<char>, ValueModel)>,
    trace: Seq<ResolverCall>,
)
    ensures
        resolve_named(scope, introspecting, parent, field, definition, name, arguments, trace)
            is Some ==> took_only(
            trace,
            resolve_named(
                scope,
                introspecting,
                parent,
                field,
                definition,
                name,
                arguments,
                trace,
            )->Some_0.rest,
            introspecting,
        ),
        resolve_listed(scope, introspecting, parent, field, definition, name, arguments, trace)
            is Some ==> took_only(
            trace,
            resolve_listed(
                scope,
                introspecting,
                parent,
                field,
                definition,
                name,
                arguments,
                trace,
            )->Some_0.rest,
            introspecting,
        ),
{
    lemma_took_none(trace, introspecting);
}

/// What resolving a field takes from the trace is nothing or one call of the
/// resolver in charge.
pub proof fn lemma_resolve_takes(
    scope: Scope,
    introspecting: bool,
    parent: Option<ValueModel>,
    field: FieldModel,
    definition: FieldDefinitionModel,
    ty: TypeModel,
    arguments: Seq<(Seq<char>, ValueModel)>,
    trace: Seq<ResolverCall>,
)
    ensures
        resolve(scope, introspecting, parent, field, definition, ty, arguments, trace) is Some
            ==> took_only(
            trace,
            resolve(scope, introspecting, parent, field, definition, ty, arguments, trace)->Some_0.rest,
            introspecting,
        ),
        resolve_list(scope, introspecting, parent, field, definition, ty, arguments, trace)
            is Some ==> took_only(
            trace,
            resolve_list(
                scope,
                introspecting,
                parent,
                field,
                definition,
                ty,
                arguments,
                trace,
            )->Some_0.rest,
            introspecting,
        ),
    decreases ty,
{
    lemma_took_none(trace, introspecting);
    match ty {
        TypeModel::NonNullType(inner) => {
            lemma_resolve_takes(
                scope,
                introspecting,
                parent,
                field,
                definition,
                *inner,
                arguments,
                trace,
            );
        },
        TypeModel::NamedType(name) => {
            lemma_resolve_named_takes(
                scope,
                introspecting,
                parent,
                field,
                definition,
                name,
                arguments,
                trace,
            );
        },
        TypeModel::ListType(inner) => {
            lemma_resolve_takes(
                scope,
                introspecting,
                parent,
                field,
                definition,
                *inner,
                arguments,
                trace,
            );
        },
    }
}

/// Completing a value under a meta-field asks the introspection resolver
/// only.
pub proof fn lemma_complete_under_meta(
    scope: Scope,
    depth: nat,
    field: FieldModel,
    ty: TypeModel,
    fields: Seq<FieldModel>,
    value: ValueModel,
    trace: Seq<ResolverCall>,
)
    ensures
        complete(scope, depth, true, field, ty, fields, value, trace) is Some ==> took_only(
            trace,
            complete(scope, depth, true, field, ty, fields, value, trace)->Some_0.rest,
            true,
        ),
    decreases depth, 0int, 2 * type_height(ty), 0int,
{
    lemma_took_none(trace, true);
    match ty {
        TypeModel::NonNullType(inner) => {
            lemma_complete_under_meta(scope, depth, field, *inner, fields, value, trace);
        },
        TypeModel::ListType(inner) => {
            match value {
                ValueModel::List(items) => {
                    lemma_items_under_meta(
                        scope,
                        depth,
                        field,
                        *inner,
                        fields,
                        items,
                        items.len() as int,
                        trace,
                    );
                },
                _ => {},
            }
        },
        TypeModel::NamedType(name) => {
            if !(value is Null) && depth > 0 {
                let merged = merged_items(fields, fields.len() as int);
                match scope.active(true).named_type(name) {
                    Some(TypeDefinitionModel::Object(t)) => {
                        lemma_selection_set_under_meta(
                            scope,
                            (depth - 1) as nat,
                            merged,
                            t,
                            Some(value),
                            trace,
                        );
                    },
                    Some(TypeDefinitionModel::Interface(_)) | Some(
                        TypeDefinitionModel::Union(_),
                    ) => {
                        let abstract_type = scope.active(true).named_type(name)->Some_0;
                        match picked(trace, true, scope.active(true), abstract_type, value) {
                            Some((Some(t), rest)) => {
                                lemma_selection_set_under_meta(
                                    scope,
                                    (depth - 1) as nat,
                                    merged,
                                    t,
                                    Some(value),
                                    rest,
                                );
                                let run = run_selection_set(
                                    scope,
                                    (depth - 1) as nat,
                                    true,
                                    merged,
                                    t,
                                    Some(value),
                                    rest,
                                );
                                if run is Some {
                                    lemma_took_one(trace, true);
                                    lemma_took_then(trace, rest, run->Some_0.rest, true);
                                }
                            },
                            Some((None, rest)) => {
                                lemma_took_one(trace, true);
                            },
                            None => {},
                        }
                    },
                    _ => {},
                }
            } else if !(value is Null) {
                match scope.active(true).named_type(name) {
                    Some(TypeDefinitionModel::Interface(_)) | Some(
                        TypeDefinitionModel::Union(_),
                    ) => {
                        let abstract_type = scope.active(true).named_type(name)->Some_0;
                        if picked(trace, true, scope.active(true), abstract_type, value) is Some {
                            lemma_took_one(trace, true);
                        }
                    },
                    _ => {},
                }
            }
        },
    }
}

/// Taking the first call of a trace is taking a call of the resolver it was
/// made to.
pub proof fn lemma_took_one(trace: Seq<ResolverCall>, introspection: bool)
    requires
        trace.len() > 0,
        trace[0].introspection == introspection,
    ensures
        took_only(trace, trace.skip(1), introspection),
{
}

/// Completing the items of a list under a meta-field asks the introspection
/// resolver only.
pub proof fn lemma_items_under_meta(
    scope: Scope,
    depth: nat,
    field: FieldModel,
    inner: TypeModel,
    fields: Seq<FieldModel>,
    items: Seq<ValueModel>,
    upto: int,
    trace: Seq<ResolverCall>,
)
    ensures
        complete_items(scope, depth, true, field, inner, fields, items, upto, trace) is Some
            ==> took_only(
            trace,
            complete_items(scope, depth, true, field, inner, fields, items, upto, trace)->Some_0.rest,
            true,
        ),
    decreases depth, 0int, 2 * type_height(inner) + 1, upto,
{
    lemma_took_none(trace, true);
    if upto > 0 {
        lemma_items_under_meta(scope, depth, field, inner, fields, items, upto - 1, trace);
        let before = complete_items(
            scope,
            depth,
            true,
            field,
            inner,
            fields,
            items,
            upto - 1,
            trace,
        );
        if before is Some && before->Some_0.result is Ok {
            lemma_complete_under_meta(
                scope,
                depth,
                field,
                inner,
                fields,
                items[upto - 1],
                before->Some_0.rest,
            );
            let run = complete(
                scope,
                depth,
                true,
                field,
                inner,
                fields,
                items[upto - 1],
                before->Some_0.rest,
            );
            if run is Some {
                lemma_took_then(trace, before->Some_0.rest, run->Some_0.rest, true);
            }
        }
    }
}

/// Executing a field under a meta-field asks the introspection resolver only.
pub proof fn lemma_field_under_meta(
    scope: Scope,
    depth: nat,
    parent: Option<ValueModel>,
    fields: Seq<FieldModel>,
    definition: FieldDefinitionModel,
    trace: Seq<ResolverCall>,
)
    ensures
        run_field(scope, depth, true, parent, fields, definition, trace) is Some ==> took_only(
            trace,
            run_field(scope, depth, true, parent, fields, definition, trace)->Some_0.rest,
            true,
        ),
    decreases depth, 1int, 0int, 0int,
{
    lemma_took_none(trace, true);
    let field = fields[0];
    match coerce_arguments(
        scope.active(true),
        definition.arguments,
        definition.arguments.len() as int,
        field,
    ) {
        Err(_) => {},
        Ok(arguments) => {
            lemma_resolve_takes(
                scope,
                true,
                parent,
                field,
                definition,
                definition.field_type,
                arguments,
                trace,
            );
            let resolved = resolve(
                scope,
                true,
                parent,
                field,
                definition,
                definition.field_type,
                arguments,
                trace,
            );
            if resolved is Some && resolved->Some_0.result is Ok {
                let value = resolved->Some_0.result->Ok_0;
                lemma_complete_under_meta(
                    scope,
                    depth,
                    field,
                    definition.field_type,
                    fields,
                    value,
                    resolved->Some_0.rest,
                );
                let run = complete(
                    scope,
                    depth,
                    true,
                    field,
                    definition.field_type,
                    fields,
                    value,
                    resolved->Some_0.rest,
                );
                if run is Some {
                    lemma_took_then(trace, resolved->Some_0.rest, run->Some_0.rest, true);
                }
            }
        },
    }
}

/// Whether each of the first `upto` groups is a meta-field, or a field that
/// the object type does not define.
pub open spec fn only_meta_fields(
    scope: Scope,
    introspecting: bool,
    object_type: ObjectTypeModel,
    groups: Seq<(Seq<char>, Seq<FieldModel>)>,
    upto: int,
) -> bool {
    forall|i: int|
        0 <= i < upto ==> match field_definition_for(
            scope,
            introspecting,
            object_type,
            (#[trigger] groups[i]).1[0].name,
        ) {
            Some((_, under_meta)) => under_meta,
            None => true,
        }
}

/// Executing groups of which each is a meta-field asks the introspection
/// resolver only: the resolver of the data is never called.
pub proof fn law_meta_fields_ask_introspection_only(
    scope: Scope,
    depth: nat,
    introspecting: bool,
    object_type: ObjectTypeModel,
    parent: Option<ValueModel>,
    groups: Seq<(Seq<char>, Seq<FieldModel>)>,
    upto: int,
    trace: Seq<ResolverCall>,
)
    requires
        0 <= upto <= groups.len(),
        only_meta_fields(scope, introspecting, object_type, groups, upto),
    ensures
        run_groups(scope, depth, introspecting, object_type, parent, groups, upto, trace) is Some
            ==> took_only(
            trace,
            run_groups(
                scope,
                depth,
                introspecting,
                object_type,
                parent,
                groups,
                upto,
                trace,
            )->Some_0.rest,
            true,
        ),
    decreases depth, 2int, upto, 0int,
{
    lemma_took_none(trace, true);
    if upto > 0 {
        law_meta_fields_ask_introspection_only(
            scope,
            depth,
            introspecting,
            object_type,
            parent,
            groups,
            upto - 1,
            trace,
        );
        let before = run_groups(
            scope,
            depth,
            introspecting,
            object_type,
            parent,
            groups,
            upto - 1,
            trace,
        );
        let group = groups[upto - 1];
        if before is Some {
            match field_definition_for(scope, introspecting, object_type, group.1[0].name) {
                None => {},
                Some((definition, under_meta)) => {
                    assert(under_meta);
                    lemma_field_under_meta(
                        scope,
                        depth,
                        parent,
                        group.1,
                        definition,
                        before->Some_0.rest,
                    );
                    let run = run_field(
                        scope,
                        depth,
                        true,
                        parent,
                        group.1,
                        definition,
                        before->Some_0.rest,
                    );
                    if run is Some {
                        lemma_took_then(trace, before->Some_0.rest, run->Some_0.rest, true);
                    }
                },
            }
        }
    }
}

/// Executing a selection set under a meta-field asks the introspection
/// resolver only.
pub proof fn lemma_selection_set_under_meta(
    scope: Scope,
    depth: nat,
    selections: Seq<SelectionModel>,
    object_type: ObjectTypeModel,
    parent: Option<ValueModel>,
    trace: Seq<ResolverCall>,
)
    ensures
        run_selection_set(scope, depth, true, selections, object_type, parent, trace) is Some
            ==> took_only(
            trace,
            run_selection_set(scope, depth, true, selections, object_type, parent, trace)->Some_0.rest,
            true,
        ),
    decreases depth, 3int, 0int, 0int,
{
    lemma_took_none(trace, true);
    match collect(
        scope.document,
        scope.active(true),
        object_type,
        selections,
        selections.len() as int,
        Seq::empty(),
    ) {
        Err(_) => {},
        Ok(collected) => {
            let groups = collected.groups;
            assert(only_meta_fields(scope, true, object_type, groups, groups.len() as int));
            law_meta_fields_ask_introspection_only(
                scope,
                depth,
                true,
                object_type,
                parent,
                groups,
                groups.len() as int,
                trace,
            );
        },
    }
}

/// Whether no two groups have the same key.
pub open spec fn keys_distinct(groups: Seq<(Seq<char>, Seq<FieldModel>)>) -> bool {
    forall|i: int, j: int|
        0 <= i < j < groups.len() ==> (#[trigger] groups[i]).0 != (#[trigger] groups[j]).0
}

/// The fields grouped under `key`; none when no group has that key.
pub open spec fn group_of(groups: Seq<(Seq<char>, Seq<FieldModel>)>, key: Seq<char>) -> Seq<
    FieldModel,
> {
    let at = group_position(groups, key);
    if at < groups.len() {
        groups[at].1
    } else {
        Seq::empty()
    }
}

/// Adding fields under a key keeps the keys distinct, adds the fields at the
/// end of the group of that key, and leaves every other group as it was.
pub proof fn lemma_append_group(
    groups: Seq<(Seq<char>, Seq<FieldModel>)>,
    key: Seq<char>,
    fields: Seq<FieldModel>,
    other: Seq<char>,
)
    ensures
        keys_distinct(groups) ==> keys_distinct(append_group(groups, key, fields)),
        group_of(append_group(groups, key, fields), key) == group_of(groups, key) + fields,
        other != key ==> group_of(append_group(groups, key, fields), other) == group_of(
            groups,
            other,
        ),
        group_position(append_group(groups, key, fields), key) < append_group(
            groups,
            key,
            fields,
        ).len(),
{
    let after = append_group(groups, key, fields);
    let at = group_position(groups, key);
    lemma_first_match(groups, group_keyed(key));
    lemma_first_match(groups, group_keyed(other));
    let at_other = group_position(groups, other);
    if at < groups.len() {
        assert forall|j: int| 0 <= j < at implies !group_keyed(key)(#[trigger] after[j]) by {
            assert(after[j] == groups[j]);
        }
        lemma_first_match_at(after, group_keyed(key), at);
        if other != key {
            assert forall|j: int| 0 <= j < at_other implies !group_keyed(other)(
                #[trigger] after[j],
            ) by {
                if j != at {
                    assert(after[j] == groups[j]);
                }
            }
            if at_other < groups.len() {
                assert(after[at_other] == groups[at_other]);
            }
            lemma_first_match_at(after, group_keyed(other), at_other);
        }
        if keys_distinct(groups) {
            assert forall|i: int, j: int| 0 <= i < j < after.len() implies (#[trigger] after[i]).0
                != (#[trigger] after[j]).0 by {
                assert(after[i].0 == groups[i].0);
                assert(after[j].0 == groups[j].0);
            }
        }
    } else {
        assert forall|j: int| 0 <= j < groups.len() implies !group_keyed(key)(
            #[trigger] after[j],
        ) by {
            assert(after[j] == groups[j]);
        }
        lemma_first_match_at(after, group_keyed(key), groups.len() as int);
        assert(Seq::<FieldModel>::empty() + fields =~= fields);
        if other != key {
            assert forall|j: int| 0 <= j < at_other implies !group_keyed(other)(
                #[trigger] after[j],
            ) by {
                assert(after[j] == groups[j]);
            }
            if at_other < groups.len() {
                assert(after[at_other] == groups[at_other]);
                lemma_first_match_at(after, group_keyed(other), at_other);
            } else {
                lemma_first_match_at(after, group_keyed(other), after.len() as int);
            }
        }
        if keys_distinct(groups) {
            assert forall|i: int, j: int| 0 <= i < j < after.len() implies (#[trigger] after[i]).0
                != (#[trigger] after[j]).0 by {
                assert(after[i] == groups[i]);
                if j < groups.len() {
                    assert(after[j] == groups[j]);
                } else {
                    assert(!group_keyed(key)(groups[i]));
                }
            }
        }
    }
}

/// Whether `shorter` is the start of `longer`.
pub open spec fn starts(longer: Seq<FieldModel>, shorter: Seq<FieldModel>) -> bool {
    shorter.len() <= longer.len() && longer.take(shorter.len() as int) == shorter
}

/// Merging groups in keeps the keys distinct and lets every group start as it
/// did before.
pub proof fn lemma_merge_groups(
    groups: Seq<(Seq<char>, Seq<FieldModel>)>,
    more: Seq<(Seq<char>, Seq<FieldModel>)>,
    upto: int,
    key: Seq<char>,
)
    requires
        0 <= upto <= more.len(),
    ensures
        keys_distinct(groups) ==> keys_distinct(merge_groups(groups, more, upto)),
        starts(group_of(merge_groups(groups, more, upto), key), group_of(groups, key)),
    decreases upto,
{
    if upto > 0 {
        lemma_merge_groups(groups, more, upto - 1, key);
        let before = merge_groups(groups, more, upto - 1);
        lemma_append_group(before, more[upto - 1].0, more[upto - 1].1, key);
        let was = group_of(before, key);
        let now = group_of(merge_groups(groups, more, upto), key);
        let first = group_of(groups, key);
        if more[upto - 1].0 == key {
            assert(now.take(first.len() as int) =~= was.take(first.len() as int));
        }
    } else {
        assert(group_of(groups, key).take(group_of(groups, key).len() as int) =~= group_of(
            groups,
            key,
        ));
    }
}

/// No two of the groups collected from a selection set have the same response
/// key, and a group only grows at its end while further selections are
/// collected.
pub proof fn law_groups_have_distinct_keys_and_grow(
    document: DocumentModel,
    schema: SchemaModel,
    object_type: ObjectTypeModel,
    selections: Seq<SelectionModel>,
    upto: int,
    visited: Seq<Seq<char>>,
    key: Seq<char>,
)
    requires
        0 <= upto <= selections.len(),
        collect(document, schema, object_type, selections, upto, visited) is Ok,
    ensures
        keys_distinct(collect(document, schema, object_type, selections, upto, visited)->Ok_0.groups),
        upto > 0 ==> collect(document, schema, object_type, selections, upto - 1, visited) is Ok
            && starts(
            group_of(
                collect(document, schema, object_type, selections, upto, visited)->Ok_0.groups,
                key,
            ),
            group_of(
                collect(document, schema, object_type, selections, upto - 1, visited)->Ok_0.groups,
                key,
            ),
        ),
    decreases unvisited_count(document.fragments, visited), upto,
{
    if upto > 0 {
        law_groups_have_distinct_keys_and_grow(
            document,
            schema,
            object_type,
            selections,
            upto - 1,
            visited,
            key,
        );
        let groups = collect(document, schema, object_type, selections, upto - 1, visited)->Ok_0.groups;
        let was = group_of(groups, key);
        assert(was.take(was.len() as int) =~= was);
        let selection = selections[upto - 1];
        if selection.considered() {
            match selection {
                SelectionModel::Field(f) => {
                    lemma_append_group(groups, f.response_key(), seq![f], key);
                    if f.response_key() == key {
                        assert((was + seq![f]).take(was.len() as int) =~= was);
                    }
                },
                SelectionModel::InlineFragment(_) => {},
                SelectionModel::FragmentSpread(spread) => {
                    let seen = visited + collect(
                        document,
                        schema,
                        object_type,
                        selections,
                        upto - 1,
                        visited,
                    )->Ok_0.added;
                    let name = spread.fragment_name;
                    if !seen.contains(name) {
                        match document.fragment(name) {
                            Some(fragment) => {
                                if type_applies(schema, object_type, fragment.type_condition) {
                                    let items = fragment.selection_set.items;
                                    let more = collect(
                                        document,
                                        schema,
                                        object_type,
                                        items,
                                        items.len() as int,
                                        seen.push(name),
                                    )->Ok_0.groups;
                                    lemma_merge_groups(groups, more, more.len() as int, key);
                                }
                            },
                            None => {},
                        }
                    }
                },
            }
        }
    } else {
        assert(collect(document, schema, object_type, selections, upto, visited)->Ok_0.groups
            =~= Seq::empty());
    }
}

/// A field that is considered joins the group of its response key at the
/// end: the group after the field is the group before it with the field
/// added.
pub proof fn law_field_joins_its_group(
    document: DocumentModel,
    schema: SchemaModel,
    object_type: ObjectTypeModel,
    selections: Seq<SelectionModel>,
    upto: int,
    visited: Seq<Seq<char>>,
)
    requires
        0 < upto <= selections.len(),
        selections[upto - 1] is Field,
        selections[upto - 1].considered(),
        collect(document, schema, object_type, selections, upto - 1, visited) is Ok,
    ensures
        collect(document, schema, object_type, selections, upto, visited) is Ok,
        group_of(
            collect(document, schema, object_type, selections, upto, visited)->Ok_0.groups,
            selections[upto - 1]->Field_0.response_key(),
        ) == group_of(
            collect(document, schema, object_type, selections, upto - 1, visited)->Ok_0.groups,
            selections[upto - 1]->Field_0.response_key(),
        ).push(selections[upto - 1]->Field_0),
{
    let f = selections[upto - 1]->Field_0;
    let groups = collect(document, schema, object_type, selections, upto - 1, visited)->Ok_0.groups;
    lemma_append_group(groups, f.response_key(), seq![f], f.response_key());
    assert(group_of(groups, f.response_key()) + seq![f] =~= group_of(
        groups,
        f.response_key(),
    ).push(f));
}

/// Whether a request asks for the field `field` of `parent` under
/// `definition` with `arguments`.
pub open spec fn asks_for(
    request: Request,
    parent: Option<ValueModel>,
    field: FieldModel,
    definition: FieldDefinitionModel,
    arguments: Seq<(Seq<char>, ValueModel)>,
) -> bool {
    match request {
        Request::Object { parent: p, field: n, definition: d, object_type: _, arguments: a } => p
            == parent && n == field.name && d == definition && a == arguments,
        Request::Objects { parent: p, field: n, definition: d, object_type: _, arguments: a } => p
            == parent && n == field.name && d == definition && a == arguments,
        Request::EnumValue { enum_type: _, value } => sub_field(parent, field.name) == Some(value),
        Request::EnumValues { enum_type: _, value } => sub_field(parent, field.name) == Some(
            value,
        ),
        Request::ScalarValue { scalar_type: _, value } => sub_field(parent, field.name) == Some(
            value,
        ),
        Request::ScalarValues { scalar_type: _, value } => sub_field(parent, field.name) == Some(
            value,
        ),
        Request::AbstractType { .. } => false,
    }
}

/// Whether resolving took nothing from the trace, or took its first call and
/// that call asks the resolver chosen by `introspecting` for the field.
pub open spec fn asked_at_most_once(
    trace: Seq<ResolverCall>,
    rest: Seq<ResolverCall>,
    introspecting: bool,
    parent: Option<ValueModel>,
    field: FieldModel,
    definition: FieldDefinitionModel,
    arguments: Seq<(Seq<char>, ValueModel)>,
) -> bool {
    rest == trace || (trace.len() > 0 && rest == trace.skip(1) && trace[0].introspection
        == introspecting && asks_for(trace[0].request, parent, field, definition, arguments))
}

/// Resolving a field asks a resolver at most once, and what it asks for is
/// the field it was given, under the definition and with the arguments it
/// was given.
pub proof fn law_field_is_resolved_at_most_once(
    scope: Scope,
    introspecting: bool,
    parent: Option<ValueModel>,
    field: FieldModel,
    definition: FieldDefinitionModel,
    ty: TypeModel,
    arguments: Seq<(Seq<char>, ValueModel)>,
    trace: Seq<ResolverCall>,
)
    ensures
        resolve(scope, introspecting, parent, field, definition, ty, arguments, trace) is Some
            ==> asked_at_most_once(
            trace,
            resolve(scope, introspecting, parent, field, definition, ty, arguments, trace)->Some_0.rest,
            introspecting,
            parent,
            field,
            definition,
            arguments,
        ),
        resolve_list(scope, introspecting, parent, field, definition, ty, arguments, trace)
            is Some ==> asked_at_most_once(
            trace,
            resolve_list(
                scope,
                introspecting,
                parent,
                field,
                definition,
                ty,
                arguments,
                trace,
            )->Some_0.rest,
            introspecting,
            parent,
            field,
            definition,
            arguments,
        ),
    decreases ty,
{
    match ty {
        TypeModel::NonNullType(inner) => {
            law_field_is_resolved_at_most_once(
                scope,
                introspecting,
                parent,
                field,
                definition,
                *inner,
                arguments,
                trace,
            );
        },
        TypeModel::NamedType(name) => {},
        TypeModel::ListType(inner) => {
            law_field_is_resolved_at_most_once(
                scope,
                introspecting,
                parent,
                field,
                definition,
                *inner,
                arguments,
                trace,
            );
        },
    }
}

/// A field whose declared type, wrappers apart, is an object type is resolved
/// with exactly one call: the first call of the trace, made to the resolver
/// in charge.
pub proof fn law_object_field_is_resolved_exactly_once(
    scope: Scope,
    introspecting: bool,
    parent: Option<ValueModel>,
    field: FieldModel,
    definition: FieldDefinitionModel,
    name: Seq<char>,
    arguments: Seq<(Seq<char>, ValueModel)>,
    trace: Seq<ResolverCall>,
)
    requires
        scope.active(introspecting).named_type(name) is Some,
        scope.active(introspecting).named_type(name)->Some_0 is Object,
    ensures
        resolve_named(scope, introspecting, parent, field, definition, name, arguments, trace)
            is Some ==> trace.len() > 0 && trace[0].introspection == introspecting
            && resolve_named(
            scope,
            introspecting,
            parent,
            field,
            definition,
            name,
            arguments,
            trace,
        )->Some_0 == (Resolved { result: Ok(trace[0].answer->Value_0), rest: trace.skip(1) }),
        resolve_listed(scope, introspecting, parent, field, definition, name, arguments, trace)
            is Some ==> trace.len() > 0 && trace[0].introspection == introspecting
            && resolve_listed(
            scope,
            introspecting,
            parent,
            field,
            definition,
            name,
            arguments,
            trace,
        )->Some_0 == (Resolved { result: Ok(trace[0].answer->Value_0), rest: trace.skip(1) }),
{
}

/// The spread of a fragment that was visited already, before the collection
/// or anywhere in the course of it, changes nothing: a fragment is expanded at
/// most once in a collection.
pub proof fn law_visited_fragment_adds_nothing(
    document: DocumentModel,
    schema: SchemaModel,
    object_type: ObjectTypeModel,
    selections: Seq<SelectionModel>,
    upto: int,
    visited: Seq<Seq<char>>,
)
    requires
        0 < upto <= selections.len(),
        selections[upto - 1] is FragmentSpread,
        collect(document, schema, object_type, selections, upto - 1, visited) is Ok,
        (visited + collect(
            document,
            schema,
            object_type,
            selections,
            upto - 1,
            visited,
        )->Ok_0.added).contains(selections[upto - 1]->FragmentSpread_0.fragment_name),
    ensures
        collect(document, schema, object_type, selections, upto, visited) == collect(
            document,
            schema,
            object_type,
            selections,
            upto - 1,
            visited,
        ),
{
}

/// A group of fields is executed as one field: with the arguments of its
/// first field, coerced against the definition; resolved once, as the first
/// field; and completed against the declared type with all the fields of the
/// group, whose selections are merged in their order.
pub proof fn law_group_is_executed_as_its_first_field(
    scope: Scope,
    depth: nat,
    introspecting: bool,
    parent: Option<ValueModel>,
    fields: Seq<FieldModel>,
    definition: FieldDefinitionModel,
    arguments: Seq<(Seq<char>, ValueModel)>,
    trace: Seq<ResolverCall>,
)
    requires
        fields.len() >= 2,
        coerce_arguments(
            scope.active(introspecting),
            definition.arguments,
            definition.arguments.len() as int,
            fields[0],
        ) == Ok::<_, ErrorModel>(arguments),
        run_field(scope, depth, introspecting, parent, fields, definition, trace) is Some,
    ensures
        resolve(
            scope,
            introspecting,
            parent,
            fields[0],
            definition,
            definition.field_type,
            arguments,
            trace,
        ) is Some,
        asked_at_most_once(
            trace,
            resolve(
                scope,
                introspecting,
                parent,
                fields[0],
                definition,
                definition.field_type,
                arguments,
                trace,
            )->Some_0.rest,
            introspecting,
            parent,
            fields[0],
            definition,
            arguments,
        ),
        match resolve(
            scope,
            introspecting,
            parent,
            fields[0],
            definition,
            definition.field_type,
            arguments,
            trace,
        )->Some_0.result {
            Ok(value) => run_field(scope, depth, introspecting, parent, fields, definition, trace)
                == complete(
                scope,
                depth,
                introspecting,
                fields[0],
                definition.field_type,
                fields,
                value,
                resolve(
                    scope,
                    introspecting,
                    parent,
                    fields[0],
                    definition,
                    definition.field_type,
                    arguments,
                    trace,
                )->Some_0.rest,
            ),
            Err(_) => true,
        },
        merged_items(fields, 2) == fields[0].selection_set.items + fields[1].selection_set.items,
{
    law_field_is_resolved_at_most_once(
        scope,
        introspecting,
        parent,
        fields[0],
        definition,
        definition.field_type,
        arguments,
        trace,
    );
    assert(merged_items(fields, 0) =~= Seq::empty());
    assert(merged_items(fields, 1) =~= fields[0].selection_set.items);
}

/// A query whose fields are all meta-fields never reaches the resolver of the
/// data: every call that its execution makes is a call of the introspection
/// resolver.
pub proof fn law_meta_query_asks_introspection_only(
    scope: Scope,
    depth: nat,
    selections: Seq<SelectionModel>,
    object_type: ObjectTypeModel,
    parent: Option<ValueModel>,
    trace: Seq<ResolverCall>,
)
    requires
        match collect(
            scope.document,
            scope.schema,
            object_type,
            selections,
            selections.len() as int,
            Seq::empty(),
        ) {
            Ok(collected) => only_meta_fields(
                scope,
                false,
                object_type,
                collected.groups,
                collected.groups.len() as int,
            ),
            Err(_) => true,
        },
        run_selection_set(scope, depth, false, selections, object_type, parent, trace) is Some,
    ensures
        took_only(
            trace,
            run_selection_set(scope, depth, false, selections, object_type, parent, trace)->Some_0.rest,
            true,
        ),
{
    lemma_took_none(trace, true);
    match collect(
        scope.document,
        scope.schema,
        object_type,
        selections,
        selections.len() as int,
        Seq::empty(),
    ) {
        Ok(collected) => {
            let groups = collected.groups;
            law_meta_fields_ask_introspection_only(
                scope,
                depth,
                false,
                object_type,
                parent,
                groups,
                groups.len() as int,
                trace,
            );
        },
        Err(_) => {},
    }
}

/// On the root query type, `__schema` and `__type` are meta-fields whatever
/// the query's schema defines: they are found in the schema of the
/// meta-fields, and what lies under them is under a meta-field.
pub proof fn law_schema_and_type_are_meta_fields(
    scope: Scope,
    introspecting: bool,
    object_type: ObjectTypeModel,
)
    requires
        scope.introspection_schema == introspection_model(),
        scope.schema.root_query_type() == Some(object_type),
    ensures
        field_definition_for(scope, introspecting, object_type, "__schema"@) == Some(
            (field("__schema"@, required(named("__Schema"@))), true),
        ),
        field_definition_for(scope, introspecting, object_type, "__type"@) is Some,
        field_definition_for(scope, introspecting, object_type, "__type"@)->Some_0.1,
{
    lemma_meta_fields_are_defined();
}

/// Whether `key` is the key of one of the first `upto` groups.
pub open spec fn key_among(
    groups: Seq<(Seq<char>, Seq<FieldModel>)>,
    upto: int,
    key: Seq<char>,
) -> bool {
    exists|g: int| 0 <= g < upto && (#[trigger] groups[g]).0 == key
}

/// Whether no two entries have the same key.
pub open spec fn entries_distinct(entries: Seq<(Seq<char>, ValueModel)>) -> bool {
    forall|i: int, j: int|
        0 <= i < j < entries.len() ==> (#[trigger] entries[i]).0 != (#[trigger] entries[j]).0
}

/// A response key names one entry of a response object: the entries that
/// groups with distinct keys leave have distinct keys, each the key of one of
/// the groups.
pub proof fn law_response_keys_are_distinct(
    scope: Scope,
    depth: nat,
    introspecting: bool,
    object_type: ObjectTypeModel,
    parent: Option<ValueModel>,
    groups: Seq<(Seq<char>, Seq<FieldModel>)>,
    upto: int,
    trace: Seq<ResolverCall>,
)
    requires
        0 <= upto <= groups.len(),
        keys_distinct(groups),
        run_groups(scope, depth, introspecting, object_type, parent, groups, upto, trace) is Some,
    ensures
        entries_distinct(
            run_groups(
                scope,
                depth,
                introspecting,
                object_type,
                parent,
                groups,
                upto,
                trace,
            )->Some_0.entries,
        ),
        forall|i: int|
            0 <= i < run_groups(
                scope,
                depth,
                introspecting,
                object_type,
                parent,
                groups,
                upto,
                trace,
            )->Some_0.entries.len() ==> key_among(
                groups,
                upto,
                (#[trigger] run_groups(
                    scope,
                    depth,
                    introspecting,
                    object_type,
                    parent,
                    groups,
                    upto,
                    trace,
                )->Some_0.entries[i]).0,
            ),
    decreases upto,
{
    if upto > 0 {
        law_response_keys_are_distinct(
            scope,
            depth,
            introspecting,
            object_type,
            parent,
            groups,
            upto - 1,
            trace,
        );
        let before = run_groups(
            scope,
            depth,
            introspecting,
            object_type,
            parent,
            groups,
            upto - 1,
            trace,
        )->Some_0.entries;
        let after = run_groups(
            scope,
            depth,
            introspecting,
            object_type,
            parent,
            groups,
            upto,
            trace,
        )->Some_0.entries;
        assert forall|i: int| 0 <= i < after.len() implies key_among(
            groups,
            upto,
            (#[trigger] after[i]).0,
        ) by {
            if i < before.len() {
                assert(after[i] == before[i]);
                assert(key_among(groups, upto - 1, before[i].0));
                let g = choose|g: int| 0 <= g < upto - 1 && (#[trigger] groups[g]).0 == before[i].0;
                assert(groups[g].0 == after[i].0);
            } else {
                assert(groups[upto - 1].0 == after[i].0);
            }
        }
        assert forall|i: int, j: int| 0 <= i < j < after.len() implies (#[trigger] after[i]).0 != (
        #[trigger] after[j]).0 by {
            assert(after[i] == before[i]);
            if j < before.len() {
                assert(after[j] == before[j]);
            } else {
                assert(key_among(groups, upto - 1, before[i].0));
                let g = choose|g: int| 0 <= g < upto - 1 && (#[trigger] groups[g]).0 == before[i].0;
                assert(groups[g].0 != groups[upto - 1].0);
            }
        }
    }
}

/// The depth that an execution is given does not show in its result: what a
/// selection set gives within one depth, it gives within every depth that
/// gives a result at all.
pub proof fn law_result_is_independent_of_depth(
    scope: Scope,
    one: nat,
    other: nat,
    introspecting: bool,
    selections: Seq<SelectionModel>,
    object_type: ObjectTypeModel,
    parent: Option<ValueModel>,
    trace: Seq<ResolverCall>,
)
    requires
        run_selection_set(scope, one, introspecting, selections, object_type, parent, trace)
            is Some,
        run_selection_set(scope, other, introspecting, selections, object_type, parent, trace)
            is Some,
    ensures
        run_selection_set(scope, one, introspecting, selections, object_type, parent, trace)
            == run_selection_set(
            scope,
            other,
            introspecting,
            selections,
            object_type,
            parent,
            trace,
        ),
{
    if one <= other {
        lemma_selection_set_deeper(
            scope,
            one,
            other,
            introspecting,
            selections,
            object_type,
            parent,
            trace,
        );
    } else {
        lemma_selection_set_deeper(
            scope,
            other,
            one,
            introspecting,
            selections,
            object_type,
            parent,
            trace,
        );
    }
}

} // verus!
