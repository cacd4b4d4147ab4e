//! The depth of an execution: why it does not show in the result.
//!
//! An execution is given a depth within which the fields of the query nest.
//! The lemmas here show that the depth is only a bound: any depth that is
//! large enough gives the same result.
use vstd::prelude::*;
use crate::ast::{FieldModel, SelectionModel};
use crate::execution::Scope;
use crate::fields::collect;
use crate::nesting::{
    field_within, group_within, groups_within, lemma_collect_within, lemma_merged_within,
    selections_within,
};
use crate::resolver::ResolverCall;
use crate::schema::{FieldDefinitionModel, ObjectTypeModel, TypeDefinitionModel, TypeModel};
use crate::semantics::{
    coerce_arguments, complete, complete_items, field_definition_for, merged_items, picked,
    resolve, run_field, run_groups, run_selection_set, type_height,
};
use crate::value::ValueModel;

verus! {

/// What a value completes to within a depth, it completes to within any
/// greater depth.
pub proof fn lemma_complete_deeper(
    scope: Scope,
    depth: nat,
    deeper: nat,
    introspecting: bool,
    field: FieldModel,
    ty: TypeModel,
    fields: Seq<FieldModel>,
    value: ValueModel,
    trace: Seq<ResolverCall>,
)
    requires
        depth <= deeper,
        complete(scope, depth, introspecting, field, ty, fields, value, trace) is Some,
    ensures
        complete(scope, deeper, introspecting, field, ty, fields, value, trace) == complete(
            scope,
            depth,
            introspecting,
            field,
            ty,
            fields,
            value,
            trace,
        ),
    decreases depth, 0int, 2 * type_height(ty), 0int,
{
    match ty {
        TypeModel::NonNullType(inner) => {
            lemma_complete_deeper(
                scope,
                depth,
                deeper,
                introspecting,
                field,
                *inner,
                fields,
                value,
                trace,
            );
        },
        TypeModel::ListType(inner) => {
            match value {
                ValueModel::List(items) => {
                    lemma_items_deeper(
                        scope,
                        depth,
                        deeper,
                        introspecting,
                        field,
                        *inner,
                        fields,
                        items,
                        items.len() as int,
                        trace,
                    );
                },
                _ => {},
            }
        },
        TypeModel::NamedType(name) => {
            if !(value is Null) {
                let merged = merged_items(fields, fields.len() as int);
                match scope.active(introspecting).named_type(name) {
                    Some(TypeDefinitionModel::Object(t)) => {
                        lemma_selection_set_deeper(
                            scope,
                            (depth - 1) as nat,
                            (deeper - 1) as nat,
                            introspecting,
                            merged,
                            t,
                            Some(value),
                            trace,
                        );
                    },
                    Some(TypeDefinitionModel::Interface(_)) | Some(
                        TypeDefinitionModel::Union(_),
                    ) => {
                        let abstract_type = scope.active(introspecting).named_type(name)->Some_0;
                        match picked(
                            trace,
                            introspecting,
                            scope.active(introspecting),
                            abstract_type,
                            value,
                        ) {
                            Some((Some(t), rest)) => {
                                lemma_selection_set_deeper(
                                    scope,
                                    (depth - 1) as nat,
                                    (deeper - 1) as nat,
                                    introspecting,
                                    merged,
                                    t,
                                    Some(value),
                                    rest,
                                );
                            },
                            _ => {},
                        }
                    },
                    _ => {},
                }
            }
        },
    }
}

/// What the items of a list complete to within a depth, they complete to
/// within any greater depth.
pub proof fn lemma_items_deeper(
    scope: Scope,
    depth: nat,
    deeper: nat,
    introspecting: bool,
    field: FieldModel,
    inner: TypeModel,
    fields: Seq<FieldModel>,
    items: Seq<ValueModel>,
    upto: int,
    trace: Seq<ResolverCall>,
)
    requires
        depth <= deeper,
        complete_items(scope, depth, introspecting, field, inner, fields, items, upto, trace)
            is Some,
    ensures
        complete_items(scope, deeper, introspecting, field, inner, fields, items, upto, trace)
            == complete_items(
            scope,
            depth,
            introspecting,
            field,
            inner,
            fields,
            items,
            upto,
            trace,
        ),
    decreases depth, 0int, 2 * type_height(inner) + 1, upto,
{
    if upto > 0 {
        lemma_items_deeper(
            scope,
            depth,
            deeper,
            introspecting,
            field,
            inner,
            fields,
            items,
            upto - 1,
            trace,
        );
        let before = complete_items(
            scope,
            depth,
            introspecting,
            field,
            inner,
            fields,
            items,
            upto - 1,
            trace,
        )->Some_0;
        if before.result is Ok {
            lemma_complete_deeper(
                scope,
                depth,
                deeper,
                introspecting,
                field,
                inner,
                fields,
                items[upto - 1],
                before.rest,
            );
        }
    }
}

/// What a field gives within a depth, it gives within any greater depth.
pub proof fn lemma_field_deeper(
    scope: Scope,
    depth: nat,
    deeper: nat,
    introspecting: bool,
    parent: Option<ValueModel>,
    fields: Seq<FieldModel>,
    definition: FieldDefinitionModel,
    trace: Seq<ResolverCall>,
)
    requires
        depth <= deeper,
        run_field(scope, depth, introspecting, parent, fields, definition, trace) is Some,
    ensures
        run_field(scope, deeper, introspecting, parent, fields, definition, trace) == run_field(
            scope,
            depth,
            introspecting,
            parent,
            fields,
            definition,
            trace,
        ),
    decreases depth, 1int, 0int, 0int,
{
    let field = fields[0];
    match coerce_arguments(
        scope.active(introspecting),
        definition.arguments,
        definition.arguments.len() as int,
        field,
    ) {
        Err(_) => {},
        Ok(arguments) => {
            let resolved = resolve(
                scope,
                introspecting,
                parent,
                field,
                definition,
                definition.field_type,
                arguments,
                trace,
            )->Some_0;
            if resolved.result is Ok {
                lemma_complete_deeper(
                    scope,
                    depth,
                    deeper,
                    introspecting,
                    field,
                    definition.field_type,
                    fields,
                    resolved.result->Ok_0,
                    resolved.rest,
                );
            }
        },
    }
}

/// What groups give within a depth, they give within any greater depth.
pub proof fn lemma_groups_deeper(
    scope: Scope,
    depth: nat,
    deeper: nat,
    introspecting: bool,
    object_type: ObjectTypeModel,
    parent: Option<ValueModel>,
    groups: Seq<(Seq<char>, Seq<FieldModel>)>,
    upto: int,
    trace: Seq<ResolverCall>,
)
    requires
        depth <= deeper,
        run_groups(scope, depth, introspecting, object_type, parent, groups, upto, trace) is Some,
    ensures
        run_groups(scope, deeper, introspecting, object_type, parent, groups, upto, trace)
            == run_groups(scope, depth, introspecting, object_type, parent, groups, upto, trace),
    decreases depth, 2int, upto, 0int,
{
    if upto > 0 {
        lemma_groups_deeper(
            scope,
            depth,
            deeper,
            introspecting,
            object_type,
            parent,
            groups,
            upto - 1,
            trace,
        );
        let before = run_groups(
            scope,
            depth,
            introspecting,
            object_type,
            parent,
            groups,
            upto - 1,
            trace,
        )->Some_0;
        let group = groups[upto - 1];
        match field_definition_for(scope, introspecting, object_type, group.1[0].name) {
            None => {},
            Some((definition, under_meta)) => {
                lemma_field_deeper(
                    scope,
                    depth,
                    deeper,
                    under_meta,
                    parent,
                    group.1,
                    definition,
                    before.rest,
                );
            },
        }
    }
}

/// What a selection set gives within a depth, it gives within any greater
/// depth.
pub proof fn lemma_selection_set_deeper(
    scope: Scope,
    depth: nat,
    deeper: nat,
    introspecting: bool,
    selections: Seq<SelectionModel>,
    object_type: ObjectTypeModel,
    parent: Option<ValueModel>,
    trace: Seq<ResolverCall>,
)
    requires
        depth <= deeper,
        run_selection_set(scope, depth, introspecting, selections, object_type, parent, trace)
            is Some,
    ensures
        run_selection_set(scope, deeper, introspecting, selections, object_type, parent, trace)
            == run_selection_set(
            scope,
            depth,
            introspecting,
            selections,
            object_type,
            parent,
            trace,
        ),
    decreases depth, 3int, 0int, 0int,
{
    match collect(
        scope.document,
        scope.active(introspecting),
        object_type,
        selections,
        selections.len() as int,
        Seq::empty(),
    ) {
        Err(_) => {},
        Ok(collected) => {
            let groups = collected.groups;
            lemma_groups_deeper(
                scope,
                depth,
                deeper,
                introspecting,
                object_type,
                parent,
                groups,
                groups.len() as int,
                trace,
            );
        },
    }
}

/// What a value completes to within one depth, it completes to within any
/// depth within which the fields of the group nest.
pub proof fn lemma_complete_within(
    scope: Scope,
    given: nat,
    depth: nat,
    introspecting: bool,
    field: FieldModel,
    ty: TypeModel,
    fields: Seq<FieldModel>,
    value: ValueModel,
    trace: Seq<ResolverCall>,
)
    requires
        group_within(scope.document, fields, depth),
        complete(scope, given, introspecting, field, ty, fields, value, trace) is Some,
    ensures
        complete(scope, depth, introspecting, field, ty, fields, value, trace) == complete(
            scope,
            given,
            introspecting,
            field,
            ty,
            fields,
            value,
            trace,
        ),
    decreases given, 0int, 2 * type_height(ty), 0int,
{
    match ty {
        TypeModel::NonNullType(inner) => {
            lemma_complete_within(
                scope,
                given,
                depth,
                introspecting,
                field,
                *inner,
                fields,
                value,
                trace,
            );
        },
        TypeModel::ListType(inner) => {
            match value {
                ValueModel::List(items) => {
                    lemma_items_within(
                        scope,
                        given,
                        depth,
                        introspecting,
                        field,
                        *inner,
                        fields,
                        items,
                        items.len() as int,
                        trace,
                    );
                },
                _ => {},
            }
        },
        TypeModel::NamedType(name) => {
            if !(value is Null) {
                let merged = merged_items(fields, fields.len() as int);
                assert(field_within(scope.document, fields[0], depth));
                lemma_merged_within(scope.document, fields, fields.len() as int, depth);
                match scope.active(introspecting).named_type(name) {
                    Some(TypeDefinitionModel::Object(t)) => {
                        lemma_selection_set_within(
                            scope,
                            (given - 1) as nat,
                            (depth - 1) as nat,
                            introspecting,
                            merged,
                            t,
                            Some(value),
                            trace,
                        );
                    },
                    Some(TypeDefinitionModel::Interface(_)) | Some(
                        TypeDefinitionModel::Union(_),
                    ) => {
                        let abstract_type = scope.active(introspecting).named_type(name)->Some_0;
                        match picked(
                            trace,
                            introspecting,
                            scope.active(introspecting),
                            abstract_type,
                            value,
                        ) {
                            Some((Some(t), rest)) => {
                                lemma_selection_set_within(
                                    scope,
                                    (given - 1) as nat,
                                    (depth - 1) as nat,
                                    introspecting,
                                    merged,
                                    t,
                                    Some(value),
                                    rest,
                                );
                            },
                            _ => {},
                        }
                    },
                    _ => {},
                }
            }
        },
    }
}

/// What the items of a list complete to within one depth, they complete to
/// within any depth within which the fields of the group nest.
pub proof fn lemma_items_within(
    scope: Scope,
    given: nat,
    depth: nat,
    introspecting: bool,
    field: FieldModel,
    inner: TypeModel,
    fields: Seq<FieldModel>,
    items: Seq<ValueModel>,
    upto: int,
    trace: Seq<ResolverCall>,
)
    requires
        group_within(scope.document, fields, depth),
        complete_items(scope, given, introspecting, field, inner, fields, items, upto, trace)
            is Some,
    ensures
        complete_items(scope, depth, introspecting, field, inner, fields, items, upto, trace)
            == complete_items(
            scope,
            given,
            introspecting,
            field,
            inner,
            fields,
            items,
            upto,
            trace,
        ),
    decreases given, 0int, 2 * type_height(inner) + 1, upto,
{
    if upto > 0 {
        lemma_items_within(
            scope,
            given,
            depth,
            introspecting,
            field,
            inner,
            fields,
            items,
            upto - 1,
            trace,
        );
        let before = complete_items(
            scope,
            given,
            introspecting,
            field,
            inner,
            fields,
            items,
            upto - 1,
            trace,
        )->Some_0;
        if before.result is Ok {
            lemma_complete_within(
                scope,
                given,
                depth,
                introspecting,
                field,
                inner,
                fields,
                items[upto - 1],
                before.rest,
            );
        }
    }
}

/// What a field gives within one depth, it gives within any depth within
/// which the fields of its group nest.
pub proof fn lemma_field_within(
    scope: Scope,
    given: nat,
    depth: nat,
    introspecting: bool,
    parent: Option<ValueModel>,
    fields: Seq<FieldModel>,
    definition: FieldDefinitionModel,
    trace: Seq<ResolverCall>,
)
    requires
        group_within(scope.document, fields, depth),
        run_field(scope, given, introspecting, parent, fields, definition, trace) is Some,
    ensures
        run_field(scope, depth, introspecting, parent, fields, definition, trace) == run_field(
            scope,
            given,
            introspecting,
            parent,
            fields,
            definition,
            trace,
        ),
    decreases given, 1int, 0int, 0int,
{
    let field = fields[0];
    match coerce_arguments(
        scope.active(introspecting),
        definition.arguments,
        definition.arguments.len() as int,
        field,
    ) {
        Err(_) => {},
        Ok(arguments) => {
            let resolved = resolve(
                scope,
                introspecting,
                parent,
                field,
                definition,
                definition.field_type,
                arguments,
                trace,
            )->Some_0;
            if resolved.result is Ok {
                lemma_complete_within(
                    scope,
                    given,
                    depth,
                    introspecting,
                    field,
                    definition.field_type,
                    fields,
                    resolved.result->Ok_0,
                    resolved.rest,
                );
            }
        },
    }
}

/// What groups give within one depth, they give within any depth within which
/// their fields nest.
pub proof fn lemma_groups_within(
    scope: Scope,
    given: nat,
    depth: nat,
    introspecting: bool,
    object_type: ObjectTypeModel,
    parent: Option<ValueModel>,
    groups: Seq<(Seq<char>, Seq<FieldModel>)>,
    upto: int,
    trace: Seq<ResolverCall>,
)
    requires
        0 <= upto <= groups.len(),
        groups_within(scope.document, groups, depth),
        run_groups(scope, given, introspecting, object_type, parent, groups, upto, trace) is Some,
    ensures
        run_groups(scope, depth, introspecting, object_type, parent, groups, upto, trace)
            == run_groups(scope, given, introspecting, object_type, parent, groups, upto, trace),
    decreases given, 2int, upto, 0int,
{
    if upto > 0 {
        lemma_groups_within(
            scope,
            given,
            depth,
            introspecting,
            object_type,
            parent,
            groups,
            upto - 1,
            trace,
        );
        let before = run_groups(
            scope,
            given,
            introspecting,
            object_type,
            parent,
            groups,
            upto - 1,
            trace,
        )->Some_0;
        let group = groups[upto - 1];
        assert(group.1.len() > 0);
        assert forall|j: int| 0 <= j < group.1.len() implies field_within(
            scope.document,
            #[trigger] group.1[j],
            depth,
        ) by {
            assert(field_within(scope.document, groups[upto - 1].1[j], depth));
        }
        match field_definition_for(scope, introspecting, object_type, group.1[0].name) {
            None => {},
            Some((definition, under_meta)) => {
                lemma_field_within(
                    scope,
                    given,
                    depth,
                    under_meta,
                    parent,
                    group.1,
                    definition,
                    before.rest,
                );
            },
        }
    }
}

/// What a selection set gives within one depth, it gives within any depth
/// within which its fields nest.
pub proof fn lemma_selection_set_within(
    scope: Scope,
    given: nat,
    depth: nat,
    introspecting: bool,
    selections: Seq<SelectionModel>,
    object_type: ObjectTypeModel,
    parent: Option<ValueModel>,
    trace: Seq<ResolverCall>,
)
    requires
        selections_within(
            scope.document,
            selections,
            selections.len() as int,
            Seq::empty(),
            depth,
        ),
        run_selection_set(scope, given, introspecting, selections, object_type, parent, trace)
            is Some,
    ensures
        run_selection_set(scope, depth, introspecting, selections, object_type, parent, trace)
            == run_selection_set(
            scope,
            given,
            introspecting,
            selections,
            object_type,
            parent,
            trace,
        ),
    decreases given, 3int, 0int, 0int,
{
    match collect(
        scope.document,
        scope.active(introspecting),
        object_type,
        selections,
        selections.len() as int,
        Seq::empty(),
    ) {
        Err(_) => {},
        Ok(collected) => {
            let groups = collected.groups;
            lemma_collect_within(
                scope.document,
                scope.active(introspecting),
                object_type,
                selections,
                selections.len() as int,
                Seq::empty(),
                depth,
            );
            lemma_groups_within(
                scope,
                given,
                depth,
                introspecting,
                object_type,
                parent,
                groups,
                groups.len() as int,
                trace,
            );
        },
    }
}

} // verus!
