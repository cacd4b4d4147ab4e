//! The completion of values and the execution of fields and selection sets.
use vstd::prelude::*;
use crate::ast::{Field, FieldModel, SelectionSet};
use crate::depth::{lemma_complete_within, lemma_field_within, lemma_selection_set_within};
use crate::error::{ErrorModel, ExecutionError};
use crate::execution::{collected_as, outcome, Execution, Scope};
use crate::fields::collect;
use crate::groups::{groups_entries, groups_view};
use crate::nesting::{
    field_within, group_within, groups_within, lemma_collect_within, lemma_merged_within,
    nesting_bounded, nesting_depth, selections_within,
};
use crate::resolver::{optional_model, Resolver, ResolverCall};
use crate::schema::{
    get_named_type, FieldDefinition, ObjectType, Type, TypeDefinition, TypeModel,
};
use crate::semantics::{
    complete, complete_items, failure, picked, resolve, run_field, run_groups,
    run_selection_set, slot, type_height, FieldRun, GroupsRun, ItemsRun, Resolved, SetRun,
};
use crate::util::models;
use crate::value::{entries_view, values_view, Value, ValueModel};

verus! {

/// Once the completion of a list's items has stopped with an error, further
/// items do not change that.
pub proof fn lemma_items_stop(
    scope: Scope,
    depth: nat,
    introspecting: bool,
    field: FieldModel,
    inner: TypeModel,
    fields: Seq<FieldModel>,
    items: Seq<ValueModel>,
    upto: int,
    trace: Seq<ResolverCall>,
)
    requires
        0 <= upto <= items.len(),
        complete_items(scope, depth, introspecting, field, inner, fields, items, upto, trace)
            is Some,
        complete_items(
            scope,
            depth,
            introspecting,
            field,
            inner,
            fields,
            items,
            upto,
            trace,
        )->Some_0.result is Err,
    ensures
        complete_items(
            scope,
            depth,
            introspecting,
            field,
            inner,
            fields,
            items,
            items.len() as int,
            trace,
        ) == complete_items(scope, depth, introspecting, field, inner, fields, items, upto, trace),
    decreases items.len() - upto,
{
    if upto < items.len() {
        assert(complete_items(
            scope,
            depth,
            introspecting,
            field,
            inner,
            fields,
            items,
            upto + 1,
            trace,
        ) == complete_items(scope, depth, introspecting, field, inner, fields, items, upto, trace));
        lemma_items_stop(
            scope,
            depth,
            introspecting,
            field,
            inner,
            fields,
            items,
            upto + 1,
            trace,
        );
    }
}

/// Joining traces does not depend on how they are bracketed, and the empty
/// trace adds nothing.
pub proof fn lemma_traces<T>(a: Seq<T>, b: Seq<T>, c: Seq<T>)
    ensures
        (a + b) + c == a + (b + c),
        Seq::<T>::empty() + a == a,
        a + Seq::<T>::empty() == a,
{
    assert((a + b) + c =~= a + (b + c));
    assert(Seq::<T>::empty() + a =~= a);
    assert(a + Seq::<T>::empty() =~= a);
}

impl<'a, R1: Resolver, R2: Resolver> Execution<'a, R1, R2> {
    /// Completes a value against a declared type, for fields that nest at
    /// most `depth` levels deep.
    pub(crate) fn complete_value_within(
        &mut self,
        field: &Field,
        field_type: &'a Type,
        fields: &Vec<Field>,
        resolved_value: Value,
        Ghost(depth): Ghost<nat>,
    ) -> (out: (Result<Value, ExecutionError>, Ghost<Seq<ResolverCall>>, Ghost<Seq<ErrorModel>>))
        requires
            fields.len() > 0,
            forall|j: int|
                0 <= j < fields.len() ==> field_within(
                    old(self).document@,
                    #[trigger] models(fields@)[j],
                    depth,
                ),
        ensures
            Self::advanced(*old(self), *final(self), out.1@, out.2@),
            forall|rest: Seq<ResolverCall>|
                #[trigger] complete(
                    old(self).scope(),
                    depth,
                    old(self).introspecting,
                    field@,
                    field_type@,
                    models(fields@),
                    resolved_value@,
                    out.1@ + rest,
                ) == Some(FieldRun { result: outcome(out.0), errors: out.2@, rest }),
        decreases depth, 0int, 2 * type_height(field_type@), 0int,
    {
        let ghost scope = self.scope();
        let ghost flag = self.introspecting;
        let ghost group = models(fields@);
        let ghost none: Seq<ResolverCall> = Seq::empty();
        let ghost quiet: Seq<ErrorModel> = Seq::empty();
        proof {
            assert forall|rest: Seq<ResolverCall>| none + rest == rest by {
                lemma_traces(rest, none, none);
            }
            lemma_traces(self.calls@, none, none);
            lemma_traces(models(self.errors@), quiet, quiet);
        }
        match field_type {
            Type::NonNullType(inner) => {
                proof {
                    assert(field_type@ == TypeModel::NonNullType(Box::new(inner@)));
                }
                let (result, Ghost(t), Ghost(e)) = self.complete_value_within(
                    field,
                    inner,
                    fields,
                    resolved_value,
                    Ghost(depth),
                );
                let failed = match &result {
                    Ok(v) => v.is_null(),
                    Err(_) => false,
                };
                let checked = if failed {
                    Err(ExecutionError::NonNullError(field.position, field.name.clone()))
                } else {
                    result
                };
                proof {
                    assert forall|rest: Seq<ResolverCall>|
                        #[trigger] complete(
                            scope,
                            depth,
                            flag,
                            field@,
                            field_type@,
                            group,
                            resolved_value@,
                            t + rest,
                        ) == Some(FieldRun { result: outcome(checked), errors: e, rest }) by {
                        assert(complete(
                            scope,
                            depth,
                            flag,
                            field@,
                            inner@,
                            group,
                            resolved_value@,
                            t + rest,
                        ) == Some(FieldRun { result: outcome(result), errors: e, rest }));
                    }
                }
                return (checked, Ghost(t), Ghost(e));
            },
            Type::ListType(inner) => {
                proof {
                    assert(field_type@ == TypeModel::ListType(Box::new(inner@)));
                }
                match resolved_value {
                    Value::Null => {
                        return (Ok(Value::Null), Ghost(none), Ghost(quiet));
                    },
                    Value::List(values) => {
                        proof {
                            Value::lemma_list_view(values);
                        }
                        let ghost items = values_view(values@);
                        let mut completed: Vec<Value> = Vec::new();
                        let ghost mut t: Seq<ResolverCall> = Seq::empty();
                        let ghost mut e: Seq<ErrorModel> = Seq::empty();
                        let mut i: usize = 0;
                        proof {
                            assert(values_view(completed@) =~= Seq::empty());
                        }
                        while i < values.len()
                            invariant
                                i <= values.len(),
                                fields.len() > 0,
                                forall|j: int|
                                    0 <= j < fields.len() ==> field_within(
                                        old(self).document@,
                                        #[trigger] models(fields@)[j],
                                        depth,
                                    ),
                                scope == old(self).scope(),
                                flag == old(self).introspecting,
                                group == models(fields@),
                                items == values_view(values@),
                                resolved_value@ == ValueModel::List(items),
                                field_type@ == TypeModel::ListType(Box::new(inner@)),
                                Self::advanced(*old(self), *self, t, e),
                                forall|rest: Seq<ResolverCall>|
                                    #[trigger] complete_items(
                                        scope,
                                        depth,
                                        flag,
                                        field@,
                                        inner@,
                                        group,
                                        items,
                                        i as int,
                                        t + rest,
                                    ) == Some(
                                        ItemsRun {
                                            result: Ok(values_view(completed@)),
                                            errors: e,
                                            rest,
                                        },
                                    ),
                            decreases values.len() - i,
                        {
                            let item = values[i].clone();
                            let ghost before = *self;
                            let (result, Ghost(t1), Ghost(e1)) = self.complete_value_within(
                                field,
                                inner,
                                fields,
                                item,
                                Ghost(depth),
                            );
                            let ghost sofar = values_view(completed@);
                            proof {
                                lemma_traces(old(self).calls@, t, t1);
                                lemma_traces(models(old(self).errors@), e, e1);
                                assert forall|rest: Seq<ResolverCall>|
                                    #[trigger] complete_items(
                                        scope,
                                        depth,
                                        flag,
                                        field@,
                                        inner@,
                                        group,
                                        items,
                                        i as int + 1,
                                        (t + t1) + rest,
                                    ) == Some(
                                        ItemsRun {
                                            result: match outcome(result) {
                                                Ok(v) => Ok(sofar.push(v)),
                                                Err(err) => Err(err),
                                            },
                                            errors: e + e1,
                                            rest,
                                        },
                                    ) by {
                                    lemma_traces(t, t1, rest);
                                    assert(complete_items(
                                        scope,
                                        depth,
                                        flag,
                                        field@,
                                        inner@,
                                        group,
                                        items,
                                        i as int,
                                        t + (t1 + rest),
                                    ) == Some(
                                        ItemsRun { result: Ok(sofar), errors: e, rest: t1 + rest },
                                    ));
                                    assert(complete(
                                        scope,
                                        depth,
                                        flag,
                                        field@,
                                        inner@,
                                        group,
                                        items[i as int],
                                        t1 + rest,
                                    ) == Some(
                                        FieldRun { result: outcome(result), errors: e1, rest },
                                    ));
                                }
                                t = t + t1;
                                e = e + e1;
                            }
                            match result {
                                Ok(v) => {
                                    completed.push(v);
                                    proof {
                                        assert(values_view(completed@) =~= sofar.push(v@));
                                    }
                                },
                                Err(err) => {
                                    proof {
                                        assert forall|rest: Seq<ResolverCall>|
                                            #[trigger] complete(
                                                scope,
                                                depth,
                                                flag,
                                                field@,
                                                field_type@,
                                                group,
                                                resolved_value@,
                                                t + rest,
                                            ) == Some(
                                                FieldRun { result: Err(err@), errors: e, rest },
                                            ) by {
                                            lemma_items_stop(
                                                scope,
                                                depth,
                                                flag,
                                                field@,
                                                inner@,
                                                group,
                                                items,
                                                i as int + 1,
                                                t + rest,
                                            );
                                        }
                                    }
                                    return (Err(err), Ghost(t), Ghost(e));
                                },
                            }
                            i += 1;
                        }
                        proof {
                            Value::lemma_list_view(completed);
                            assert(items.len() == values.len());
                            assert forall|rest: Seq<ResolverCall>|
                                #[trigger] complete(
                                    scope,
                                    depth,
                                    flag,
                                    field@,
                                    field_type@,
                                    group,
                                    resolved_value@,
                                    t + rest,
                                ) == Some(
                                    FieldRun {
                                        result: Ok(ValueModel::List(values_view(completed@))),
                                        errors: e,
                                        rest,
                                    },
                                ) by {
                                assert(complete_items(
                                    scope,
                                    depth,
                                    flag,
                                    field@,
                                    inner@,
                                    group,
                                    items,
                                    items.len() as int,
                                    t + rest,
                                ) == Some(
                                    ItemsRun {
                                        result: Ok(values_view(completed@)),
                                        errors: e,
                                        rest,
                                    },
                                ));
                            }
                        }
                        return (Ok(Value::List(completed)), Ghost(t), Ghost(e));
                    },
                    _ => {
                        return (
                            Err(ExecutionError::ListValueError(field.position, field.name.clone())),
                            Ghost(none),
                            Ghost(quiet),
                        );
                    },
                }
            },
            Type::NamedType(name) => {
                proof {
                    assert(field_type@ == TypeModel::NamedType(name@));
                }
                if resolved_value.is_null() {
                    return (Ok(Value::Null), Ghost(none), Ghost(quiet));
                }
                match get_named_type(self.active_schema(), name) {
                    None => {
                        return (
                            Err(ExecutionError::NamedTypeError(name.clone())),
                            Ghost(none),
                            Ghost(quiet),
                        );
                    },
                    Some(TypeDefinition::Scalar(_)) => {
                        return (
                            Ok(resolved_value),
                            Ghost(none),
                            Ghost(quiet),
                        );
                    },
                    Some(TypeDefinition::Enum(_)) => {
                        return (Ok(resolved_value), Ghost(none), Ghost(quiet));
                    },
                    Some(TypeDefinition::InputObject(_)) => {
                        return (
                            Err(
                                ExecutionError::NotSupported(
                                    "Values of input object types cannot be completed".to_owned(),
                                ),
                            ),
                            Ghost(none),
                            Ghost(quiet),
                        );
                    },
                    Some(TypeDefinition::Object(t)) => {
                        let merged = Self::merge_selection_sets(fields);
                        proof {
                            assert(field_within(self.document@, group[0], depth));
                            lemma_merged_within(self.document@, group, group.len() as int, depth);
                        }
                        let ghost resolved_model = resolved_value@;
                        let parent = Some(resolved_value);
                        let (value, Ghost(t1), Ghost(e1)) = self.execute_selection_set_within(
                            &merged,
                            t,
                            &parent,
                            Ghost((depth - 1) as nat),
                        );
                        proof {
                            assert forall|rest: Seq<ResolverCall>|
                                #[trigger] complete(
                                    scope,
                                    depth,
                                    flag,
                                    field@,
                                    field_type@,
                                    group,
                                    resolved_model,
                                    t1 + rest,
                                ) == Some(FieldRun { result: Ok(value@), errors: e1, rest }) by {
                                assert(run_selection_set(
                                    scope,
                                    (depth - 1) as nat,
                                    flag,
                                    merged@.items,
                                    t@,
                                    Some(resolved_model),
                                    t1 + rest,
                                ) == Some(SetRun { value: value@, errors: e1, rest }));
                            }
                        }
                        return (Ok(value), Ghost(t1), Ghost(e1));
                    },
                    Some(abstract_type) => {
                        let (picked_type, Ghost(t0)) = self.resolve_abstract_type(
                            abstract_type,
                            &resolved_value,
                        );
                        match picked_type {
                            Err(e) => {
                                proof {
                                    lemma_traces(models(self.errors@), quiet, quiet);
                                }
                                return (Err(e), Ghost(t0), Ghost(quiet));
                            },
                            Ok(t) => {
                                let merged = Self::merge_selection_sets(fields);
                                proof {
                                    assert(field_within(self.document@, group[0], depth));
                                    lemma_merged_within(
                                        self.document@,
                                        group,
                                        group.len() as int,
                                        depth,
                                    );
                                }
                                let parent = Some(resolved_value);
                                let (value, Ghost(t1), Ghost(e1)) =
                                    self.execute_selection_set_within(
                                    &merged,
                                    t,
                                    &parent,
                                    Ghost((depth - 1) as nat),
                                );
                                proof {
                                    lemma_traces(old(self).calls@, t0, t1);
                                    lemma_traces(models(old(self).errors@), quiet, e1);
                                    assert forall|rest: Seq<ResolverCall>|
                                        #[trigger] complete(
                                            scope,
                                            depth,
                                            flag,
                                            field@,
                                            field_type@,
                                            group,
                                            resolved_value@,
                                            (t0 + t1) + rest,
                                        ) == Some(
                                            FieldRun { result: Ok(value@), errors: e1, rest },
                                        ) by {
                                        lemma_traces(t0, t1, rest);
                                        assert(picked(
                                            t0 + (t1 + rest),
                                            flag,
                                            scope.active(flag),
                                            abstract_type@,
                                            resolved_value@,
                                        ) == Some((Some(t@), t1 + rest)));
                                        assert(run_selection_set(
                                            scope,
                                            (depth - 1) as nat,
                                            flag,
                                            merged@.items,
                                            t@,
                                            Some(resolved_value@),
                                            t1 + rest,
                                        ) == Some(SetRun { value: value@, errors: e1, rest }));
                                    }
                                }
                                return (Ok(value), Ghost(t0 + t1), Ghost(e1));
                            },
                        }
                    },
                }
            },
        }
    }

    /// Executes the group of fields of one response key, for fields that nest
    /// at most `depth` levels deep.
    pub(crate) fn execute_field_within(
        &mut self,
        object_type: &'a ObjectType,
        object_value: &Option<Value>,
        field: &Field,
        field_definition: &'a FieldDefinition,
        fields: &Vec<Field>,
        Ghost(depth): Ghost<nat>,
    ) -> (out: (Result<Value, ExecutionError>, Ghost<Seq<ResolverCall>>, Ghost<Seq<ErrorModel>>))
        requires
            fields.len() > 0,
            field@ == fields[0]@,
            forall|j: int|
                0 <= j < fields.len() ==> field_within(
                    old(self).document@,
                    #[trigger] models(fields@)[j],
                    depth,
                ),
        ensures
            Self::advanced(*old(self), *final(self), out.1@, out.2@),
            forall|rest: Seq<ResolverCall>|
                #[trigger] run_field(
                    old(self).scope(),
                    depth,
                    old(self).introspecting,
                    optional_model(*object_value),
                    models(fields@),
                    field_definition@,
                    out.1@ + rest,
                ) == Some(FieldRun { result: outcome(out.0), errors: out.2@, rest }),
        decreases depth, 1int, 0int, 0int,
    {
        let ghost scope = self.scope();
        let ghost flag = self.introspecting;
        let ghost group = models(fields@);
        let ghost none: Seq<ResolverCall> = Seq::empty();
        let ghost quiet: Seq<ErrorModel> = Seq::empty();
        proof {
            assert(group[0] == field@);
            assert forall|rest: Seq<ResolverCall>| none + rest == rest by {
                lemma_traces(rest, none, none);
            }
            lemma_traces(self.calls@, none, none);
            lemma_traces(models(self.errors@), quiet, quiet);
        }
        match self.coerce_argument_values(field_definition, field) {
            Err(e) => {
                return (Err(e), Ghost(none), Ghost(quiet));
            },
            Ok(arguments) => {
                let (resolved, Ghost(t0)) = self.resolve_field_value(
                    object_type,
                    object_value,
                    field,
                    field_definition,
                    &field_definition.field_type,
                    &arguments,
                );
                match resolved {
                    Err(e) => (Err(e), Ghost(t0), Ghost(quiet)),
                    Ok(value) => {
                        let ghost resolved_model = value@;
                        let (result, Ghost(t1), Ghost(e1)) = self.complete_value_within(
                            field,
                            &field_definition.field_type,
                            fields,
                            value,
                            Ghost(depth),
                        );
                        proof {
                            lemma_traces(old(self).calls@, t0, t1);
                            lemma_traces(models(old(self).errors@), quiet, e1);
                            assert forall|rest: Seq<ResolverCall>|
                                #[trigger] run_field(
                                    scope,
                                    depth,
                                    flag,
                                    optional_model(*object_value),
                                    group,
                                    field_definition@,
                                    (t0 + t1) + rest,
                                ) == Some(
                                    FieldRun { result: outcome(result), errors: e1, rest },
                                ) by {
                                lemma_traces(t0, t1, rest);
                                assert(resolve(
                                    scope,
                                    flag,
                                    optional_model(*object_value),
                                    field@,
                                    field_definition@,
                                    field_definition@.field_type,
                                    entries_view(arguments@),
                                    t0 + (t1 + rest),
                                ) == Some(Resolved { result: Ok(resolved_model), rest: t1 + rest }));
                                assert(complete(
                                    scope,
                                    depth,
                                    flag,
                                    field@,
                                    field_definition@.field_type,
                                    group,
                                    resolved_model,
                                    t1 + rest,
                                ) == Some(FieldRun { result: outcome(result), errors: e1, rest }));
                            }
                        }
                        return (result, Ghost(t0 + t1), Ghost(e1));
                    },
                }
            },
        }
    }

    /// Executes a selection set whose fields nest at most `depth` levels deep.
    pub(crate) fn execute_selection_set_within(
        &mut self,
        selection_set: &SelectionSet,
        object_type: &'a ObjectType,
        object_value: &Option<Value>,
        Ghost(depth): Ghost<nat>,
    ) -> (out: (Value, Ghost<Seq<ResolverCall>>, Ghost<Seq<ErrorModel>>))
        requires
            selections_within(
                old(self).document@,
                selection_set@.items,
                selection_set@.items.len() as int,
                Seq::empty(),
                depth,
            ),
        ensures
            Self::advanced(*old(self), *final(self), out.1@, out.2@),
            forall|rest: Seq<ResolverCall>|
                #[trigger] run_selection_set(
                    old(self).scope(),
                    depth,
                    old(self).introspecting,
                    selection_set@.items,
                    object_type@,
                    optional_model(*object_value),
                    out.1@ + rest,
                ) == Some(SetRun { value: out.0@, errors: out.2@, rest }),
        decreases depth, 3int, 0int, 0int,
    {
        let ghost scope = self.scope();
        let ghost flag = self.introspecting;
        let ghost parent = optional_model(*object_value);
        let ghost none: Seq<ResolverCall> = Seq::empty();
        let ghost quiet: Seq<ErrorModel> = Seq::empty();
        let ghost selections = selection_set@.items;
        proof {
            assert forall|rest: Seq<ResolverCall>| none + rest == rest by {
                lemma_traces(rest, none, none);
            }
            lemma_traces(self.calls@, none, none);
            lemma_traces(models(self.errors@), quiet, quiet);
        }
        let collected = self.collect_fields(object_type, selection_set, None);
        match collected {
            Err(e) => {
                let ghost raised = seq![e@];
                self.errors.push(e);
                proof {
                    assert(models(self.errors@) =~= models(old(self).errors@) + raised);
                }
                return (Value::Null, Ghost(none), Ghost(raised));
            },
            Ok(map) => {
                let groups = groups_entries(map);
                let ghost collected_groups = groups_view(groups@);
                proof {
                    lemma_collect_within(
                        self.document@,
                        scope.active(flag),
                        object_type@,
                        selections,
                        selections.len() as int,
                        Seq::empty(),
                        depth,
                    );
                }
                let outer = self.introspecting;
                let mut result: Vec<(String, Value)> = Vec::new();
                let ghost mut t: Seq<ResolverCall> = Seq::empty();
                let ghost mut e: Seq<ErrorModel> = Seq::empty();
                proof {
                    assert(entries_view(result@) =~= Seq::empty());
                }
                let mut i: usize = 0;
                while i < groups.len()
                    invariant
                        i <= groups.len(),
                        scope == old(self).scope(),
                        flag == old(self).introspecting,
                        outer == flag,
                        parent == optional_model(*object_value),
                        collected_groups == groups_view(groups@),
                        groups_within(old(self).document@, collected_groups, depth),
                        selections == selection_set@.items,
                        collected_as(
                            collect(
                                scope.document,
                                scope.active(flag),
                                object_type@,
                                selections,
                                selections.len() as int,
                                Seq::empty(),
                            ),
                            collected_groups,
                        ),
                        Self::advanced(*old(self), *self, t, e),
                        forall|rest: Seq<ResolverCall>|
                            #[trigger] run_groups(
                                scope,
                                depth,
                                flag,
                                object_type@,
                                parent,
                                collected_groups,
                                i as int,
                                t + rest,
                            ) == Some(
                                GroupsRun { entries: entries_view(result@), errors: e, rest },
                            ),
                    decreases groups.len() - i,
                {
                    let key = &groups[i].0;
                    let fields = &groups[i].1;
                    let ghost sofar = entries_view(result@);
                    proof {
                        assert(collected_groups[i as int] == (key@, models(fields@)));
                        assert(collected_groups[i as int].1.len() > 0);
                        assert forall|j: int| 0 <= j < fields.len() implies field_within(
                            old(self).document@,
                            #[trigger] models(fields@)[j],
                            depth,
                        ) by {
                            assert(field_within(
                                old(self).document@,
                                collected_groups[i as int].1[j],
                                depth,
                            ));
                        }
                        assert(models(fields@)[0] == fields[0]@);
                    }
                    match self.get_field_type(object_type, &fields[0].name) {
                        None => {
                            proof {
                                assert forall|rest: Seq<ResolverCall>|
                                    #[trigger] run_groups(
                                        scope,
                                        depth,
                                        flag,
                                        object_type@,
                                        parent,
                                        collected_groups,
                                        i as int + 1,
                                        t + rest,
                                    ) == Some(GroupsRun { entries: sofar, errors: e, rest }) by {
                                    assert(run_groups(
                                        scope,
                                        depth,
                                        flag,
                                        object_type@,
                                        parent,
                                        collected_groups,
                                        i as int,
                                        t + rest,
                                    ) == Some(GroupsRun { entries: sofar, errors: e, rest }));
                                }
                            }
                        },
                        Some((definition, under_meta)) => {
                            let ghost before = *self;
                            self.fields.push(fields[0].clone());
                            self.introspecting = under_meta;
                            let ghost during = *self;
                            let (outcome_of, Ghost(t1), Ghost(e1)) = self.execute_field_within(
                                object_type,
                                object_value,
                                &fields[0],
                                definition,
                                fields,
                                Ghost(depth),
                            );
                            let ghost own = failure(outcome(outcome_of));
                            let ghost left = slot(outcome(outcome_of));
                            match outcome_of {
                                Ok(v) => {
                                    result.push((key.clone(), v));
                                },
                                Err(err) => {
                                    result.push((key.clone(), Value::Null));
                                    self.errors.push(err);
                                },
                            }
                            self.fields.pop();
                            self.introspecting = outer;
                            proof {
                                assert(entries_view(result@) =~= sofar.push((key@, left)));
                                assert(self.fields@ =~= before.fields@);
                                assert(models(self.errors@) =~= models(during.errors@) + e1 + own);
                                lemma_traces(old(self).calls@, t, t1);
                                lemma_traces(models(old(self).errors@), e, e1 + own);
                                lemma_traces(e, e1, own);
                                lemma_traces(models(old(self).errors@) + e, e1, own);
                                assert forall|rest: Seq<ResolverCall>|
                                    #[trigger] run_groups(
                                        scope,
                                        depth,
                                        flag,
                                        object_type@,
                                        parent,
                                        collected_groups,
                                        i as int + 1,
                                        (t + t1) + rest,
                                    ) == Some(
                                        GroupsRun {
                                            entries: sofar.push((key@, left)),
                                            errors: e + e1 + own,
                                            rest,
                                        },
                                    ) by {
                                    lemma_traces(t, t1, rest);
                                    assert(run_groups(
                                        scope,
                                        depth,
                                        flag,
                                        object_type@,
                                        parent,
                                        collected_groups,
                                        i as int,
                                        t + (t1 + rest),
                                    ) == Some(
                                        GroupsRun { entries: sofar, errors: e, rest: t1 + rest },
                                    ));
                                    assert(run_field(
                                        scope,
                                        depth,
                                        under_meta,
                                        parent,
                                        models(fields@),
                                        definition@,
                                        t1 + rest,
                                    ) == Some(
                                        FieldRun { result: outcome(outcome_of), errors: e1, rest },
                                    ));
                                }
                                t = t + t1;
                                e = e + e1 + own;
                            }
                        },
                    }
                    i += 1;
                }
                proof {
                    Value::lemma_object_view(result);
                    assert(collected_groups.len() == groups.len());
                    assert forall|rest: Seq<ResolverCall>|
                        #[trigger] run_selection_set(
                            scope,
                            depth,
                            flag,
                            selections,
                            object_type@,
                            parent,
                            t + rest,
                        ) == Some(
                            SetRun {
                                value: ValueModel::Object(entries_view(result@)),
                                errors: e,
                                rest,
                            },
                        ) by {
                        assert(run_groups(
                            scope,
                            depth,
                            flag,
                            object_type@,
                            parent,
                            collected_groups,
                            collected_groups.len() as int,
                            t + rest,
                        ) == Some(GroupsRun { entries: entries_view(result@), errors: e, rest }));
                    }
                }
                return (Value::Object(result), Ghost(t), Ghost(e));
            },
        }
    }

    /// Executes a selection set, requiring the result to be of the given
    /// object type. `object_value` is the parent value that the fields are
    /// resolved from.
    ///
    /// The calls made to the resolvers are exactly those that the response is
    /// read from: taken as a trace, they give this response, these errors and
    /// nothing left over.
    pub fn execute_selection_set(
        &mut self,
        selection_set: &SelectionSet,
        object_type: &'a ObjectType,
        object_value: &Option<Value>,
    ) -> (value: Value)
        requires
            nesting_bounded(old(self).document@, selection_set@.items),
        ensures
            Self::advanced(
                *old(self),
                *final(self),
                Self::calls_since(*old(self), *final(self)),
                Self::errors_since(*old(self), *final(self)),
            ),
            forall|depth: nat, rest: Seq<ResolverCall>|
                selections_within(
                    old(self).document@,
                    selection_set@.items,
                    selection_set@.items.len() as int,
                    Seq::empty(),
                    depth,
                ) ==> #[trigger] run_selection_set(
                    old(self).scope(),
                    depth,
                    old(self).introspecting,
                    selection_set@.items,
                    object_type@,
                    optional_model(*object_value),
                    Self::calls_since(*old(self), *final(self)) + rest,
                ) == Some(
                    SetRun {
                        value: value@,
                        errors: Self::errors_since(*old(self), *final(self)),
                        rest,
                    },
                ),
    {
        let ghost given = nesting_depth(self.document@, selection_set@.items);
        let (value, Ghost(t), Ghost(e)) = self.execute_selection_set_within(
            selection_set,
            object_type,
            object_value,
            Ghost(given),
        );
        proof {
            assert(Self::calls_since(*old(self), *self) =~= t);
            assert(Self::errors_since(*old(self), *self) =~= e);
            assert forall|depth: nat, rest: Seq<ResolverCall>|
                selections_within(
                    old(self).document@,
                    selection_set@.items,
                    selection_set@.items.len() as int,
                    Seq::empty(),
                    depth,
                ) implies #[trigger] run_selection_set(
                old(self).scope(),
                depth,
                old(self).introspecting,
                selection_set@.items,
                object_type@,
                optional_model(*object_value),
                t + rest,
            ) == Some(SetRun { value: value@, errors: e, rest }) by {
                assert(run_selection_set(
                    old(self).scope(),
                    given,
                    old(self).introspecting,
                    selection_set@.items,
                    object_type@,
                    optional_model(*object_value),
                    t + rest,
                ) == Some(SetRun { value: value@, errors: e, rest }));
                lemma_selection_set_within(
                    old(self).scope(),
                    given,
                    depth,
                    old(self).introspecting,
                    selection_set@.items,
                    object_type@,
                    optional_model(*object_value),
                    t + rest,
                );
            }
        }
        value
    }

    /// Ensures that a value matches the expected return type: completes the
    /// resolved value of the group `fields`, whose first field is `field`,
    /// against the declared type.
    ///
    /// Returns the completed value or the error of the field. The errors
    /// raised beneath the field are added to those of the execution.
    pub fn complete_value(
        &mut self,
        field: &Field,
        field_type: &'a Type,
        fields: &Vec<Field>,
        resolved_value: Value,
    ) -> (completed: Result<Value, ExecutionError>)
        requires
            exists|depth: nat| group_within(old(self).document@, models(fields@), depth),
        ensures
            Self::advanced(
                *old(self),
                *final(self),
                Self::calls_since(*old(self), *final(self)),
                Self::errors_since(*old(self), *final(self)),
            ),
            forall|depth: nat, rest: Seq<ResolverCall>|
                group_within(old(self).document@, models(fields@), depth) ==> #[trigger] complete(
                    old(self).scope(),
                    depth,
                    old(self).introspecting,
                    field@,
                    field_type@,
                    models(fields@),
                    resolved_value@,
                    Self::calls_since(*old(self), *final(self)) + rest,
                ) == Some(
                    FieldRun {
                        result: outcome(completed),
                        errors: Self::errors_since(*old(self), *final(self)),
                        rest,
                    },
                ),
    {
        let ghost given = choose|depth: nat|
            group_within(old(self).document@, models(fields@), depth);
        let ghost value = resolved_value@;
        let (completed, Ghost(t), Ghost(e)) = self.complete_value_within(
            field,
            field_type,
            fields,
            resolved_value,
            Ghost(given),
        );
        proof {
            assert(Self::calls_since(*old(self), *self) =~= t);
            assert(Self::errors_since(*old(self), *self) =~= e);
            assert forall|depth: nat, rest: Seq<ResolverCall>|
                group_within(
                    old(self).document@,
                    models(fields@),
                    depth,
                ) implies #[trigger] complete(
                old(self).scope(),
                depth,
                old(self).introspecting,
                field@,
                field_type@,
                models(fields@),
                value,
                t + rest,
            ) == Some(FieldRun { result: outcome(completed), errors: e, rest }) by {
                assert(complete(
                    old(self).scope(),
                    given,
                    old(self).introspecting,
                    field@,
                    field_type@,
                    models(fields@),
                    value,
                    t + rest,
                ) == Some(FieldRun { result: outcome(completed), errors: e, rest }));
                lemma_complete_within(
                    old(self).scope(),
                    given,
                    depth,
                    old(self).introspecting,
                    field@,
                    field_type@,
                    models(fields@),
                    value,
                    t + rest,
                );
            }
        }
        completed
    }

    /// Executes a field: the group `fields` of one response key, whose first
    /// field is `field`, under the definition of the field.
    ///
    /// The arguments of the first field are coerced, the field is resolved and
    /// the value is completed. Returns the value or the error of the field.
    /// The errors raised beneath the field are added to those of the
    /// execution.
    pub fn execute_field(
        &mut self,
        object_type: &'a ObjectType,
        object_value: &Option<Value>,
        field: &Field,
        field_definition: &'a FieldDefinition,
        fields: &Vec<Field>,
    ) -> (executed: Result<Value, ExecutionError>)
        requires
            field@ == fields[0]@,
            exists|depth: nat| group_within(old(self).document@, models(fields@), depth),
        ensures
            Self::advanced(
                *old(self),
                *final(self),
                Self::calls_since(*old(self), *final(self)),
                Self::errors_since(*old(self), *final(self)),
            ),
            forall|depth: nat, rest: Seq<ResolverCall>|
                group_within(old(self).document@, models(fields@), depth) ==> #[trigger] run_field(
                    old(self).scope(),
                    depth,
                    old(self).introspecting,
                    optional_model(*object_value),
                    models(fields@),
                    field_definition@,
                    Self::calls_since(*old(self), *final(self)) + rest,
                ) == Some(
                    FieldRun {
                        result: outcome(executed),
                        errors: Self::errors_since(*old(self), *final(self)),
                        rest,
                    },
                ),
    {
        let ghost given = choose|depth: nat|
            group_within(old(self).document@, models(fields@), depth);
        let (executed, Ghost(t), Ghost(e)) = self.execute_field_within(
            object_type,
            object_value,
            field,
            field_definition,
            fields,
            Ghost(given),
        );
        proof {
            assert(Self::calls_since(*old(self), *self) =~= t);
            assert(Self::errors_since(*old(self), *self) =~= e);
            assert forall|depth: nat, rest: Seq<ResolverCall>|
                group_within(
                    old(self).document@,
                    models(fields@),
                    depth,
                ) implies #[trigger] run_field(
                old(self).scope(),
                depth,
                old(self).introspecting,
                optional_model(*object_value),
                models(fields@),
                field_definition@,
                t + rest,
            ) == Some(FieldRun { result: outcome(executed), errors: e, rest }) by {
                assert(run_field(
                    old(self).scope(),
                    given,
                    old(self).introspecting,
                    optional_model(*object_value),
                    models(fields@),
                    field_definition@,
                    t + rest,
                ) == Some(FieldRun { result: outcome(executed), errors: e, rest }));
                lemma_field_within(
                    old(self).scope(),
                    given,
                    depth,
                    old(self).introspecting,
                    optional_model(*object_value),
                    models(fields@),
                    field_definition@,
                    t + rest,
                );
            }
        }
        executed
    }

    /// The calls made between two states of an execution.
    pub open spec fn calls_since(before: Self, after: Self) -> Seq<ResolverCall> {
        after.calls@.skip(before.calls@.len() as int)
    }

    /// The errors raised between two states of an execution.
    pub open spec fn errors_since(before: Self, after: Self) -> Seq<ErrorModel> {
        models(after.errors@).skip(before.errors@.len() as int)
    }
}

} // verus!
