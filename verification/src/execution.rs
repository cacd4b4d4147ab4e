//! The execution of selection sets against a schema.
use vstd::prelude::*;
use indexmap::IndexMap;
use std::sync::Arc;
use crate::ast::{
    get_argument_value, get_fragment, get_response_key, include_selection,
    lemma_selection_set_view, skip_selection, Document, DocumentModel, Field, FieldModel,
    Selection, SelectionModel, SelectionSet,
};
use crate::coercion::{coerce, coerce_value};
use crate::error::{ErrorModel, ExecutionError};
use crate::fields::{
    collect, lemma_spread_decreases, merge_groups, type_applies, unvisited_count, Collected,
};
use crate::groups::{
    add_to_group, clone_fields, grouped, groups_entries, groups_new, groups_view,
};
use crate::resolver::{Resolver, ResolverCall};
use crate::schema::{
    get_field_type, get_named_type, get_root_query_type, object_type_eq, FieldDefinition,
    InputValue, InputValueModel, ObjectType, ObjectTypeModel, SchemaDocument, SchemaModel, Type,
    TypeDefinition,
};
use crate::semantics::{
    coerce_arguments, field_definition_for, merged_items, merged_span, upsert,
};
use crate::util::{contains_name, lemma_first_match_at, models};
use crate::value::{entries_view, entry_keyed, Value, ValueModel};

verus! {

/// The state of one execution: the schemas and the document it reads, the two
/// resolvers it asks, and what it has gathered so far.
pub struct Execution<'a, R1: Resolver, R2: Resolver> {
    /// The schema to execute the query against.
    pub schema: &'a SchemaDocument,
    /// The schema that describes the meta-fields.
    pub introspection_schema: &'a SchemaDocument,
    /// The query document to execute.
    pub document: &'a Document,
    /// The resolver asked for data.
    pub resolver: Arc<R1>,
    /// The resolver asked for what the meta-fields describe.
    pub introspection_resolver: Arc<R2>,
    /// The fields that are being executed, outermost first.
    pub fields: Vec<Field>,
    /// Whether the field being executed lies under a meta-field.
    pub introspecting: bool,
    /// The errors raised so far, in the order of execution.
    pub errors: Vec<ExecutionError>,
    /// The calls made to the two resolvers so far, in order.
    pub calls: Ghost<Seq<ResolverCall>>,
}

/// What an execution reads and never changes.
pub struct Scope {
    pub document: DocumentModel,
    pub schema: SchemaModel,
    pub introspection_schema: SchemaModel,
}

impl Scope {
    /// The schema in which types are looked up: the introspection schema under
    /// a meta-field, the query's schema elsewhere.
    pub open spec fn active(self, introspecting: bool) -> SchemaModel {
        if introspecting {
            self.introspection_schema
        } else {
            self.schema
        }
    }
}

impl<'a, R1: Resolver, R2: Resolver> Execution<'a, R1, R2> {
    /// Creates the state for one execution: no field open, no error, no call
    /// made, and not under a meta-field.
    pub fn new(
        schema: &'a SchemaDocument,
        introspection_schema: &'a SchemaDocument,
        document: &'a Document,
        resolver: Arc<R1>,
        introspection_resolver: Arc<R2>,
    ) -> (execution: Self)
        ensures
            execution.scope() == (Scope {
                document: document@,
                schema: schema@,
                introspection_schema: introspection_schema@,
            }),
            execution.schema == schema,
            execution.introspection_schema == introspection_schema,
            execution.document == document,
            execution.resolver == resolver,
            execution.introspection_resolver == introspection_resolver,
            execution.fields@.len() == 0,
            execution.errors@.len() == 0,
            execution.calls@.len() == 0,
            !execution.introspecting,
    {
        Execution {
            schema,
            introspection_schema,
            document,
            resolver,
            introspection_resolver,
            fields: Vec::new(),
            introspecting: false,
            errors: Vec::new(),
            calls: Ghost(Seq::empty()),
        }
    }

    /// What this execution reads.
    pub open spec fn scope(&self) -> Scope {
        Scope {
            document: self.document@,
            schema: self.schema@,
            introspection_schema: self.introspection_schema@,
        }
    }

    /// The schema in which types are looked up at this point.
    pub fn active_schema(&self) -> (schema: &'a SchemaDocument)
        ensures
            schema@ == self.scope().active(self.introspecting),
    {
        if self.introspecting {
            self.introspection_schema
        } else {
            self.schema
        }
    }

    /// Determines whether a fragment on the type named `fragment_type` applies
    /// to `object_type`.
    pub fn does_fragment_type_apply(&self, object_type: &ObjectType, fragment_type: &String) -> (
        applies: bool
    )
        ensures
            applies == type_applies(
                self.scope().active(self.introspecting),
                object_type@,
                fragment_type@,
            ),
    {
        match get_named_type(self.active_schema(), fragment_type) {
            Some(TypeDefinition::Object(t)) => object_type_eq(object_type, t),
            Some(TypeDefinition::Interface(t)) => contains_name(
                &object_type.implements_interfaces,
                &t.name,
            ),
            Some(TypeDefinition::Union(t)) => contains_name(&t.types, &object_type.name),
            _ => false,
        }
    }

    /// Collects the fields of a selection set into groups by response key, for
    /// an object of type `object_type`. `visited_fragments` names the
    /// fragments that are not to be expanded.
    pub fn collect_fields(
        &self,
        object_type: &ObjectType,
        selection_set: &SelectionSet,
        visited_fragments: Option<Vec<String>>,
    ) -> (collected: Result<IndexMap<String, Vec<Field>>, ExecutionError>)
        ensures
            match collected {
                Ok(map) => collected_as(
                    collect(
                        self.document@,
                        self.scope().active(self.introspecting),
                        object_type@,
                        selection_set@.items,
                        selection_set@.items.len() as int,
                        visited_names(visited_fragments),
                    ),
                    groups_view(grouped(map)),
                ),
                Err(e) => collect(
                    self.document@,
                    self.scope().active(self.introspecting),
                    object_type@,
                    selection_set@.items,
                    selection_set@.items.len() as int,
                    visited_names(visited_fragments),
                ) == Err::<Collected, _>(e@),
            },
    {
        let mut visited = match visited_fragments {
            Some(names) => names,
            None => Vec::new(),
        };
        proof {
            assert(models(visited@) =~= visited_names(visited_fragments));
        }
        self.collect_into(object_type, selection_set, &mut visited)
    }

    /// Collects the fields of a selection set into groups, and adds to
    /// `visited` the names of the fragments that it visits.
    fn collect_into(
        &self,
        object_type: &ObjectType,
        selection_set: &SelectionSet,
        visited: &mut Vec<String>,
    ) -> (collected: Result<IndexMap<String, Vec<Field>>, ExecutionError>)
        ensures
            match collected {
                Ok(map) => {
                    let found = collect(
                        self.document@,
                        self.scope().active(self.introspecting),
                        object_type@,
                        selection_set@.items,
                        selection_set@.items.len() as int,
                        models(old(visited)@),
                    );
                    &&& collected_as(found, groups_view(grouped(map)))
                    &&& models(final(visited)@) == models(old(visited)@) + found->Ok_0.added
                },
                Err(e) => collect(
                    self.document@,
                    self.scope().active(self.introspecting),
                    object_type@,
                    selection_set@.items,
                    selection_set@.items.len() as int,
                    models(old(visited)@),
                ) == Err::<Collected, _>(e@),
            },
        decreases unvisited_count(self.document@.fragments, models(old(visited)@)),
    {
        let ghost start = models(visited@);
        let ghost selections = selection_set@.items;
        let ghost schema = self.scope().active(self.introspecting);
        let ghost mut added: Seq<Seq<char>> = Seq::empty();
        let mut map = groups_new();
        proof {
            lemma_selection_set_view(*selection_set);
            assert(groups_view(grouped(map)) =~= Seq::empty());
            assert(start + added =~= start);
        }
        let mut i: usize = 0;
        while i < selection_set.items.len()
            invariant
                i <= selection_set.items.len(),
                selections == models(selection_set.items@),
                selections == selection_set@.items,
                schema == self.scope().active(self.introspecting),
                start == models(old(visited)@),
                models(visited@) == start + added,
                collect(self.document@, schema, object_type@, selections, i as int, start) == Ok::<
                    _,
                    ErrorModel,
                >(Collected { groups: groups_view(grouped(map)), added }),
            decreases selection_set.items.len() - i,
        {
            let selection = &selection_set.items[i];
            assert(selections[i as int] == selection@);
            let ghost seen = models(visited@);
            let ghost groups = groups_view(grouped(map));
            if !skip_selection(selection) && include_selection(selection) {
                match selection {
                    Selection::Field(field) => {
                        let mut group: Vec<Field> = Vec::new();
                        group.push(field.clone());
                        proof {
                            assert(models(group@) =~= seq![field@]);
                        }
                        add_to_group(&mut map, get_response_key(field).clone(), group);
                    },
                    Selection::InlineFragment(_) => {
                        proof {
                            lemma_collect_stops(
                                self.document@,
                                schema,
                                object_type@,
                                selections,
                                i as int + 1,
                                start,
                            );
                        }
                        return Err(
                            ExecutionError::NotSupported(
                                "Inline fragments are not supported".to_owned(),
                            ),
                        );
                    },
                    Selection::FragmentSpread(spread) => {
                        if !contains_name(visited, &spread.fragment_name) {
                            visited.push(spread.fragment_name.clone());
                            let ghost marked = added.push(spread.fragment_name@);
                            proof {
                                assert(models(visited@) =~= seen.push(spread.fragment_name@));
                                assert(models(visited@) =~= start + marked);
                            }
                            let mut expanded = false;
                            match get_fragment(self.document, &spread.fragment_name) {
                                Some(fragment) => {
                                    if self.does_fragment_type_apply(
                                        object_type,
                                        &fragment.type_condition,
                                    ) {
                                        expanded = true;
                                        proof {
                                            lemma_spread_decreases(
                                                self.document@,
                                                start,
                                                added,
                                                spread.fragment_name@,
                                            );
                                        }
                                        let inner = self.collect_into(
                                            object_type,
                                            &fragment.selection_set,
                                            visited,
                                        );
                                        match inner {
                                            Err(e) => {
                                                proof {
                                                    lemma_collect_stops(
                                                        self.document@,
                                                        schema,
                                                        object_type@,
                                                        selections,
                                                        i as int + 1,
                                                        start,
                                                    );
                                                }
                                                return Err(e);
                                            },
                                            Ok(more) => {
                                                let ghost inner_found = collect(
                                                    self.document@,
                                                    schema,
                                                    object_type@,
                                                    fragment@.selection_set.items,
                                                    fragment@.selection_set.items.len() as int,
                                                    seen.push(spread.fragment_name@),
                                                )->Ok_0;
                                                let entries = groups_entries(more);
                                                let ghost found = groups_view(entries@);
                                                let mut j: usize = 0;
                                                while j < entries.len()
                                                    invariant
                                                        j <= entries.len(),
                                                        found == groups_view(entries@),
                                                        groups_view(grouped(map)) == merge_groups(
                                                            groups,
                                                            found,
                                                            j as int,
                                                        ),
                                                    decreases entries.len() - j,
                                                {
                                                    add_to_group(
                                                        &mut map,
                                                        entries[j].0.clone(),
                                                        clone_fields(&entries[j].1),
                                                    );
                                                    j += 1;
                                                }
                                                proof {
                                                    assert(models(visited@) =~= start + (marked
                                                        + inner_found.added));
                                                    added = marked + inner_found.added;
                                                }
                                            },
                                        }
                                    }
                                },
                                None => {},
                            }
                            proof {
                                if !expanded {
                                    added = marked;
                                }
                            }
                        }
                    },
                }
            }
            i += 1;
        }
        Ok(map)
    }
}

/// The model of what a field gave: its value or its error.
pub open spec fn outcome(result: Result<Value, ExecutionError>) -> Result<ValueModel, ErrorModel> {
    match result {
        Ok(v) => Ok(v@),
        Err(e) => Err(e@),
    }
}

/// Puts `value` under `name`: in the place of the first argument of that name,
/// or as a new last argument when there is none.
pub fn set_argument(arguments: &mut Vec<(String, Value)>, name: String, value: Value)
    ensures
        entries_view(final(arguments)@) == upsert(entries_view(old(arguments)@), name@, value@),
{
    let ghost before = entries_view(arguments@);
    let mut i: usize = 0;
    while i < arguments.len()
        invariant
            i <= arguments.len(),
            before == entries_view(arguments@),
            before == entries_view(old(arguments)@),
            forall|j: int| 0 <= j < i ==> !entry_keyed(name@)(#[trigger] before[j]),
        decreases arguments.len() - i,
    {
        if arguments[i].0 == name {
            proof {
                lemma_first_match_at(before, entry_keyed(name@), i as int);
            }
            arguments.set(i, (name, value));
            assert(entries_view(arguments@) =~= upsert(before, name@, value@));
            return ;
        }
        i += 1;
    }
    proof {
        lemma_first_match_at(before, entry_keyed(name@), i as int);
    }
    arguments.push((name, value));
    assert(entries_view(arguments@) =~= upsert(before, name@, value@));
}

impl<'a, R1: Resolver, R2: Resolver> Execution<'a, R1, R2> {
    /// Merges the selection sets of several fields into a single selection
    /// set: the selections of each field in turn, under the span that covers
    /// them all.
    pub fn merge_selection_sets(fields: &Vec<Field>) -> (merged: SelectionSet)
        requires
            fields.len() > 0,
        ensures
            merged@.items == merged_items(models(fields@), fields.len() as int),
            merged@.span == merged_span(models(fields@), fields.len() as int),
    {
        let mut span = fields[0].selection_set.span;
        let mut items: Vec<Selection> = Vec::new();
        let mut i: usize = 0;
        while i < fields.len()
            invariant
                i <= fields.len(),
                fields.len() > 0,
                models(items@) == merged_items(models(fields@), i as int),
                span == merged_span(models(fields@), i as int),
            decreases fields.len() - i,
        {
            let set = &fields[i].selection_set;
            proof {
                lemma_selection_set_view(*set);
                assert(models(fields@)[i as int] == fields[i as int]@);
            }
            if i > 0 {
                span = (span.0.earliest(set.span.0), span.1.latest(set.span.1));
            }
            let ghost before = models(items@);
            let mut j: usize = 0;
            while j < set.items.len()
                invariant
                    j <= set.items.len(),
                    models(items@) == before + models(set.items@).take(j as int),
                decreases set.items.len() - j,
            {
                let ghost sofar = models(items@);
                let item = set.items[j].clone();
                items.push(item);
                proof {
                    assert(models(items@) =~= sofar.push(item@));
                    assert(models(set.items@).take(j as int + 1) =~= models(set.items@).take(
                        j as int,
                    ).push(set.items[j as int]@));
                    assert(models(items@) =~= before + models(set.items@).take(j as int + 1));
                }
                j += 1;
            }
            proof {
                assert(models(set.items@).take(j as int) =~= models(set.items@));
            }
            i += 1;
        }
        let merged = SelectionSet { span, items };
        proof {
            lemma_selection_set_view(merged);
        }
        merged
    }

    /// Coerces a single argument value to the declared type of its argument.
    pub fn coerce_argument_value(&self, field: &Field, argument: &InputValue, value: &Value) -> (
        coerced: Result<Value, ExecutionError>
    )
        ensures
            match coerced {
                Ok(v) => coerce(
                    self.scope().active(self.introspecting),
                    value@,
                    argument@.value_type,
                ) == Some(v@),
                Err(e) => coerce(
                    self.scope().active(self.introspecting),
                    value@,
                    argument@.value_type,
                ).is_none() && e@ == ErrorModel::InvalidArgumentError(
                    field@.position,
                    argument@.name,
                    value@,
                ),
            },
    {
        match coerce_value(value, &argument.value_type, self.active_schema()) {
            Some(v) => Ok(v),
            None => Err(
                ExecutionError::InvalidArgumentError(
                    field.position,
                    argument.name.clone(),
                    value.clone(),
                ),
            ),
        }
    }

    /// Coerces the arguments of `field` against the argument definitions of
    /// `field_definition`.
    pub fn coerce_argument_values(&self, field_definition: &FieldDefinition, field: &Field) -> (
        coerced: Result<Vec<(String, Value)>, ExecutionError>
    )
        ensures
            match coerced {
                Ok(arguments) => coerce_arguments(
                    self.scope().active(self.introspecting),
                    field_definition@.arguments,
                    field_definition@.arguments.len() as int,
                    field@,
                ) == Ok::<_, ErrorModel>(entries_view(arguments@)),
                Err(e) => coerce_arguments(
                    self.scope().active(self.introspecting),
                    field_definition@.arguments,
                    field_definition@.arguments.len() as int,
                    field@,
                ) == Err::<Seq<(Seq<char>, ValueModel)>, _>(e@),
            },
    {
        let ghost schema = self.scope().active(self.introspecting);
        let ghost definitions = field_definition@.arguments;
        let mut coerced_values: Vec<(String, Value)> = Vec::new();
        proof {
            assert(entries_view(coerced_values@) =~= Seq::empty());
        }
        let mut i: usize = 0;
        while i < field_definition.arguments.len()
            invariant
                i <= field_definition.arguments.len(),
                schema == self.scope().active(self.introspecting),
                definitions == field_definition@.arguments,
                coerce_arguments(schema, definitions, i as int, field@) == Ok::<_, ErrorModel>(
                    entries_view(coerced_values@),
                ),
            decreases field_definition.arguments.len() - i,
        {
            let argument = &field_definition.arguments[i];
            assert(definitions[i as int] == argument@);
            let failed: Option<ExecutionError> = match get_argument_value(
                &field.arguments,
                &argument.name,
            ) {
                Some(Value::Variable(_)) => Some(
                    ExecutionError::NotSupported(
                        "Variables are not supported as argument values".to_owned(),
                    ),
                ),
                Some(v) => match self.coerce_argument_value(field, argument, v) {
                    Ok(coerced) => {
                        set_argument(&mut coerced_values, argument.name.clone(), coerced);
                        None
                    },
                    Err(e) => Some(e),
                },
                None => match &argument.default_value {
                    Some(default) => {
                        set_argument(&mut coerced_values, argument.name.clone(), default.clone());
                        None
                    },
                    None => match &argument.value_type {
                        Type::NonNullType(_) => Some(
                            ExecutionError::MissingArgumentError(
                                field.position,
                                argument.name.clone(),
                            ),
                        ),
                        _ => None,
                    },
                },
            };
            match failed {
                Some(e) => {
                    proof {
                        assert(coerce_arguments(schema, definitions, i as int + 1, field@) == Err::<
                            Seq<(Seq<char>, ValueModel)>,
                            _,
                        >(e@));
                        lemma_coercion_stops(schema, definitions, i as int + 1, field@);
                    }
                    return Err(e);
                },
                None => {},
            }
            i += 1;
        }
        Ok(coerced_values)
    }

    /// Looks up the definition under which the field `name` of `object_type`
    /// is executed, and whether its sub-tree lies under a meta-field.
    pub fn get_field_type(&self, object_type: &'a ObjectType, name: &String) -> (found: Option<
        (&'a FieldDefinition, bool),
    >)
        ensures
            match found {
                Some((definition, under_meta)) => field_definition_for(
                    self.scope(),
                    self.introspecting,
                    object_type@,
                    name@,
                ) == Some((definition@, under_meta)),
                None => field_definition_for(
                    self.scope(),
                    self.introspecting,
                    object_type@,
                    name@,
                ).is_none(),
            },
    {
        let on_root = match get_root_query_type(self.schema) {
            Some(root) => object_type_eq(object_type, root),
            None => false,
        };
        if on_root {
            match get_root_query_type(self.introspection_schema) {
                Some(meta_root) => match get_field_type(meta_root, name) {
                    Some(definition) => {
                        return Some((definition, true));
                    },
                    None => {},
                },
                None => {},
            }
        }
        match get_field_type(object_type, name) {
            Some(definition) => Some((definition, self.introspecting)),
            None => None,
        }
    }
}

/// Once the coercion of arguments has stopped with an error, further
/// definitions do not change that.
pub proof fn lemma_coercion_stops(
    schema: SchemaModel,
    definitions: Seq<InputValueModel>,
    upto: int,
    field: FieldModel,
)
    requires
        0 <= upto <= definitions.len(),
        coerce_arguments(schema, definitions, upto, field).is_err(),
    ensures
        coerce_arguments(schema, definitions, definitions.len() as int, field) == coerce_arguments(
            schema,
            definitions,
            upto,
            field,
        ),
    decreases definitions.len() - upto,
{
    if upto < definitions.len() {
        assert(coerce_arguments(schema, definitions, upto + 1, field) == coerce_arguments(
            schema,
            definitions,
            upto,
            field,
        ));
        lemma_coercion_stops(schema, definitions, upto + 1, field);
    }
}

/// The names in an optional list of visited fragments; none when there is no
/// list.
pub open spec fn visited_names(visited: Option<Vec<String>>) -> Seq<Seq<char>> {
    match visited {
        Some(names) => models(names@),
        None => Seq::empty(),
    }
}

/// Whether a collection succeeded with the groups `groups`.
pub open spec fn collected_as(
    found: Result<Collected, ErrorModel>,
    groups: Seq<(Seq<char>, Seq<FieldModel>)>,
) -> bool {
    found is Ok && found->Ok_0.groups == groups
}

/// Once the collection has stopped with an error, further selections do not
/// change that.
pub proof fn lemma_collect_stops(
    document: DocumentModel,
    schema: SchemaModel,
    object_type: ObjectTypeModel,
    selections: Seq<SelectionModel>,
    upto: int,
    visited: Seq<Seq<char>>,
)
    requires
        0 <= upto <= selections.len(),
        collect(document, schema, object_type, selections, upto, visited).is_err(),
    ensures
        collect(document, schema, object_type, selections, selections.len() as int, visited)
            == collect(document, schema, object_type, selections, upto, visited),
    decreases selections.len() - upto,
{
    if upto < selections.len() {
        assert(collect(document, schema, object_type, selections, upto + 1, visited) == collect(
            document,
            schema,
            object_type,
            selections,
            upto,
            visited,
        ));
        lemma_collect_stops(document, schema, object_type, selections, upto + 1, visited);
    }
}

} // verus!
