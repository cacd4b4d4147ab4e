//! What an execution computes, stated over models.
//!
//! The engine expects nothing of what a resolver answers, so the result of an
//! execution is a function of the answers as much as of the query. The
//! functions here read a trace, the calls made to the resolvers in order:
//! each takes from the front of the trace the calls that the engine makes for
//! its part of the query, each with the request that the engine must have
//! made, and returns what the engine produces for the answers recorded there
//! together with the rest of the trace. They return `None` for a trace that
//! does not start with those calls, and where fields nest deeper than the
//! depth they are given.
use vstd::prelude::*;
use crate::ast::{FieldModel, SelectionModel};
use crate::coercion::coerce;
use crate::error::ErrorModel;
use crate::execution::Scope;
use crate::fields::collect;
use crate::position::Position;
use crate::resolver::{Answer, Request, ResolverCall};
use crate::schema::{
    FieldDefinitionModel, InputValueModel, ObjectTypeModel, SchemaModel, TypeDefinitionModel,
    TypeModel,
};
use crate::util::first_match;
use crate::value::{entry_keyed, entry_value, ValueModel};

verus! {

/// `entries` with `value` under `key`: in the place of the first entry of
/// that name, or as a new last entry when there is none.
pub open spec fn upsert(
    entries: Seq<(Seq<char>, ValueModel)>,
    key: Seq<char>,
    value: ValueModel,
) -> Seq<(Seq<char>, ValueModel)> {
    let at = first_match(entries, entry_keyed(key));
    if at < entries.len() {
        entries.update(at, (key, value))
    } else {
        entries.push((key, value))
    }
}

/// The text of the error raised for an argument given as a variable.
pub open spec fn variable_message() -> Seq<char> {
    "Variables are not supported as argument values"@
}

/// The text of the error raised for a field whose declared type is an
/// interface, a union or an input object.
pub open spec fn field_type_message() -> Seq<char> {
    "Only fields of object, enum and scalar types can be resolved"@
}

/// The text of the error raised for a field whose declared type is a list of
/// lists.
pub open spec fn nested_list_message() -> Seq<char> {
    "Lists of lists are not supported"@
}

/// The text of the error raised for a value of an input object type.
pub open spec fn input_object_message() -> Seq<char> {
    "Values of input object types cannot be completed"@
}

/// The field definition under which the field `name` of an object of type
/// `object_type` is executed, and whether its sub-tree lies under a
/// meta-field.
///
/// On the root query type of the query's schema, a field of the root query
/// type of the introspection schema comes first, and what lies under it is
/// under a meta-field. Any other field is looked up on `object_type` itself
/// and stays where its parent was.
pub open spec fn field_definition_for(
    scope: Scope,
    introspecting: bool,
    object_type: ObjectTypeModel,
    name: Seq<char>,
) -> Option<(FieldDefinitionModel, bool)> {
    let meta = if scope.schema.root_query_type() == Some(object_type) {
        match scope.introspection_schema.root_query_type() {
            Some(root) => root.field(name),
            None => None,
        }
    } else {
        None
    };
    match meta {
        Some(definition) => Some((definition, true)),
        None => match object_type.field(name) {
            Some(definition) => Some((definition, introspecting)),
            None => None,
        },
    }
}

/// The arguments of `field` coerced against the first `upto` of
/// `definitions`, under their names, or the error that stops the coercion.
///
/// For each definition in turn: a variable is refused; a literal is coerced to
/// the declared type and refused when it cannot be; without a literal the
/// default literal is taken as it stands, and without a default either a
/// non-null argument is missing and any other is left out.
pub open spec fn coerce_arguments(
    schema: SchemaModel,
    definitions: Seq<InputValueModel>,
    upto: int,
    field: FieldModel,
) -> Result<Seq<(Seq<char>, ValueModel)>, ErrorModel>
    decreases upto,
{
    if upto <= 0 {
        Ok(Seq::empty())
    } else {
        match coerce_arguments(schema, definitions, upto - 1, field) {
            Err(e) => Err(e),
            Ok(arguments) => {
                let definition = definitions[upto - 1];
                match entry_value(field.arguments, definition.name) {
                    Some(ValueModel::Variable(_)) => Err(
                        ErrorModel::NotSupported(variable_message()),
                    ),
                    Some(literal) => match coerce(schema, literal, definition.value_type) {
                        Some(coerced) => Ok(upsert(arguments, definition.name, coerced)),
                        None => Err(
                            ErrorModel::InvalidArgumentError(
                                field.position,
                                definition.name,
                                literal,
                            ),
                        ),
                    },
                    None => match definition.default_value {
                        Some(default) => Ok(upsert(arguments, definition.name, default)),
                        None => if definition.value_type is NonNullType {
                            Err(ErrorModel::MissingArgumentError(field.position, definition.name))
                        } else {
                            Ok(arguments)
                        },
                    },
                }
            },
        }
    }
}

/// What resolving a field gives: its value or its error, and the rest of the
/// trace.
pub struct Resolved {
    pub result: Result<ValueModel, ErrorModel>,
    pub rest: Seq<ResolverCall>,
}

/// The value that the first call of `trace` answers, when that call asks the
/// resolver chosen by `introspection` for exactly `request`.
pub open spec fn asked(trace: Seq<ResolverCall>, introspection: bool, request: Request) -> Option<
    Resolved,
> {
    if trace.len() > 0 && trace[0].introspection == introspection && trace[0].request == request {
        match trace[0].answer {
            Answer::Value(v) => Some(Resolved { result: Ok(v), rest: trace.skip(1) }),
            Answer::ObjectType(_) => None,
        }
    } else {
        None
    }
}

/// A result for which no resolver is asked.
pub open spec fn unasked(result: Result<ValueModel, ErrorModel>, trace: Seq<ResolverCall>) -> Option<
    Resolved,
> {
    Some(Resolved { result, rest: trace })
}

/// The sub-field of a parent object that an enum or scalar field is resolved
/// from, when the parent is an object.
pub open spec fn sub_field(parent: Option<ValueModel>, name: Seq<char>) -> Option<
    Option<ValueModel>,
> {
    match parent {
        Some(ValueModel::Object(entries)) => Some(entry_value(entries, name)),
        _ => None,
    }
}

/// Resolving a field whose declared type, non-null wrappers apart, is the type
/// named `name`.
///
/// An object type asks the resolver for the object. An enum or scalar type
/// asks it for the value of the field's name in the parent object, and gives
/// `Null` without asking when the parent is no object. An unknown name and any
/// other kind of type are errors, and nothing is asked.
pub open spec fn resolve_named(
    scope: Scope,
    introspecting: bool,
    parent: Option<ValueModel>,
    field: FieldModel,
    definition: FieldDefinitionModel,
    name: Seq<char>,
    arguments: Seq<(Seq<char>, ValueModel)>,
    trace: Seq<ResolverCall>,
) -> Option<Resolved> {
    match scope.active(introspecting).named_type(name) {
        None => unasked(Err(ErrorModel::NamedTypeError(name)), trace),
        Some(TypeDefinitionModel::Object(t)) => asked(
            trace,
            introspecting,
            Request::Object {
                parent,
                field: field.name,
                definition,
                object_type: t,
                arguments,
            },
        ),
        Some(TypeDefinitionModel::Enum(t)) => match sub_field(parent, field.name) {
            Some(value) => asked(trace, introspecting, Request::EnumValue { enum_type: t, value }),
            None => unasked(Ok(ValueModel::Null), trace),
        },
        Some(TypeDefinitionModel::Scalar(t)) => match sub_field(parent, field.name) {
            Some(value) => asked(
                trace,
                introspecting,
                Request::ScalarValue { scalar_type: t, value },
            ),
            None => unasked(Ok(ValueModel::Null), trace),
        },
        Some(_) => unasked(Err(ErrorModel::NotSupported(field_type_message())), trace),
    }
}

/// Resolving a field whose declared type is a list of the type named `name`:
/// as `resolve_named`, through the resolver's entry points for lists.
pub open spec fn resolve_listed(
    scope: Scope,
    introspecting: bool,
    parent: Option<ValueModel>,
    field: FieldModel,
    definition: FieldDefinitionModel,
    name: Seq<char>,
    arguments: Seq<(Seq<char>, ValueModel)>,
    trace: Seq<ResolverCall>,
) -> Option<Resolved> {
    match scope.active(introspecting).named_type(name) {
        None => unasked(Err(ErrorModel::NamedTypeError(name)), trace),
        Some(TypeDefinitionModel::Object(t)) => asked(
            trace,
            introspecting,
            Request::Objects {
                parent,
                field: field.name,
                definition,
                object_type: t,
                arguments,
            },
        ),
        Some(TypeDefinitionModel::Enum(t)) => match sub_field(parent, field.name) {
            Some(value) => asked(
                trace,
                introspecting,
                Request::EnumValues { enum_type: t, value },
            ),
            None => unasked(Ok(ValueModel::Null), trace),
        },
        Some(TypeDefinitionModel::Scalar(t)) => match sub_field(parent, field.name) {
            Some(value) => asked(
                trace,
                introspecting,
                Request::ScalarValues { scalar_type: t, value },
            ),
            None => unasked(Ok(ValueModel::Null), trace),
        },
        Some(_) => unasked(Err(ErrorModel::NotSupported(field_type_message())), trace),
    }
}

/// Resolving a field whose declared type is a list of `inner`: non-null
/// wrappers are looked through, and a list of lists is an error.
pub open spec fn resolve_list(
    scope: Scope,
    introspecting: bool,
    parent: Option<ValueModel>,
    field: FieldModel,
    definition: FieldDefinitionModel,
    inner: TypeModel,
    arguments: Seq<(Seq<char>, ValueModel)>,
    trace: Seq<ResolverCall>,
) -> Option<Resolved>
    decreases inner,
{
    match inner {
        TypeModel::NonNullType(t) => resolve_list(
            scope,
            introspecting,
            parent,
            field,
            definition,
            *t,
            arguments,
            trace,
        ),
        TypeModel::NamedType(name) => resolve_listed(
            scope,
            introspecting,
            parent,
            field,
            definition,
            name,
            arguments,
            trace,
        ),
        TypeModel::ListType(_) => unasked(
            Err(ErrorModel::NotSupported(nested_list_message())),
            trace,
        ),
    }
}

/// Resolving a field of declared type `ty`: a non-null wrapper is looked
/// through, a named type and a list type go their own ways.
pub open spec fn resolve(
    scope: Scope,
    introspecting: bool,
    parent: Option<ValueModel>,
    field: FieldModel,
    definition: FieldDefinitionModel,
    ty: TypeModel,
    arguments: Seq<(Seq<char>, ValueModel)>,
    trace: Seq<ResolverCall>,
) -> Option<Resolved>
    decreases ty,
{
    match ty {
        TypeModel::NonNullType(t) => resolve(
            scope,
            introspecting,
            parent,
            field,
            definition,
            *t,
            arguments,
            trace,
        ),
        TypeModel::NamedType(name) => resolve_named(
            scope,
            introspecting,
            parent,
            field,
            definition,
            name,
            arguments,
            trace,
        ),
        TypeModel::ListType(t) => resolve_list(
            scope,
            introspecting,
            parent,
            field,
            definition,
            *t,
            arguments,
            trace,
        ),
    }
}

/// The selections of the first `upto` of `fields`, one field's after the
/// other's.
pub open spec fn merged_items(fields: Seq<FieldModel>, upto: int) -> Seq<SelectionModel>
    decreases upto,
{
    if upto <= 0 {
        Seq::empty()
    } else {
        merged_items(fields, upto - 1) + fields[upto - 1].selection_set.items
    }
}

/// The span that covers the selection sets of the first `upto` of `fields`:
/// from the earliest start to the latest end.
pub open spec fn merged_span(fields: Seq<FieldModel>, upto: int) -> (Position, Position)
    decreases upto,
{
    if upto <= 1 {
        fields[0].selection_set.span
    } else {
        let before = merged_span(fields, upto - 1);
        let span = fields[upto - 1].selection_set.span;
        (before.0.spec_earliest(span.0), before.1.spec_latest(span.1))
    }
}

/// How many wrappers a declared type has around its named type.
pub open spec fn type_height(ty: TypeModel) -> nat
    decreases ty,
{
    match ty {
        TypeModel::NamedType(_) => 0,
        TypeModel::ListType(inner) => 1 + type_height(*inner),
        TypeModel::NonNullType(inner) => 1 + type_height(*inner),
    }
}

/// What executing one field gives: its value or its error, the errors raised
/// beneath it, and the rest of the trace.
pub struct FieldRun {
    pub result: Result<ValueModel, ErrorModel>,
    pub errors: Seq<ErrorModel>,
    pub rest: Seq<ResolverCall>,
}

/// What completing the items of a list gives: the completed items or the
/// first error, the errors raised beneath them, and the rest of the trace.
pub struct ItemsRun {
    pub result: Result<Seq<ValueModel>, ErrorModel>,
    pub errors: Seq<ErrorModel>,
    pub rest: Seq<ResolverCall>,
}

/// What executing groups of fields gives: the entries of the response object
/// so far, the errors raised, and the rest of the trace.
pub struct GroupsRun {
    pub entries: Seq<(Seq<char>, ValueModel)>,
    pub errors: Seq<ErrorModel>,
    pub rest: Seq<ResolverCall>,
}

/// What executing a selection set gives: the response value, the errors
/// raised, and the rest of the trace.
pub struct SetRun {
    pub value: ValueModel,
    pub errors: Seq<ErrorModel>,
    pub rest: Seq<ResolverCall>,
}

/// The object type that the first call of `trace` picks, when that call asks
/// the resolver chosen by `introspection` which object type `value` has as a
/// value of the type `abstract_type` of `schema`.
pub open spec fn picked(
    trace: Seq<ResolverCall>,
    introspection: bool,
    schema: SchemaModel,
    abstract_type: TypeDefinitionModel,
    value: ValueModel,
) -> Option<(Option<ObjectTypeModel>, Seq<ResolverCall>)> {
    if trace.len() > 0 && trace[0].introspection == introspection && trace[0].request
        == (Request::AbstractType { schema, abstract_type, object_value: value }) {
        match trace[0].answer {
            Answer::ObjectType(t) => Some((t, trace.skip(1))),
            Answer::Value(_) => None,
        }
    } else {
        None
    }
}

/// The result of a field that has a value and raised nothing beneath it.
pub open spec fn settled(result: Result<ValueModel, ErrorModel>, trace: Seq<ResolverCall>) -> Option<
    FieldRun,
> {
    Some(FieldRun { result, errors: Seq::empty(), rest: trace })
}

/// The result of a field whose value is the response of a selection set.
pub open spec fn nested(run: Option<SetRun>) -> Option<FieldRun> {
    match run {
        Some(r) => Some(FieldRun { result: Ok(r.value), errors: r.errors, rest: r.rest }),
        None => None,
    }
}

/// Completing the resolved `value` of a field against the declared type `ty`.
///
/// A non-null type completes against its inner type and turns a `Null`
/// outcome into an error. Otherwise `Null` stays `Null`. A list type wants a
/// list and completes its items in order. A scalar or enum type takes the
/// value as it is. An object type executes the merged selections of the
/// group's fields with the value as parent; an interface or union type first
/// asks which object type the value has, handing over the schema in which
/// types are looked up.
pub open spec fn complete(
    scope: Scope,
    depth: nat,
    introspecting: bool,
    field: FieldModel,
    ty: TypeModel,
    fields: Seq<FieldModel>,
    value: ValueModel,
    trace: Seq<ResolverCall>,
) -> Option<FieldRun>
    decreases depth, 0int, 2 * type_height(ty), 0int,
{
    match ty {
        TypeModel::NonNullType(inner) => match complete(
            scope,
            depth,
            introspecting,
            field,
            *inner,
            fields,
            value,
            trace,
        ) {
            Some(run) => if run.result == Ok::<ValueModel, ErrorModel>(ValueModel::Null) {
                Some(
                    FieldRun {
                        result: Err(ErrorModel::NonNullError(field.position, field.name)),
                        errors: run.errors,
                        rest: run.rest,
                    },
                )
            } else {
                Some(run)
            },
            None => None,
        },
        TypeModel::ListType(inner) => match value {
            ValueModel::Null => settled(Ok(ValueModel::Null), trace),
            ValueModel::List(items) => match complete_items(
                scope,
                depth,
                introspecting,
                field,
                *inner,
                fields,
                items,
                items.len() as int,
                trace,
            ) {
                Some(run) => Some(
                    FieldRun {
                        result: match run.result {
                            Ok(values) => Ok(ValueModel::List(values)),
                            Err(e) => Err(e),
                        },
                        errors: run.errors,
                        rest: run.rest,
                    },
                ),
                None => None,
            },
            _ => settled(Err(ErrorModel::ListValueError(field.position, field.name)), trace),
        },
        TypeModel::NamedType(name) => if value is Null {
            settled(Ok(ValueModel::Null), trace)
        } else {
            match scope.active(introspecting).named_type(name) {
                None => settled(Err(ErrorModel::NamedTypeError(name)), trace),
                Some(TypeDefinitionModel::Scalar(_)) => settled(Ok(value), trace),
                Some(TypeDefinitionModel::Enum(_)) => settled(Ok(value), trace),
                Some(TypeDefinitionModel::Object(t)) => if depth > 0 {
                    nested(
                        run_selection_set(
                            scope,
                            (depth - 1) as nat,
                            introspecting,
                            merged_items(fields, fields.len() as int),
                            t,
                            Some(value),
                            trace,
                        ),
                    )
                } else {
                    None
                },
                Some(TypeDefinitionModel::InputObject(_)) => settled(
                    Err(ErrorModel::NotSupported(input_object_message())),
                    trace,
                ),
                Some(abstract_type) => match picked(
                    trace,
                    introspecting,
                    scope.active(introspecting),
                    abstract_type,
                    value,
                ) {
                    Some((Some(t), rest)) => if depth > 0 {
                        nested(
                            run_selection_set(
                                scope,
                                (depth - 1) as nat,
                                introspecting,
                                merged_items(fields, fields.len() as int),
                                t,
                                Some(value),
                                rest,
                            ),
                        )
                    } else {
                        None
                    },
                    Some((None, rest)) => settled(
                        Err(ErrorModel::AbstractTypeError(abstract_type.name())),
                        rest,
                    ),
                    None => None,
                },
            }
        },
    }
}

/// Completing the first `upto` of the `items` of a list against the type
/// `inner`, in order. The first item that fails stops the completion, and its
/// error is the list's.
pub open spec fn complete_items(
    scope: Scope,
    depth: nat,
    introspecting: bool,
    field: FieldModel,
    inner: TypeModel,
    fields: Seq<FieldModel>,
    items: Seq<ValueModel>,
    upto: int,
    trace: Seq<ResolverCall>,
) -> Option<ItemsRun>
    decreases depth, 0int, 2 * type_height(inner) + 1, upto,
{
    if upto <= 0 {
        Some(ItemsRun { result: Ok(Seq::empty()), errors: Seq::empty(), rest: trace })
    } else {
        match complete_items(
            scope,
            depth,
            introspecting,
            field,
            inner,
            fields,
            items,
            upto - 1,
            trace,
        ) {
            None => None,
            Some(before) => match before.result {
                Err(_) => Some(before),
                Ok(values) => match complete(
                    scope,
                    depth,
                    introspecting,
                    field,
                    inner,
                    fields,
                    items[upto - 1],
                    before.rest,
                ) {
                    None => None,
                    Some(run) => Some(
                        ItemsRun {
                            result: match run.result {
                                Ok(v) => Ok(values.push(v)),
                                Err(e) => Err(e),
                            },
                            errors: before.errors + run.errors,
                            rest: run.rest,
                        },
                    ),
                },
            },
        }
    }
}

/// Executing the group `fields` of one response key under `definition`: the
/// arguments of the first field are coerced, the field is resolved once, and
/// the value is completed against the declared type.
pub open spec fn run_field(
    scope: Scope,
    depth: nat,
    introspecting: bool,
    parent: Option<ValueModel>,
    fields: Seq<FieldModel>,
    definition: FieldDefinitionModel,
    trace: Seq<ResolverCall>,
) -> Option<FieldRun>
    decreases depth, 1int, 0int, 0int,
{
    let field = fields[0];
    match coerce_arguments(
        scope.active(introspecting),
        definition.arguments,
        definition.arguments.len() as int,
        field,
    ) {
        Err(e) => settled(Err(e), trace),
        Ok(arguments) => match resolve(
            scope,
            introspecting,
            parent,
            field,
            definition,
            definition.field_type,
            arguments,
            trace,
        ) {
            None => None,
            Some(resolved) => match resolved.result {
                Err(e) => settled(Err(e), resolved.rest),
                Ok(value) => complete(
                    scope,
                    depth,
                    introspecting,
                    field,
                    definition.field_type,
                    fields,
                    value,
                    resolved.rest,
                ),
            },
        },
    }
}

/// The entry that a field leaves in the response object: its value, or `Null`
/// when it failed.
pub open spec fn slot(result: Result<ValueModel, ErrorModel>) -> ValueModel {
    match result {
        Ok(v) => v,
        Err(_) => ValueModel::Null,
    }
}

/// The error that a field adds to those raised beneath it: its own, when it
/// failed.
pub open spec fn failure(result: Result<ValueModel, ErrorModel>) -> Seq<ErrorModel> {
    match result {
        Ok(_) => Seq::empty(),
        Err(e) => seq![e],
    }
}

/// Executing the first `upto` of `groups`, in order, on an object of type
/// `object_type`. A group whose field the type does not define leaves nothing.
/// Any other group leaves one entry under its key, and the errors raised
/// beneath the field followed by the field's own.
pub open spec fn run_groups(
    scope: Scope,
    depth: nat,
    introspecting: bool,
    object_type: ObjectTypeModel,
    parent: Option<ValueModel>,
    groups: Seq<(Seq<char>, Seq<FieldModel>)>,
    upto: int,
    trace: Seq<ResolverCall>,
) -> Option<GroupsRun>
    decreases depth, 2int, upto, 0int,
{
    if upto <= 0 {
        Some(GroupsRun { entries: Seq::empty(), errors: Seq::empty(), rest: trace })
    } else {
        match run_groups(
            scope,
            depth,
            introspecting,
            object_type,
            parent,
            groups,
            upto - 1,
            trace,
        ) {
            None => None,
            Some(before) => {
                let group = groups[upto - 1];
                match field_definition_for(scope, introspecting, object_type, group.1[0].name) {
                    None => Some(before),
                    Some((definition, under_meta)) => match run_field(
                        scope,
                        depth,
                        under_meta,
                        parent,
                        group.1,
                        definition,
                        before.rest,
                    ) {
                        None => None,
                        Some(run) => Some(
                            GroupsRun {
                                entries: before.entries.push((group.0, slot(run.result))),
                                errors: before.errors + run.errors + failure(run.result),
                                rest: run.rest,
                            },
                        ),
                    },
                }
            },
        }
    }
}

/// Executing `selections` on an object of type `object_type` with the parent
/// value `parent`: the fields are collected into groups and the groups are
/// executed in order. The response is the object of their entries. Where the
/// collection fails, the response is `Null` and the error is the only one.
pub open spec fn run_selection_set(
    scope: Scope,
    depth: nat,
    introspecting: bool,
    selections: Seq<SelectionModel>,
    object_type: ObjectTypeModel,
    parent: Option<ValueModel>,
    trace: Seq<ResolverCall>,
) -> Option<SetRun>
    decreases depth, 3int, 0int, 0int,
{
    match collect(
        scope.document,
        scope.active(introspecting),
        object_type,
        selections,
        selections.len() as int,
        Seq::empty(),
    ) {
        Err(e) => Some(SetRun { value: ValueModel::Null, errors: seq![e], rest: trace }),
        Ok(collected) => match run_groups(
            scope,
            depth,
            introspecting,
            object_type,
            parent,
            collected.groups,
            collected.groups.len() as int,
            trace,
        ) {
            None => None,
            Some(run) => Some(
                SetRun { value: ValueModel::Object(run.entries), errors: run.errors, rest: run.rest },
            ),
        },
    }
}

} // verus!
