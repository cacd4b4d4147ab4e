//! The entry point: executing the operation of a query document.
use vstd::prelude::*;
use std::sync::Arc;
use crate::ast::{
    Document, DocumentModel, OperationDefinition, OperationDefinitionModel, SelectionSet,
    SelectionModel,
};
use crate::error::{ErrorModel, ExecutionError};
use crate::describe::{described, IntrospectionResolver};
use crate::execution::{Execution, Scope};
use crate::introspection::{introspection_model, introspection_schema};
use crate::nesting::{nesting_bounded, selections_within};
use crate::resolver::{optional_model, Resolver, ResolverCall};
use crate::completion::lemma_traces;
use crate::schema::{get_root_query_type, SchemaDocument, SchemaModel};
use crate::semantics::{run_selection_set, SetRun};
use crate::util::{find_first, lemma_first_match_at, models};
use crate::value::{Value, ValueModel};

verus! {

/// What a query is executed with: the resolver for data. The meta-fields are
/// answered by the engine itself, from the query's own schema.
pub struct QueryOptions<R: Resolver> {
    /// The resolver to use.
    pub resolver: R,
}

/// A query: a document, the schema to execute it against and the values of
/// its variables.
pub struct Query {
    pub document: Document,
    pub schema: SchemaDocument,
    pub variables: Option<Vec<(String, Value)>>,
}

/// The result of a query: the response value and the errors raised, in the
/// order of execution.
pub struct QueryResult {
    pub value: Value,
    pub errors: Vec<ExecutionError>,
    /// The calls that were made to the resolvers to produce the result.
    pub calls: Ghost<Seq<ResolverCall>>,
}

impl QueryResult {
    /// Creates a result from a value and errors, with no call on record.
    pub fn new(value: Value, errors: Vec<ExecutionError>) -> (result: QueryResult)
        ensures
            result.value == value,
            result.errors == errors,
            result.calls@ == Seq::<ResolverCall>::empty(),
    {
        QueryResult { value, errors, calls: Ghost(Seq::empty()) }
    }

    /// Adds an error after those of the result.
    pub fn add_error(&mut self, e: ExecutionError)
        ensures
            final(self).errors@ == old(self).errors@.push(e),
            final(self).value == old(self).value,
            final(self).calls == old(self).calls,
    {
        self.errors.push(e);
    }

    /// The result of an execution that failed as a whole: a `Null` value and
    /// the one error.
    pub fn from(e: ExecutionError) -> (result: QueryResult)
        ensures
            result.is_failure(e@),
            result.calls@ == Seq::<ResolverCall>::empty(),
    {
        let mut errors: Vec<ExecutionError> = Vec::new();
        errors.push(e);
        assert(models(errors@) =~= seq![e@]);
        QueryResult::new(Value::Null, errors)
    }

    /// Whether the result is a `Null` value with `e` as the only error.
    pub open spec fn is_failure(self, e: ErrorModel) -> bool {
        self.value@ == ValueModel::Null && models(self.errors@) == seq![e]
    }
}

/// The test that an operation has the name `name`.
pub open spec fn operation_named(name: Seq<char>) -> spec_fn(OperationDefinitionModel) -> bool {
    |o: OperationDefinitionModel| o.name() == Some(name)
}

/// The operation of `document` to execute. Without a name the document must
/// hold exactly one operation. With a name the first operation of that name
/// is taken, and a document without operations still asks for a name.
pub open spec fn operation_of(document: DocumentModel, name: Option<Seq<char>>) -> Result<
    OperationDefinitionModel,
    ErrorModel,
> {
    match name {
        None => if document.operations.len() == 1 {
            Ok(document.operations[0])
        } else {
            Err(ErrorModel::OperationNameRequired)
        },
        Some(wanted) => if document.operations.len() == 0 {
            Err(ErrorModel::OperationNameRequired)
        } else {
            match find_first(document.operations, operation_named(wanted)) {
                Some(operation) => Ok(operation),
                None => Err(ErrorModel::OperationNotFound(wanted)),
            }
        },
    }
}

/// Whether an operation has the name `name`.
fn has_name(operation: &OperationDefinition, name: &String) -> (same: bool)
    ensures
        same == operation_named(name@)(operation@),
{
    let own = match operation {
        OperationDefinition::SelectionSet(_) => None,
        OperationDefinition::Query(o) => o.name.as_ref(),
        OperationDefinition::Mutation(o) => o.name.as_ref(),
        OperationDefinition::Subscription(o) => o.name.as_ref(),
    };
    match own {
        Some(n) => *n == *name,
        None => false,
    }
}

/// Finds the operation of `document` to execute.
pub fn get_operation<'a>(document: &'a Document, name: Option<&String>) -> (found: Result<
    &'a OperationDefinition,
    ExecutionError,
>)
    ensures
        match found {
            Ok(operation) => operation_of(document@, named(name)) == Ok::<_, ErrorModel>(
                operation@,
            ),
            Err(e) => operation_of(document@, named(name)) == Err::<OperationDefinitionModel, _>(
                e@,
            ),
        },
{
    match name {
        None => {
            if document.operations.len() == 1 {
                assert(document@.operations[0] == document.operations[0]@);
                Ok(&document.operations[0])
            } else {
                Err(ExecutionError::OperationNameRequired)
            }
        },
        Some(wanted) => {
            if document.operations.len() == 0 {
                return Err(ExecutionError::OperationNameRequired);
            }
            let mut i: usize = 0;
            while i < document.operations.len()
                invariant
                    i <= document.operations.len(),
                    named(name) == Some(wanted@),
                    forall|j: int|
                        0 <= j < i ==> !operation_named(wanted@)(
                            #[trigger] document@.operations[j],
                        ),
                decreases document.operations.len() - i,
            {
                assert(document@.operations[i as int] == document.operations[i as int]@);
                if has_name(&document.operations[i], wanted) {
                    proof {
                        lemma_first_match_at(
                            document@.operations,
                            operation_named(wanted@),
                            i as int,
                        );
                    }
                    return Ok(&document.operations[i]);
                }
                i += 1;
            }
            proof {
                lemma_first_match_at(document@.operations, operation_named(wanted@), i as int);
            }
            Err(ExecutionError::OperationNotFound(wanted.clone()))
        },
    }
}

/// The model of an optional borrowed name.
pub open spec fn named(name: Option<&String>) -> Option<Seq<char>> {
    match name {
        Some(n) => Some(n@),
        None => None,
    }
}

/// The text of the error raised for an operation that is no query.
pub open spec fn only_queries_message() -> Seq<char> {
    "Only queries are supported"@
}

/// The selections that a query executes: those of its one operation, when
/// that is a query or a bare selection set.
pub open spec fn root_selections(document: DocumentModel) -> Option<Seq<SelectionModel>> {
    match operation_of(document, None) {
        Ok(OperationDefinitionModel::Query(o)) => Some(o.selection_set.items),
        Ok(OperationDefinitionModel::SelectionSet(s)) => Some(s.items),
        _ => None,
    }
}

/// Whether `result` is what executing `selections` as the root of `query`
/// gives: a failure where the schema has no root query type, and otherwise
/// the response and the errors that the calls on record lead to, within
/// whatever depth the fields nest.
pub open spec fn is_root_result(
    scope: Scope,
    selections: Seq<SelectionModel>,
    initial_value: Option<ValueModel>,
    result: QueryResult,
) -> bool {
    match scope.schema.root_query_type() {
        None => result.is_failure(ErrorModel::NoRootQueryObjectType) && result.calls@.len() == 0,
        Some(root) => forall|depth: nat|
            selections_within(scope.document, selections, selections.len() as int, Seq::empty(), depth)
                ==> #[trigger] run_selection_set(
                scope,
                depth,
                false,
                selections,
                root,
                initial_value,
                result.calls@,
            ) == Some(
                SetRun {
                    value: result.value@,
                    errors: models(result.errors@),
                    rest: Seq::empty(),
                },
            ),
    }
}

/// What a query reads: its document, its schema and the schema of the
/// meta-fields.
pub open spec fn scope_of(query: &Query) -> Scope {
    Scope {
        document: query.document@,
        schema: query.schema@,
        introspection_schema: introspection_model(),
    }
}

/// Whether each of `calls` was answered by the resolver it names: a call of
/// the meta-field resolver with the description of `schema` that the request
/// asks for, and a call of `resolver` with an answer that it gives to the
/// request.
pub open spec fn calls_answered<R: Resolver>(
    resolver: R,
    schema: SchemaModel,
    calls: Seq<ResolverCall>,
) -> bool {
    forall|i: int|
        0 <= i < calls.len() ==> if (#[trigger] calls[i]).introspection {
            calls[i].answer == described(schema, calls[i].request)
        } else {
            resolver.answers(calls[i].request, calls[i].answer)
        }
}

/// Executes the root selection set of a query. The schema of the meta-fields
/// and the resolver that answers them from the query's schema are made here,
/// once.
pub fn execute_root_selection_set<R: Resolver>(
    query: &Query,
    options: QueryOptions<R>,
    selection_set: &SelectionSet,
    initial_value: &Option<Value>,
) -> (result: QueryResult)
    requires
        nesting_bounded(query.document@, selection_set@.items),
    ensures
        is_root_result(
            scope_of(query),
            selection_set@.items,
            optional_model(*initial_value),
            result,
        ),
        calls_answered(options.resolver, query.schema@, result.calls@),
{
    let QueryOptions { resolver } = options;
    let introspection_schema = introspection_schema();
    let mut execution = Execution::new(
        &query.schema,
        &introspection_schema,
        &query.document,
        Arc::new(resolver),
        Arc::new(IntrospectionResolver::new(&query.schema)),
    );
    match get_root_query_type(&query.schema) {
        Some(root) => {
            let ghost before = execution;
            let value = execution.execute_selection_set(selection_set, root, initial_value);
            let ghost calls = execution.calls@;
            proof {
                let made = Execution::<R, IntrospectionResolver>::calls_since(before, execution);
                let raised = Execution::<R, IntrospectionResolver>::errors_since(
                    before,
                    execution,
                );
                assert(made =~= calls);
                assert forall|i: int| 0 <= i < calls.len() implies if (
                #[trigger] calls[i]).introspection {
                    calls[i].answer == described(query.schema@, calls[i].request)
                } else {
                    options.resolver.answers(calls[i].request, calls[i].answer)
                } by {
                    assert(before.answered(made[i]));
                }
                assert(raised =~= models(execution.errors@));
                lemma_traces(calls, Seq::empty(), Seq::empty());
                assert forall|depth: nat|
                    selections_within(
                        query.document@,
                        selection_set@.items,
                        selection_set@.items.len() as int,
                        Seq::empty(),
                        depth,
                    ) implies #[trigger] run_selection_set(
                    before.scope(),
                    depth,
                    false,
                    selection_set@.items,
                    root@,
                    optional_model(*initial_value),
                    calls,
                ) == Some(
                    SetRun {
                        value: value@,
                        errors: models(execution.errors@),
                        rest: Seq::empty(),
                    },
                ) by {
                    assert(run_selection_set(
                        before.scope(),
                        depth,
                        false,
                        selection_set@.items,
                        root@,
                        optional_model(*initial_value),
                        made + Seq::empty(),
                    ) == Some(SetRun { value: value@, errors: raised, rest: Seq::empty() }));
                }
            }
            QueryResult { value, errors: execution.errors, calls: Ghost(calls) }
        },
        None => QueryResult::from(ExecutionError::NoRootQueryObjectType),
    }
}

/// Executes a query and returns a result.
///
/// The one operation of the document is executed when it is a query or a bare
/// selection set. Any other document fails as a whole: with the error of the
/// operation lookup, or because only queries are supported.
pub fn execute_query<R: Resolver>(query: &Query, options: QueryOptions<R>) -> (result: QueryResult)
    requires
        match root_selections(query.document@) {
            Some(selections) => nesting_bounded(query.document@, selections),
            None => true,
        },
    ensures
        match operation_of(query.document@, None) {
            Err(e) => result.is_failure(e) && result.calls@.len() == 0,
            Ok(operation) => match root_selections(query.document@) {
                Some(selections) => is_root_result(scope_of(query), selections, None, result),
                None => result.is_failure(ErrorModel::NotSupported(only_queries_message()))
                    && result.calls@.len() == 0,
            },
        },
        calls_answered(options.resolver, query.schema@, result.calls@),
{
    let operation = match get_operation(&query.document, None) {
        Ok(op) => op,
        Err(e) => {
            return QueryResult::from(e);
        },
    };
    match operation {
        OperationDefinition::Query(o) => execute_root_selection_set(
            query,
            options,
            &o.selection_set,
            &None,
        ),
        OperationDefinition::SelectionSet(selection_set) => execute_root_selection_set(
            query,
            options,
            selection_set,
            &None,
        ),
        _ => QueryResult::from(
            ExecutionError::NotSupported("Only queries are supported".to_owned()),
        ),
    }
}

} // verus!
