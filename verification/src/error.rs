//! The errors of an execution.
use vstd::prelude::*;
use vstd::string::StringExecFns;
use crate::position::Position;
use crate::util::models;
use crate::value::{Value, ValueModel};

verus! {

/// An error that carries the places in the query it refers to, and a message
/// for the client.
pub trait GraphQLError {
    /// The positions in the query that the error refers to.
    fn locations(&self) -> Vec<Position>;

    /// The text shown to the client.
    fn message(&self) -> String;
}

/// An error raised while a query is executed.
#[derive(Debug, PartialEq)]
pub enum ExecutionError {
    OperationNameRequired,
    OperationNotFound(String),
    NotSupported(String),
    NoRootQueryObjectType,
    NoRootSubscriptionObjectType,
    ResolveEntityError(Position, String),
    NonNullError(Position, String),
    ListValueError(Position, String),
    NamedTypeError(String),
    AbstractTypeError(String),
    InvalidArgumentError(Position, String, Value),
    MissingArgumentError(Position, String),
}

/// The model of an [`ExecutionError`].
pub enum ErrorModel {
    OperationNameRequired,
    OperationNotFound(Seq<char>),
    NotSupported(Seq<char>),
    NoRootQueryObjectType,
    NoRootSubscriptionObjectType,
    ResolveEntityError(Position, Seq<char>),
    NonNullError(Position, Seq<char>),
    ListValueError(Position, Seq<char>),
    NamedTypeError(Seq<char>),
    AbstractTypeError(Seq<char>),
    InvalidArgumentError(Position, Seq<char>, ValueModel),
    MissingArgumentError(Position, Seq<char>),
}

impl View for ExecutionError {
    type V = ErrorModel;

    open spec fn view(&self) -> ErrorModel {
        match self {
            ExecutionError::OperationNameRequired => ErrorModel::OperationNameRequired,
            ExecutionError::OperationNotFound(s) => ErrorModel::OperationNotFound(s@),
            ExecutionError::NotSupported(s) => ErrorModel::NotSupported(s@),
            ExecutionError::NoRootQueryObjectType => ErrorModel::NoRootQueryObjectType,
            ExecutionError::NoRootSubscriptionObjectType => ErrorModel::NoRootSubscriptionObjectType,
            ExecutionError::ResolveEntityError(p, s) => ErrorModel::ResolveEntityError(*p, s@),
            ExecutionError::NonNullError(p, s) => ErrorModel::NonNullError(*p, s@),
            ExecutionError::ListValueError(p, s) => ErrorModel::ListValueError(*p, s@),
            ExecutionError::NamedTypeError(s) => ErrorModel::NamedTypeError(s@),
            ExecutionError::AbstractTypeError(s) => ErrorModel::AbstractTypeError(s@),
            ExecutionError::InvalidArgumentError(p, s, v) => ErrorModel::InvalidArgumentError(
                *p,
                s@,
                v@,
            ),
            ExecutionError::MissingArgumentError(p, s) => ErrorModel::MissingArgumentError(*p, s@),
        }
    }
}

impl ErrorModel {
    /// The positions the error refers to: the one it carries, if it carries
    /// one.
    pub open spec fn locations(self) -> Seq<Position> {
        match self {
            ErrorModel::ResolveEntityError(p, _) => seq![p],
            ErrorModel::NonNullError(p, _) => seq![p],
            ErrorModel::ListValueError(p, _) => seq![p],
            ErrorModel::InvalidArgumentError(p, _, _) => seq![p],
            ErrorModel::MissingArgumentError(p, _) => seq![p],
            _ => Seq::empty(),
        }
    }

    /// The text shown to the client.
    pub open spec fn message(self) -> Seq<char> {
        match self {
            ErrorModel::OperationNameRequired => "Operation name required"@,
            ErrorModel::OperationNotFound(s) => "Operation name not found: "@ + s,
            ErrorModel::NotSupported(s) => "Not supported: "@ + s,
            ErrorModel::NoRootQueryObjectType => "No root Query type defined in the schema"@,
            ErrorModel::NoRootSubscriptionObjectType =>
                "No root Subscription type defined in the schema"@,
            ErrorModel::ResolveEntityError(_, s) => "Failed to resolve entity: "@ + s,
            ErrorModel::NonNullError(_, s) => "Null value resolved for non-null field: "@ + s,
            ErrorModel::ListValueError(_, s) => "Non-list value resolved for list field: "@ + s,
            ErrorModel::NamedTypeError(s) => "Failed to resolve named type: "@ + s,
            ErrorModel::AbstractTypeError(s) => "Failed to resolve abstract type: "@ + s,
            ErrorModel::InvalidArgumentError(_, s, _) => "Invalid value provided for argument \""@
                + s + "\""@,
            ErrorModel::MissingArgumentError(_, s) => "No value provided for required argument: "@
                + s,
        }
    }
}

/// Joins a fixed prefix and a text.
fn prefixed(prefix: &str, text: &String) -> (joined: String)
    ensures
        joined@ == prefix@ + text@,
{
    prefix.to_owned().concat(text.as_str())
}

impl GraphQLError for ExecutionError {
    fn locations(&self) -> (places: Vec<Position>)
        ensures
            places@ == self@.locations(),
    {
        match self {
            ExecutionError::ResolveEntityError(p, _) => vec![*p],
            ExecutionError::NonNullError(p, _) => vec![*p],
            ExecutionError::ListValueError(p, _) => vec![*p],
            ExecutionError::InvalidArgumentError(p, _, _) => vec![*p],
            ExecutionError::MissingArgumentError(p, _) => vec![*p],
            _ => Vec::new(),
        }
    }

    fn message(&self) -> (text: String)
        ensures
            text@ == self@.message(),
    {
        match self {
            ExecutionError::OperationNameRequired => "Operation name required".to_owned(),
            ExecutionError::OperationNotFound(s) => prefixed("Operation name not found: ", s),
            ExecutionError::NotSupported(s) => prefixed("Not supported: ", s),
            ExecutionError::NoRootQueryObjectType => "No root Query type defined in the schema"
                .to_owned(),
            ExecutionError::NoRootSubscriptionObjectType =>
                "No root Subscription type defined in the schema".to_owned(),
            ExecutionError::ResolveEntityError(_, s) => prefixed("Failed to resolve entity: ", s),
            ExecutionError::NonNullError(_, s) => prefixed(
                "Null value resolved for non-null field: ",
                s,
            ),
            ExecutionError::ListValueError(_, s) => prefixed(
                "Non-list value resolved for list field: ",
                s,
            ),
            ExecutionError::NamedTypeError(s) => prefixed("Failed to resolve named type: ", s),
            ExecutionError::AbstractTypeError(s) => prefixed(
                "Failed to resolve abstract type: ",
                s,
            ),
            ExecutionError::InvalidArgumentError(_, s, _) => prefixed(
                "Invalid value provided for argument \"",
                s,
            ).concat("\""),
            ExecutionError::MissingArgumentError(_, s) => prefixed(
                "No value provided for required argument: ",
                s,
            ),
        }
    }
}

impl Clone for ExecutionError {
    fn clone(&self) -> (copy: ExecutionError)
        ensures
            copy@ == self@,
    {
        match self {
            ExecutionError::OperationNameRequired => ExecutionError::OperationNameRequired,
            ExecutionError::OperationNotFound(s) => ExecutionError::OperationNotFound(s.clone()),
            ExecutionError::NotSupported(s) => ExecutionError::NotSupported(s.clone()),
            ExecutionError::NoRootQueryObjectType => ExecutionError::NoRootQueryObjectType,
            ExecutionError::NoRootSubscriptionObjectType =>
                ExecutionError::NoRootSubscriptionObjectType,
            ExecutionError::ResolveEntityError(p, s) => ExecutionError::ResolveEntityError(
                *p,
                s.clone(),
            ),
            ExecutionError::NonNullError(p, s) => ExecutionError::NonNullError(*p, s.clone()),
            ExecutionError::ListValueError(p, s) => ExecutionError::ListValueError(*p, s.clone()),
            ExecutionError::NamedTypeError(s) => ExecutionError::NamedTypeError(s.clone()),
            ExecutionError::AbstractTypeError(s) => ExecutionError::AbstractTypeError(s.clone()),
            ExecutionError::InvalidArgumentError(p, s, v) => ExecutionError::InvalidArgumentError(
                *p,
                s.clone(),
                v.clone(),
            ),
            ExecutionError::MissingArgumentError(p, s) => ExecutionError::MissingArgumentError(
                *p,
                s.clone(),
            ),
        }
    }
}

/// Copies a list of errors.
pub fn clone_errors(errors: &Vec<ExecutionError>) -> (copy: Vec<ExecutionError>)
    ensures
        models(copy@) == models(errors@),
{
    let mut out: Vec<ExecutionError> = Vec::new();
    let mut i: usize = 0;
    while i < errors.len()
        invariant
            i <= errors.len(),
            out.len() == i,
            forall|j: int| 0 <= j < i ==> out[j]@ == errors[j]@,
        decreases errors.len() - i,
    {
        out.push(errors[i].clone());
        i += 1;
    }
    assert(models(out@) =~= models(errors@));
    out
}

} // verus!
