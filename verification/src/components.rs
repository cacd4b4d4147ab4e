//! Plain data exchanged with the components around the engine.
use vstd::prelude::*;
use crate::schema::SchemaDocument;

verus! {

/// A schema with the identifier of the deployment it belongs to.
#[derive(Debug, PartialEq)]
pub struct Schema {
    pub id: String,
    pub document: SchemaDocument,
}

/// Schema-only events emitted by a provider of deployments.
#[derive(Debug, PartialEq)]
pub enum SchemaEvent {
    /// A deployment with a new schema was added.
    SchemaAdded(Schema),
    /// The deployment with the given name and id was removed.
    SchemaRemoved(String, String),
}

/// An error that can occur when trying to obtain the state of a contract.
#[derive(Clone, Copy, Debug, PartialEq, Eq, Structural)]
pub enum EthereumContractStateError {
    Failed,
}

/// The error of a mock server that has nothing to serve queries with.
#[derive(Clone, Copy, Debug, PartialEq, Eq, Structural)]
pub struct MockServeError;

impl MockServeError {
    /// The text of the error.
    pub fn description(&self) -> (text: &'static str)
        ensures
            text@ == "Mock serve error"@,
    {
        "Mock serve error"
    }
}

} // verus!
